//! Source relations and their changes.
use vstd::prelude::*;
use vstd::string::*;

use crate::text::str_eq;

verus! {

/// A relation's qualified name.
#[derive(Debug)]
pub struct RelName {
    pub namespace: String,
    pub name: String,
}

/// A relation's qualified name as a mathematical value.
pub struct RelKey {
    pub namespace: Seq<char>,
    pub name: Seq<char>,
}

impl View for RelName {
    type V = RelKey;

    open spec fn view(&self) -> RelKey {
        RelKey { namespace: self.namespace@, name: self.name@ }
    }
}

impl RelKey {
    /// `namespace.name`.
    pub open spec fn text(self) -> Seq<char> {
        self.namespace + "."@ + self.name
    }
}

impl RelName {
    pub fn new(namespace: &str, name: &str) -> (r: RelName)
        ensures
            r@ == (RelKey { namespace: namespace@, name: name@ }),
    {
        RelName { namespace: String::from_str(namespace), name: String::from_str(name) }
    }

    pub fn same(&self, other: &RelName) -> (r: bool)
        ensures
            r == (self@ == other@),
    {
        str_eq(self.namespace.as_str(), other.namespace.as_str()) && str_eq(
            self.name.as_str(),
            other.name.as_str(),
        )
    }

    pub fn copied(&self) -> (r: RelName)
        ensures
            r@ == self@,
    {
        RelName { namespace: self.namespace.clone(), name: self.name.clone() }
    }

    /// `namespace.name`.
    pub fn to_text(&self) -> (s: String)
        ensures
            s@ == self@.text(),
    {
        let mut s: String = self.namespace.clone();
        s.append(".");
        s.append(self.name.as_str());
        s
    }
}

/// Physical identity of a relation.
#[derive(Clone, Copy, Debug, PartialEq, Eq, Structural)]
pub struct RelFileNode {
    pub spc_node: u32,
    pub db_node: u32,
    pub rel_node: u32,
}

/// What rows that predate an added column read.
#[derive(Debug)]
pub enum MissingDefault {
    Text(String),
    Raw(Vec<u8>),
}

#[derive(Debug)]
pub struct RelAttr {
    pub attnum: i16,
    pub name: String,
    pub type_oid: u32,
    pub typmod: i32,
    pub not_null: bool,
    pub dropped: bool,
    pub type_len: i16,
    pub missing_default: Option<MissingDefault>,
}

/// Which columns identify a row of the relation.
#[derive(Debug)]
pub enum ReplIdent {
    Default { pk_attnums: Option<Vec<i16>> },
    Full { pk_attnums: Option<Vec<i16>> },
    UsingIndex { index_oid: u32, key_attnums: Vec<i16> },
    Nothing,
}

#[derive(Debug)]
pub struct RelDescriptor {
    pub rfn: RelFileNode,
    pub oid: u32,
    pub toast_oid: u32,
    pub rel_name: RelName,
    pub kind: char,
    pub replident: ReplIdent,
    pub attributes: Vec<RelAttr>,
}

impl ReplIdent {
    /// The key columns, in key order.
    pub open spec fn key(&self) -> Seq<i16> {
        match self {
            ReplIdent::Default { pk_attnums: Some(k) } => k@,
            ReplIdent::Full { pk_attnums: Some(k) } => k@,
            ReplIdent::UsingIndex { key_attnums, .. } => key_attnums@,
            _ => Seq::empty(),
        }
    }
}

fn copy_attnums(v: &Vec<i16>) -> (r: Vec<i16>)
    ensures
        r@ == v@,
{
    let mut r: Vec<i16> = Vec::new();
    let mut i: usize = 0;
    while i < v.len()
        invariant
            i <= v@.len(),
            r@ == v@.subrange(0, i as int),
        decreases v@.len() - i,
    {
        r.push(v[i]);
        proof {
            assert(r@ =~= v@.subrange(0, i as int + 1));
        }
        i = i + 1;
    }
    proof {
        assert(r@ =~= v@);
    }
    r
}

/// The columns that identify a row, in key order; empty without a key.
pub fn replident_key_attnums(desc: &RelDescriptor) -> (r: Vec<i16>)
    ensures
        r@ == desc.replident.key(),
{
    match &desc.replident {
        ReplIdent::Default { pk_attnums: Some(k) } => copy_attnums(k),
        ReplIdent::Full { pk_attnums: Some(k) } => copy_attnums(k),
        ReplIdent::UsingIndex { key_attnums, .. } => copy_attnums(key_attnums),
        _ => Vec::new(),
    }
}

/// What a change of a relation did to its columns.
#[derive(Debug)]
pub struct SchemaDiff {
    pub added_columns: Vec<RelAttr>,
    pub dropped_columns: Vec<i16>,
    /// `(attnum, old name, new name)`.
    pub renamed_columns: Vec<(i16, String, String)>,
    pub type_changes: Vec<i16>,
}

#[derive(Debug)]
pub enum SchemaEvent {
    Added { desc: RelDescriptor },
    Changed { old: RelDescriptor, new: RelDescriptor, diff: SchemaDiff },
    Dropped { oid: u32, rel_name: RelName },
}

/// Row operation of a heap record.
#[derive(Clone, Copy, Debug, PartialEq, Eq, Structural)]
pub enum HeapOp {
    Insert,
    Update,
    HotUpdate,
    Delete,
    Truncate,
}

} // verus!
