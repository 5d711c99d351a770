//! ClickHouse types as the encoder sees them.
use vstd::prelude::*;
use vstd::string::*;

use crate::decimal::{DecimalWidth, DecimalWire};

verus! {

/// The kinds of type that the encoder tells apart.
#[derive(Clone, Copy, Debug, PartialEq, Eq, Structural)]
pub enum TypeKind {
    Int32,
    Int64,
    Int128,
    Int256,
    Decimal32,
    Decimal64,
    Decimal128,
    Decimal256,
    Array,
    MapOf,
    Object,
    Json,
    Other,
}

/// A type below its `Nullable` layer.
#[derive(Clone, Copy, Debug, PartialEq, Eq, Structural)]
pub struct LeafType {
    pub kind: TypeKind,
    /// Bytes per value on the wire, zero for varying length.
    pub elem_size: usize,
    /// Scale of a Decimal.
    pub decimal_scale: i32,
}

/// A parsed ClickHouse type.
#[derive(Debug)]
pub struct TypeAst {
    pub nullable: bool,
    /// `None` for a `Nullable` without a child.
    pub leaf: Option<LeafType>,
    /// The type's canonical spelling, if it has one.
    pub name: Option<String>,
}

/// A type's wire form below its `Nullable` layer.
pub struct TypeShape {
    pub nullable: bool,
    pub leaf: Option<LeafType>,
}

impl View for TypeAst {
    type V = TypeShape;

    open spec fn view(&self) -> TypeShape {
        TypeShape { nullable: self.nullable, leaf: self.leaf }
    }
}

impl TypeAst {
    /// The same type.
    pub fn copied(&self) -> (r: TypeAst)
        ensures
            r == *self,
    {
        TypeAst { nullable: self.nullable, leaf: self.leaf, name: self.name.clone() }
    }
}

pub open spec fn is_decimal_kind(k: TypeKind) -> bool {
    k == TypeKind::Decimal32 || k == TypeKind::Decimal64 || k == TypeKind::Decimal128 || k
        == TypeKind::Decimal256
}

impl TypeShape {
    /// Arrays, maps and legacy objects need the source database's rendering.
    pub open spec fn composite(self) -> bool {
        match self.leaf {
            Some(l) => l.kind == TypeKind::Array || l.kind == TypeKind::MapOf || l.kind
                == TypeKind::Object,
            None => false,
        }
    }

    /// Wire form of a Decimal, nullable or not.
    pub open spec fn decimal(self) -> Option<DecimalWire> {
        match self.leaf {
            Some(l) if is_decimal_kind(l.kind) && 0 <= l.decimal_scale <= 255 => {
                match DecimalWidth::of_size(l.elem_size as nat) {
                    Some(width) => Some(DecimalWire { scale: l.decimal_scale as u8, width }),
                    None => None,
                }
            },
            _ => None,
        }
    }
}

/// Whether a type needs the source database's rendering.
pub fn composite_target(ast: &TypeAst) -> (r: bool)
    ensures
        r == ast@.composite(),
{
    match ast.leaf {
        Some(l) => l.kind == TypeKind::Array || l.kind == TypeKind::MapOf || l.kind
            == TypeKind::Object,
        None => false,
    }
}

/// Wire form of a Decimal, nullable or not; `None` for any other type.
pub fn decimal_wire_of(ast: &TypeAst) -> (r: Option<DecimalWire>)
    ensures
        r == ast@.decimal(),
{
    match ast.leaf {
        None => None,
        Some(l) => {
            let decimal: bool = l.kind == TypeKind::Decimal32 || l.kind == TypeKind::Decimal64
                || l.kind == TypeKind::Decimal128 || l.kind == TypeKind::Decimal256;
            if !decimal || l.decimal_scale < 0 || l.decimal_scale > 255 {
                return None;
            }
            match DecimalWidth::from_elem_size(l.elem_size) {
                Some(width) => Some(DecimalWire { scale: l.decimal_scale as u8, width }),
                None => None,
            }
        },
    }
}

pub open spec fn signed_int(k: TypeKind) -> bool {
    k == TypeKind::Int32 || k == TypeKind::Int64 || k == TypeKind::Int128 || k == TypeKind::Int256
}

/// Whether an override of a column's target type is admissible, and the
/// Decimal wire form that the plan carries if so. The encoder writes the
/// source value's own wire bytes, so an override is admissible only where
/// those are valid for it: from a Decimal to any Decimal, to text, or to a
/// signed integer as a Decimal of scale zero; from text to text; from a fixed
/// width to the same width, Decimals excluded because a scale would silently
/// rescale.
pub open spec fn admissible(default: TypeShape, over: TypeShape) -> Option<Option<DecimalWire>> {
    if default.decimal() is Some && over.decimal() is Some {
        Some(over.decimal())
    } else {
        match (default.leaf, over.leaf) {
            (Some(d), Some(o)) => if default.decimal() is Some {
                if o.elem_size == 0 {
                    Some(None)
                } else if signed_int(o.kind) {
                    match DecimalWidth::of_size(o.elem_size as nat) {
                        Some(width) => Some(Some(DecimalWire { scale: 0, width })),
                        None => None,
                    }
                } else {
                    None
                }
            } else if d.elem_size != o.elem_size {
                None
            } else if o.elem_size != 0 && over.decimal() is Some {
                None
            } else {
                Some(None)
            },
            _ => None,
        }
    }
}

pub fn override_wire(default: &TypeAst, over: &TypeAst) -> (r: Option<Option<DecimalWire>>)
    ensures
        r == admissible(default@, over@),
{
    let from = decimal_wire_of(default);
    let to = decimal_wire_of(over);
    if from.is_some() && to.is_some() {
        return Some(to);
    }
    let (d, o): (LeafType, LeafType) = match (default.leaf, over.leaf) {
        (Some(d), Some(o)) => (d, o),
        _ => {
            return None;
        },
    };
    if from.is_some() {
        if o.elem_size == 0 {
            return Some(None);
        }
        let signed: bool = o.kind == TypeKind::Int32 || o.kind == TypeKind::Int64 || o.kind
            == TypeKind::Int128 || o.kind == TypeKind::Int256;
        if !signed {
            return None;
        }
        return match DecimalWidth::from_elem_size(o.elem_size) {
            Some(width) => Some(Some(DecimalWire { scale: 0, width })),
            None => None,
        };
    }
    if d.elem_size != o.elem_size || (o.elem_size != 0 && to.is_some()) {
        return None;
    }
    Some(None)
}

/// An admissible override keeps the width of fixed-width values, so bytes
/// encoded for the default are read back whole under it.
pub proof fn admissible_override_keeps_the_width(default: TypeShape, over: TypeShape)
    requires
        admissible(default, over) is Some,
        default.decimal() is None,
    ensures
        over.leaf is Some,
        default.leaf is Some,
        over.leaf->0.elem_size == default.leaf->0.elem_size,
        admissible(default, over)->0 is None,
{
}

} // verus!
