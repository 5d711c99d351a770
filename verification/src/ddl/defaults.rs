//! Defaults of added columns. Rows from before the column exist without it
//! and read its default, so the added column carries the same one.
use vstd::prelude::*;

use crate::schema::{MissingDefault, RelAttr};
use crate::values::ColumnValue;
use crate::wire::append_all;

verus! {

/// The stored bytes that the source database has to render before a default
/// can be written down: those of a type that only it renders, where it can be
/// asked.
pub fn disk_default_request(missing: &ColumnValue, has_oracle: bool) -> (r: Option<Vec<u8>>)
    ensures
        match *missing {
            ColumnValue::PgPending { raw, .. } if has_oracle => r is Some && r->0@ == raw@,
            _ => r is None,
        },
{
    match missing {
        ColumnValue::PgPending { raw, .. } => {
            if !has_oracle {
                return None;
            }
            let mut out: Vec<u8> = Vec::new();
            append_all(&mut out, raw.as_slice());
            proof {
                assert(out@ =~= raw@);
            }
            Some(out)
        },
        _ => None,
    }
}

/// The attribute as its column is added: with the rendered default where
/// there is one, else as it is. A default that was not rendered stays off.
pub fn resolve_disk_default(att: RelAttr, rendered: Option<Result<String, String>>) -> (r: RelAttr)
    ensures
        match rendered {
            Some(Ok(text)) => r == (RelAttr {
                missing_default: Some(MissingDefault::Text(text)),
                ..att
            }),
            _ => r == att,
        },
{
    match rendered {
        Some(Ok(text)) => {
            let mut out: RelAttr = att;
            out.missing_default = Some(MissingDefault::Text(text));
            out
        },
        _ => att,
    }
}

} // verus!
