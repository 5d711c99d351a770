//! Sizing of the resident-payload pool.
use vstd::prelude::*;
use vstd::string::*;

use crate::text::{dec, push_dec};

verus! {

/// A validated pool: its size, and the part that is reserved for single
/// values.
#[derive(Debug, Clone, Copy, PartialEq, Eq, Structural)]
pub struct BudgetPlan {
    pub total: usize,
    pub leaf_reserve: usize,
}

pub open spec fn at_least_one(n: usize) -> usize {
    if n == 0 {
        1
    } else {
        n
    }
}

/// Bytes to reserve: so many per decoder, at most the largest size.
pub open spec fn reserve_of(value_reserve: usize, decoders: usize) -> usize {
    let n = at_least_one(decoders) * value_reserve;
    if n <= usize::MAX {
        n as usize
    } else {
        usize::MAX
    }
}

pub open spec fn reserve_text(total: usize, value_reserve: usize, decoders: usize) -> Seq<char> {
    "value_reserve needs "@ + dec(reserve_of(value_reserve, decoders) as nat) + " bytes for "@
        + dec(at_least_one(decoders) as nat)
        + " decoders, more than half of resident_payload_max "@ + dec(total as nat)
        + "; raise resident_payload_max or lower value_reserve or decoder_pool_size"@
}

/// Reserve `value_reserve` bytes per decoder. The reserve stays within half of
/// the pool, so that the pipeline can accept batches; values larger than the
/// reserve run one at a time.
pub fn leaf_reserve_for(
    resident_payload_max: usize,
    value_reserve: usize,
    decoders: usize,
) -> (r: Result<usize, String>)
    ensures
        match r {
            Ok(n) => n == reserve_of(value_reserve, decoders) && n <= resident_payload_max / 2,
            Err(m) => reserve_of(value_reserve, decoders) > resident_payload_max / 2 && m@
                == reserve_text(resident_payload_max, value_reserve, decoders),
        },
{
    let d: usize = if decoders == 0 {
        1
    } else {
        decoders
    };
    proof {
        assert(d * value_reserve <= 0xffff_ffff_ffff_ffff * 0xffff_ffff_ffff_ffff)
            by (nonlinear_arith)
            requires
                0 <= d <= 0xffff_ffff_ffff_ffff,
                0 <= value_reserve <= 0xffff_ffff_ffff_ffff,
        ;
        assert(d * value_reserve >= 0) by (nonlinear_arith)
            requires
                d >= 0,
                value_reserve >= 0,
        ;
    }
    let wide: u128 = d as u128 * value_reserve as u128;
    let reserve: usize = if wide <= usize::MAX as u128 {
        wide as usize
    } else {
        usize::MAX
    };
    if reserve > resident_payload_max / 2 {
        let mut m: String = String::from_str("value_reserve needs ");
        push_dec(&mut m, reserve as u64);
        m.append(" bytes for ");
        push_dec(&mut m, d as u64);
        m.append(" decoders, more than half of resident_payload_max ");
        push_dec(&mut m, resident_payload_max as u64);
        m.append("; raise resident_payload_max or lower value_reserve or decoder_pool_size");
        return Err(m);
    }
    Ok(reserve)
}

/// What one drain may hold while it admits slices: what it retains, plus
/// headroom for two slices.
pub open spec fn drain_floor(drain_retained: usize, drain_batch_bytes: usize) -> nat {
    (drain_retained + 2 * drain_batch_bytes) as nat
}

pub open spec fn floor_text(admission: nat, floor: nat) -> Seq<char> {
    "admission compartment "@ + dec(admission) + " below drain floor "@ + dec(floor)
        + " (body spool cap + index cap + 2x drain_batch_bytes); raise resident_payload_max or lower drain_batch_bytes"@
}

/// The pool, if it is large enough for a drain to make progress: a drain
/// admits slices while it holds what it has sealed, so what is left beside
/// the reserve must fit both.
pub fn build_budget(
    resident_payload_max: usize,
    value_reserve: usize,
    drain_retained: usize,
    drain_batch_bytes: usize,
    decoders: usize,
) -> (r: Result<BudgetPlan, String>)
    requires
        drain_retained + 2 * drain_batch_bytes <= u64::MAX,
    ensures
        ({
            let reserve = reserve_of(value_reserve, decoders);
            let admission = (resident_payload_max - reserve) as nat;
            let floor = drain_floor(drain_retained, drain_batch_bytes);
            if reserve > resident_payload_max / 2 {
                r is Err && r->Err_0@ == reserve_text(
                    resident_payload_max,
                    value_reserve,
                    decoders,
                )
            } else if admission < floor {
                r is Err && r->Err_0@ == floor_text(admission, floor)
            } else {
                r == Ok::<_, String>(
                    BudgetPlan { total: resident_payload_max, leaf_reserve: reserve },
                )
            }
        }),
{
    let reserve: usize = match leaf_reserve_for(resident_payload_max, value_reserve, decoders) {
        Ok(n) => n,
        Err(m) => {
            return Err(m);
        },
    };
    let admission: usize = resident_payload_max - reserve;
    let floor: u64 = drain_retained as u64 + 2 * drain_batch_bytes as u64;
    if (admission as u64) < floor {
        let mut m: String = String::from_str("admission compartment ");
        push_dec(&mut m, admission as u64);
        m.append(" below drain floor ");
        push_dec(&mut m, floor);
        m.append(
            " (body spool cap + index cap + 2x drain_batch_bytes); raise resident_payload_max or lower drain_batch_bytes",
        );
        return Err(m);
    }
    Ok(BudgetPlan { total: resident_payload_max, leaf_reserve: reserve })
}

/// A pool that was accepted leaves at least half of itself for batches, and
/// room for one drain.
pub proof fn accepted_pool_admits_a_drain(
    total: usize,
    value_reserve: usize,
    retained: usize,
    batch: usize,
    decoders: usize,
)
    requires
        reserve_of(value_reserve, decoders) <= total / 2,
        total - reserve_of(value_reserve, decoders) >= drain_floor(retained, batch),
    ensures
        2 * (total - reserve_of(value_reserve, decoders)) >= total,
        total - reserve_of(value_reserve, decoders) >= retained + 2 * batch,
{
}

} // verus!
