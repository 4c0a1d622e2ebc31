//! Date range planning: the minimal set of dates to fetch given the requested
//! bounds and the newest date already present in persisted state.

use vstd::prelude::*;
use crate::dates::{Date, date_le, date_lt, succ_spec};

verus! {

/// The first date worth fetching: the requested start, pushed forward past
/// everything persisted state already covers.
pub open spec fn effective_start(from: Date, persisted_max: Option<Date>) -> Date {
    match persisted_max {
        None => from,
        Some(p) => if date_lt(p, from) {
            from
        } else {
            succ_spec(p)
        },
    }
}

/// The ordered, inclusive run of calendar dates from the effective start
/// through `to`; empty when the effective start lies after `to`.
///
/// No produced date is ever `<=` the persisted maximum, so a fetcher driven
/// by this plan never re-requests an already-covered day.
pub fn plan(from: Date, to: Date, persisted_max: Option<Date>) -> (r: Vec<Date>)
    requires
        from.valid(),
        to.valid(),
        persisted_max matches Some(p) ==> p.valid(),
    ensures
        forall|i: int| 0 <= i < r@.len() ==> (#[trigger] r@[i]).valid(),
        forall|i: int| 0 <= i < r@.len() - 1 ==> r@[i + 1] == succ_spec(#[trigger] r@[i]),
        r@.len() > 0 ==> r@[0] == effective_start(from, persisted_max),
        r@.len() > 0 ==> r@[r@.len() - 1] == to,
        r@.len() == 0 <==> date_lt(to, effective_start(from, persisted_max)),
        forall|i: int| 0 <= i < r@.len() ==> date_le(from, #[trigger] r@[i]) && date_le(
            r@[i],
            to,
        ),
        persisted_max matches Some(p) ==> forall|i: int|
            0 <= i < r@.len() ==> date_lt(p, #[trigger] r@[i]),
{
    let ghost eff = effective_start(from, persisted_max);
    let start = match persisted_max {
        None => from,
        Some(p) => {
            if p.lt(from) {
                from
            } else {
                // Everything up to `p` is covered; `p` caps at the largest
                // representable date, past which nothing can be planned.
                if p.year == 9999 && p.month == 12 && p.day == 31 {
                    proof {
                        crate::dates::lemma_valid_le_max(to);
                    }
                    return Vec::new();
                }
                p.succ()
            }
        },
    };
    assert(start == eff);
    assert(start.valid());
    if to.lt(start) {
        return Vec::new();
    }
    let mut out: Vec<Date> = Vec::new();
    let mut d = start;
    loop
        invariant_except_break
            to.valid(),
            d.valid(),
            date_le(d, to),
            date_le(eff, d),
            out@.len() > 0 ==> out@[0] == eff,
            out@.len() == 0 ==> d == eff,
            out@.len() > 0 ==> d == succ_spec(out@[out@.len() - 1]),
            forall|i: int| 0 <= i < out@.len() ==> (#[trigger] out@[i]).valid(),
            forall|i: int| 0 <= i < out@.len() - 1 ==> out@[i + 1] == succ_spec(
                #[trigger] out@[i],
            ),
            forall|i: int| 0 <= i < out@.len() ==> date_lt(#[trigger] out@[i], d),
            forall|i: int| 0 <= i < out@.len() ==> date_le(eff, #[trigger] out@[i]),
        ensures
            out@.len() > 0,
            out@[0] == eff,
            out@[out@.len() - 1] == to,
            forall|i: int| 0 <= i < out@.len() ==> (#[trigger] out@[i]).valid(),
            forall|i: int| 0 <= i < out@.len() - 1 ==> out@[i + 1] == succ_spec(
                #[trigger] out@[i],
            ),
            forall|i: int| 0 <= i < out@.len() ==> date_le(eff, #[trigger] out@[i])
                && date_le(out@[i], to),
        decreases (9999 - d.year) * 372 + (12 - d.month) * 31 + 31 - d.day,
    {
        out.push(d);
        if d.year == to.year && d.month == to.month && d.day == to.day {
            assert(d == to);
            break ;
        }
        assert(date_lt(d, to));
        proof {
            crate::dates::lemma_valid_le_max(to);
        }
        assert(!d.is_max());
        d = d.succ();
    }
    proof {
        lemma_plan_bounds(out@, eff, from, persisted_max);
    }
    out
}

/// The produced dates all lie at or after the effective start, hence at or
/// after the request and strictly after the persisted maximum.
proof fn lemma_plan_bounds(s: Seq<Date>, eff: Date, from: Date, persisted_max: Option<Date>)
    requires
        eff == effective_start(from, persisted_max),
        persisted_max matches Some(p) ==> p.valid(),
        forall|i: int| 0 <= i < s.len() ==> date_le(eff, #[trigger] s[i]),
    ensures
        forall|i: int| 0 <= i < s.len() ==> date_le(from, #[trigger] s[i]),
        persisted_max matches Some(p) ==> forall|i: int|
            0 <= i < s.len() ==> date_lt(p, #[trigger] s[i]),
{
    assert forall|i: int| 0 <= i < s.len() implies date_le(from, #[trigger] s[i]) by {
        assert(date_le(from, eff));
    }
    match persisted_max {
        Some(p) => {
            assert forall|i: int| 0 <= i < s.len() implies date_lt(p, #[trigger] s[i]) by {
                assert(date_lt(p, succ_spec(p)));
                assert(date_le(eff, s[i]));
            }
        },
        None => {},
    }
}

} // verus!
