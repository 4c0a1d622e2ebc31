//! Aggregation: incident records are folded into per-location counters.
//! Records are grouped by their (already normalized) location, in first
//! encounter order; each record bumps the location's fire-alarm counter,
//! entrapment counter, both, or neither, as the classifiers decide.

use vstd::prelude::*;
use crate::extract::Event;
use crate::classify::{contains_ci, alarm_label, entrapment_label, is_fire_alarm, is_entrapment};

verus! {

/// Accumulated counters for one normalized location.
#[derive(Debug)]
pub struct LocationStats {
    pub location: String,
    pub fire_alarms: u32,
    pub entrapments: u32,
}

impl View for LocationStats {
    type V = (Seq<char>, int, int);

    open spec fn view(&self) -> Self::V {
        (self.location@, self.fire_alarms as int, self.entrapments as int)
    }
}

/// The index of the first accumulated entry for `loc`, or -1.
pub open spec fn find_loc(s: Seq<(Seq<char>, int, int)>, loc: Seq<char>) -> int
    decreases s.len(),
{
    if s.len() == 0 {
        -1
    } else if s[0].0 == loc {
        0
    } else {
        let r = find_loc(s.skip(1), loc);
        if r < 0 {
            -1
        } else {
            r + 1
        }
    }
}

pub proof fn lemma_find_loc(s: Seq<(Seq<char>, int, int)>, loc: Seq<char>)
    ensures
        find_loc(s, loc) < 0 ==> forall|j: int| 0 <= j < s.len() ==> (#[trigger] s[j]).0 != loc,
        find_loc(s, loc) >= 0 ==> 0 <= find_loc(s, loc) < s.len() && s[find_loc(s, loc)].0 == loc
            && forall|j: int| 0 <= j < find_loc(s, loc) ==> (#[trigger] s[j]).0 != loc,
    decreases s.len(),
{
    if s.len() > 0 && s[0].0 != loc {
        let t = s.skip(1);
        lemma_find_loc(t, loc);
        let r = find_loc(t, loc);
        if r < 0 {
            assert forall|j: int| 0 <= j < s.len() implies (#[trigger] s[j]).0 != loc by {
                if j > 0 {
                    assert(t[j - 1] == s[j]);
                    assert(t[j - 1].0 != loc);
                }
            }
        } else {
            assert(t[r] == s[r + 1]);
            assert forall|j: int| 0 <= j < r + 1 implies (#[trigger] s[j]).0 != loc by {
                if j > 0 {
                    assert(t[j - 1] == s[j]);
                    assert(t[j - 1].0 != loc);
                }
            }
        }
    }
}

/// One record folded into the accumulator.
pub open spec fn agg_step(
    acc: Seq<(Seq<char>, int, int)>,
    rec: (Seq<char>, Seq<char>, Seq<char>),
) -> Seq<(Seq<char>, int, int)> {
    let fire: int = if contains_ci(rec.0, alarm_label()) {
        1
    } else {
        0
    };
    let ent: int = if contains_ci(rec.0, entrapment_label()) {
        1
    } else {
        0
    };
    let i = find_loc(acc, rec.1);
    if i < 0 {
        acc.push((rec.1, fire, ent))
    } else {
        acc.update(i, (acc[i].0, acc[i].1 + fire, acc[i].2 + ent))
    }
}

/// All records folded left to right into per-location counters, locations
/// ordered by first encounter.
pub open spec fn aggregate_spec(recs: Seq<(Seq<char>, Seq<char>, Seq<char>)>) -> Seq<
    (Seq<char>, int, int),
>
    decreases recs.len(),
{
    if recs.len() == 0 {
        Seq::empty()
    } else {
        agg_step(aggregate_spec(recs.drop_last()), recs.last())
    }
}

/// Every counter is bounded by the number of records folded in.
pub proof fn lemma_aggregate_bounds(recs: Seq<(Seq<char>, Seq<char>, Seq<char>)>)
    ensures
        forall|j: int| 0 <= j < aggregate_spec(recs).len() ==> 0 <= (#[trigger] aggregate_spec(
            recs,
        )[j]).1 <= recs.len() && 0 <= aggregate_spec(recs)[j].2 <= recs.len(),
    decreases recs.len(),
{
    if recs.len() > 0 {
        lemma_aggregate_bounds(recs.drop_last());
        let prev = aggregate_spec(recs.drop_last());
        let i = find_loc(prev, recs.last().1);
        lemma_find_loc(prev, recs.last().1);
    }
}

/// Folding one record is independent per record and touches one location
/// only: the record's location gains one fire alarm exactly when the
/// fire-alarm matcher matches its incident type, and one entrapment exactly
/// when the entrapment matcher does — both, exactly one, or neither — and
/// every other location's counters are left as they were.
pub proof fn lemma_agg_step_counts(
    acc: Seq<(Seq<char>, int, int)>,
    rec: (Seq<char>, Seq<char>, Seq<char>),
)
    ensures
        ({
            let out = agg_step(acc, rec);
            let fire: int = if contains_ci(rec.0, alarm_label()) {
                1
            } else {
                0
            };
            let ent: int = if contains_ci(rec.0, entrapment_label()) {
                1
            } else {
                0
            };
            let i = find_loc(acc, rec.1);
            if i < 0 {
                &&& out.len() == acc.len() + 1
                &&& out.last() == (rec.1, fire, ent)
                &&& forall|j: int| 0 <= j < acc.len() ==> out[j] == acc[j]
            } else {
                &&& out.len() == acc.len()
                &&& out[i] == (acc[i].0, acc[i].1 + fire, acc[i].2 + ent)
                &&& forall|j: int| 0 <= j < acc.len() && j != i ==> out[j] == acc[j]
            }
        }),
{
    lemma_find_loc(acc, rec.1);
}

/// The fold is keyed: no two accumulated entries share a location.
pub proof fn lemma_aggregate_locations_unique(recs: Seq<(Seq<char>, Seq<char>, Seq<char>)>)
    ensures
        forall|i: int, j: int| 0 <= i < j < aggregate_spec(recs).len()
            ==> (#[trigger] aggregate_spec(recs)[i]).0 != (#[trigger] aggregate_spec(
            recs,
        )[j]).0,
    decreases recs.len(),
{
    if recs.len() > 0 {
        lemma_aggregate_locations_unique(recs.drop_last());
        let prev = aggregate_spec(recs.drop_last());
        let cur = aggregate_spec(recs);
        let loc = recs.last().1;
        lemma_find_loc(prev, loc);
        let f = find_loc(prev, loc);
        if f < 0 {
            assert forall|i: int, j: int| 0 <= i < j < cur.len() implies (#[trigger] cur[i]).0
                != (#[trigger] cur[j]).0 by {
                if j < prev.len() {
                    assert(cur[i] == prev[i]);
                    assert(cur[j] == prev[j]);
                } else {
                    assert(cur[i] == prev[i]);
                    assert(cur[j].0 == loc);
                    assert(prev[i].0 != loc);
                }
            }
        } else {
            assert forall|i: int, j: int| 0 <= i < j < cur.len() implies (#[trigger] cur[i]).0
                != (#[trigger] cur[j]).0 by {
                assert(cur[i].0 == prev[i].0);
                assert(cur[j].0 == prev[j].0);
            }
        }
    }
}

/// Folds the extracted records into per-location counters.
pub fn aggregate(records: &Vec<Event>) -> (r: Vec<LocationStats>)
    requires
        records@.len() <= u32::MAX,
    ensures
        r@.map_values(|s: LocationStats| s@) == aggregate_spec(
            records@.map_values(|e: Event| e@),
        ),
{
    let ghost rv = records@.map_values(|e: Event| e@);
    let mut acc: Vec<LocationStats> = Vec::new();
    let mut idx: usize = 0;
    while idx < records.len()
        invariant
            idx <= records@.len() <= u32::MAX,
            rv == records@.map_values(|e: Event| e@),
            acc@.map_values(|s: LocationStats| s@) == aggregate_spec(rv.take(idx as int)),
        decreases records@.len() - idx,
    {
        let ev = &records[idx];
        let fire = is_fire_alarm(ev.incident_type.as_str());
        let ent = is_entrapment(ev.incident_type.as_str());
        let ghost accv = acc@.map_values(|s: LocationStats| s@);
        proof {
            lemma_find_loc(accv, ev.location@);
            lemma_aggregate_bounds(rv.take(idx as int));
            assert(rv.take(idx as int + 1).drop_last() =~= rv.take(idx as int));
            assert(rv.take(idx as int + 1).last() == rv[idx as int]);
            assert(rv[idx as int] == ev@);
        }
        let mut j: usize = 0;
        while j < acc.len() && !(acc[j].location == ev.location)
            invariant
                j <= acc@.len(),
                forall|q: int| 0 <= q < j ==> (#[trigger] acc@[q]).location@ != ev.location@,
            decreases acc@.len() - j,
        {
            j += 1;
        }
        if j == acc.len() {
            assert(find_loc(accv, ev.location@) < 0) by {
                if find_loc(accv, ev.location@) >= 0 {
                    let f = find_loc(accv, ev.location@);
                    assert(accv[f] == acc@[f]@);
                }
            }
            let fire_c: u32 = if fire {
                1
            } else {
                0
            };
            let ent_c: u32 = if ent {
                1
            } else {
                0
            };
            acc.push(
                LocationStats {
                    location: ev.location.clone(),
                    fire_alarms: fire_c,
                    entrapments: ent_c,
                },
            );
            proof {
                assert(acc@.map_values(|s: LocationStats| s@) =~= accv.push(
                    (ev.location@, fire_c as int, ent_c as int),
                ));
                assert(acc@.map_values(|s: LocationStats| s@) =~= aggregate_spec(
                    rv.take(idx as int + 1),
                ));
            }
        } else {
            assert(acc@[j as int]@ == accv[j as int]);
            assert(find_loc(accv, ev.location@) == j) by {
                let f = find_loc(accv, ev.location@);
                if f < 0 {
                    assert(accv[j as int].0 == acc@[j as int].location@);
                } else {
                    assert(accv[f] == acc@[f]@);
                    if f < j {
                        assert(acc@[f].location@ != ev.location@);
                    }
                    if j < f {
                        assert(accv[j as int].0 != ev.location@);
                        assert(accv[j as int].0 == acc@[j as int].location@);
                    }
                }
            }
            let fire_c: u32 = if fire {
                1
            } else {
                0
            };
            let ent_c: u32 = if ent {
                1
            } else {
                0
            };
            assert(0 <= accv[j as int].1 <= idx && 0 <= accv[j as int].2 <= idx);
            let cur_fire = acc[j].fire_alarms;
            let cur_ent = acc[j].entrapments;
            let new_loc = acc[j].location.clone();
            acc.set(
                j,
                LocationStats {
                    location: new_loc,
                    fire_alarms: cur_fire + fire_c,
                    entrapments: cur_ent + ent_c,
                },
            );
            proof {
                assert(acc@.map_values(|s: LocationStats| s@) =~= accv.update(
                    j as int,
                    (accv[j as int].0, accv[j as int].1 + fire_c as int, accv[j as int].2
                        + ent_c as int),
                ));
                assert(acc@.map_values(|s: LocationStats| s@) =~= aggregate_spec(
                    rv.take(idx as int + 1),
                ));
            }
        }
        idx += 1;
    }
    proof {
        assert(rv.take(records@.len() as int) =~= rv);
    }
    acc
}

} // verus!
