//! Ranking: per-location counters become leaderboard entries sorted
//! descending by total incident count. The sort is stable, so entries with
//! equal totals keep their first-encounter order. Top-K selection clamps K
//! to the number of entries, and the report rows flag the entries holding
//! each counter's maximum.

use vstd::prelude::*;
use crate::aggregate::LocationStats;

verus! {

/// One ranked output record: a location's accumulated counters.
#[derive(Debug)]
pub struct LeaderboardEntry {
    pub location: String,
    pub fire_alarms: u32,
    pub entrapments: u32,
}

impl View for LeaderboardEntry {
    type V = (Seq<char>, int, int);

    open spec fn view(&self) -> Self::V {
        (self.location@, self.fire_alarms as int, self.entrapments as int)
    }
}

/// A location's total incident count: fire alarms plus entrapments.
pub open spec fn total_of(e: (Seq<char>, int, int)) -> int {
    e.1 + e.2
}

pub open spec fn sorted_by_total_desc(s: Seq<(Seq<char>, int, int)>) -> bool {
    forall|i: int, j: int| 0 <= i < j < s.len() ==> total_of(#[trigger] s[i]) >= total_of(
        #[trigger] s[j],
    )
}

/// Stable descending insertion: `x` lands after every element whose total is
/// at least its own.
pub open spec fn insert_by_total(s: Seq<(Seq<char>, int, int)>, x: (Seq<char>, int, int)) -> Seq<
    (Seq<char>, int, int),
>
    decreases s.len(),
{
    if s.len() == 0 {
        seq![x]
    } else if total_of(s.last()) >= total_of(x) {
        s.push(x)
    } else {
        insert_by_total(s.drop_last(), x).push(s.last())
    }
}

/// Stable insertion sort descending by total.
pub open spec fn sort_by_total(s: Seq<(Seq<char>, int, int)>) -> Seq<(Seq<char>, int, int)>
    decreases s.len(),
{
    if s.len() == 0 {
        Seq::empty()
    } else {
        insert_by_total(sort_by_total(s.drop_last()), s.last())
    }
}

proof fn lemma_insert_at(s: Seq<(Seq<char>, int, int)>, x: (Seq<char>, int, int), pos: int)
    requires
        sorted_by_total_desc(s),
        0 <= pos <= s.len(),
        forall|q: int| pos <= q < s.len() ==> total_of(#[trigger] s[q]) < total_of(x),
        pos > 0 ==> total_of(s[pos - 1]) >= total_of(x),
    ensures
        insert_by_total(s, x) =~= s.insert(pos, x),
    decreases s.len(),
{
    if s.len() == 0 {
        assert(insert_by_total(s, x) =~= s.insert(0, x));
    } else if total_of(s.last()) >= total_of(x) {
        assert(pos == s.len());
        assert(s.push(x) =~= s.insert(pos, x));
    } else {
        assert(pos < s.len());
        let t = s.drop_last();
        assert(forall|q: int| 0 <= q < t.len() ==> #[trigger] t[q] == s[q]);
        lemma_insert_at(t, x, pos);
        assert(insert_by_total(s, x) =~= t.insert(pos, x).push(s.last()));
        assert(t.insert(pos, x).push(s.last()) =~= s.insert(pos, x));
    }
}

proof fn lemma_insert_by_total_multiset(s: Seq<(Seq<char>, int, int)>, x: (Seq<char>, int, int))
    ensures
        insert_by_total(s, x).to_multiset() == s.to_multiset().insert(x),
    decreases s.len(),
{
    broadcast use vstd::seq_lib::group_to_multiset_ensures;

    if s.len() == 0 {
        assert(seq![x] =~= Seq::<(Seq<char>, int, int)>::empty().push(x));
        assert(s =~= Seq::<(Seq<char>, int, int)>::empty());
    } else if total_of(s.last()) >= total_of(x) {
    } else {
        let t = s.drop_last();
        lemma_insert_by_total_multiset(t, x);
        assert(s =~= t.push(s.last()));
        assert(insert_by_total(s, x).to_multiset() =~= t.to_multiset().insert(x).insert(
            s.last(),
        ));
        assert(t.to_multiset().insert(x).insert(s.last()) =~= t.to_multiset().insert(
            s.last(),
        ).insert(x));
    }
}

/// Ranking only reorders: the leaderboard holds exactly one entry per
/// accumulated location, no location lost or invented.
pub proof fn lemma_sort_by_total_permutes(s: Seq<(Seq<char>, int, int)>)
    ensures
        sort_by_total(s).to_multiset() == s.to_multiset(),
    decreases s.len(),
{
    if s.len() > 0 {
        lemma_sort_by_total_permutes(s.drop_last());
        lemma_insert_by_total_multiset(sort_by_total(s.drop_last()), s.last());
        broadcast use vstd::seq_lib::group_to_multiset_ensures;

        assert(s =~= s.drop_last().push(s.last()));
        assert(s.to_multiset() =~= s.drop_last().to_multiset().insert(s.last()));
    } else {
        assert(s =~= Seq::<(Seq<char>, int, int)>::empty());
    }
}

/// A location's total, computed without overflow.
pub fn total(e: &LeaderboardEntry) -> (r: u64)
    ensures
        r == total_of(e@),
{
    e.fire_alarms as u64 + e.entrapments as u64
}

fn clone_entry(e: &LeaderboardEntry) -> (r: LeaderboardEntry)
    ensures
        r@ == e@,
{
    LeaderboardEntry {
        location: e.location.clone(),
        fire_alarms: e.fire_alarms,
        entrapments: e.entrapments,
    }
}

/// Ranks the per-location counters into a leaderboard sorted descending by
/// total; entries with equal totals keep their first-encounter order.
pub fn rank(stats: &Vec<LocationStats>) -> (r: Vec<LeaderboardEntry>)
    ensures
        r@.map_values(|e: LeaderboardEntry| e@) == sort_by_total(
            stats@.map_values(|s: LocationStats| s@),
        ),
        sorted_by_total_desc(r@.map_values(|e: LeaderboardEntry| e@)),
{
    let ghost sv = stats@.map_values(|s: LocationStats| s@);
    let mut out: Vec<LeaderboardEntry> = Vec::new();
    let mut i: usize = 0;
    while i < stats.len()
        invariant
            i <= stats@.len(),
            sv == stats@.map_values(|s: LocationStats| s@),
            out@.map_values(|e: LeaderboardEntry| e@) == sort_by_total(sv.take(i as int)),
            sorted_by_total_desc(out@.map_values(|e: LeaderboardEntry| e@)),
        decreases stats@.len() - i,
    {
        let st = &stats[i];
        let e = LeaderboardEntry {
            location: st.location.clone(),
            fire_alarms: st.fire_alarms,
            entrapments: st.entrapments,
        };
        let ghost outv = out@.map_values(|ee: LeaderboardEntry| ee@);
        let ghost ev = e@;
        let et = total(&e);
        let mut pos: usize = out.len();
        while pos > 0 && total(&out[pos - 1]) < et
            invariant
                pos <= out@.len(),
                outv == out@.map_values(|ee: LeaderboardEntry| ee@),
                ev == e@,
                et == total_of(ev),
                forall|q: int| pos <= q < outv.len() ==> total_of(#[trigger] outv[q]) < total_of(
                    ev,
                ),
            decreases pos,
        {
            assert(outv[pos - 1] == out@[pos - 1]@);
            pos -= 1;
        }
        proof {
            if pos > 0 {
                assert(outv[pos - 1] == out@[pos - 1]@);
                assert(total_of(outv[pos - 1]) >= total_of(ev));
            }
            lemma_insert_at(outv, ev, pos as int);
            outv.insert_ensures(pos as int, ev);
        }
        out.insert(pos, e);
        proof {
            assert(out@.map_values(|ee: LeaderboardEntry| ee@) =~= outv.insert(pos as int, ev));
            assert(sv.take(i as int + 1).drop_last() =~= sv.take(i as int));
            assert(sv.take(i as int + 1).last() == sv[i as int]);
            assert(sv[i as int] == stats@[i as int]@);
            assert(out@.map_values(|ee: LeaderboardEntry| ee@) =~= sort_by_total(
                sv.take(i as int + 1),
            ));
            let newv = outv.insert(pos as int, ev);
            assert forall|a: int, b: int| 0 <= a < b < newv.len() implies total_of(
                #[trigger] newv[a],
            ) >= total_of(#[trigger] newv[b]) by {
                if b < pos {
                } else if a < pos && b == pos {
                    assert(newv[a] == outv[a]);
                    if pos > 0 {
                        assert(total_of(outv[a]) >= total_of(outv[pos - 1]));
                    }
                } else if a < pos {
                    assert(newv[a] == outv[a]);
                    assert(newv[b] == outv[b - 1]);
                    if pos > 0 {
                        assert(total_of(outv[a]) >= total_of(outv[pos - 1]));
                    }
                    assert(total_of(outv[b - 1]) < total_of(ev));
                } else if a == pos {
                    assert(newv[b] == outv[b - 1]);
                    assert(total_of(outv[b - 1]) < total_of(ev));
                } else {
                    assert(newv[a] == outv[a - 1]);
                    assert(newv[b] == outv[b - 1]);
                }
            }
        }
        i += 1;
    }
    proof {
        assert(sv.take(stats@.len() as int) =~= sv);
    }
    out
}

/// The first `k` leaderboard entries, or all of them when fewer than `k`
/// exist; selection never fails on a short leaderboard.
pub fn top_k(entries: &Vec<LeaderboardEntry>, k: usize) -> (r: Vec<LeaderboardEntry>)
    ensures
        r@.len() == if k <= entries@.len() {
            k as int
        } else {
            entries@.len() as int
        },
        forall|i: int| 0 <= i < r@.len() ==> (#[trigger] r@[i])@ == entries@[i]@,
{
    let mut out: Vec<LeaderboardEntry> = Vec::new();
    let mut i: usize = 0;
    while i < k && i < entries.len()
        invariant
            i <= k,
            i <= entries@.len(),
            out@.len() == i,
            forall|j: int| 0 <= j < i ==> (#[trigger] out@[j])@ == entries@[j]@,
        decreases entries@.len() - i,
    {
        out.push(clone_entry(&entries[i]));
        i += 1;
    }
    out
}

/// One row of the rendered report: a leaderboard entry plus flags marking
/// whether it holds the report-wide maximum of either counter.
#[derive(Debug)]
pub struct ReportRow {
    pub max_fire: bool,
    pub max_entrapment: bool,
    pub location: String,
    pub fire_alarms: u32,
    pub entrapments: u32,
}

/// The largest fire-alarm count among the entries, 0 when there are none.
pub open spec fn max_fire_spec(s: Seq<(Seq<char>, int, int)>) -> int
    decreases s.len(),
{
    if s.len() == 0 {
        0
    } else {
        let m = max_fire_spec(s.drop_last());
        if s.last().1 > m {
            s.last().1
        } else {
            m
        }
    }
}

/// The largest entrapment count among the entries, 0 when there are none.
pub open spec fn max_entrapment_spec(s: Seq<(Seq<char>, int, int)>) -> int
    decreases s.len(),
{
    if s.len() == 0 {
        0
    } else {
        let m = max_entrapment_spec(s.drop_last());
        if s.last().2 > m {
            s.last().2
        } else {
            m
        }
    }
}

/// Turns leaderboard entries into report rows, flagging each entry that
/// holds the maximum fire-alarm or entrapment count.
pub fn report_rows(entries: &Vec<LeaderboardEntry>) -> (r: Vec<ReportRow>)
    ensures
        r@.len() == entries@.len(),
        forall|i: int| 0 <= i < r@.len() ==> {
            let ev = (#[trigger] entries@[i])@;
            let row = r@[i];
            row.location@ == ev.0 && row.fire_alarms as int == ev.1 && row.entrapments as int
                == ev.2 && row.max_fire == (ev.1 == max_fire_spec(
                entries@.map_values(|e: LeaderboardEntry| e@),
            )) && row.max_entrapment == (ev.2 == max_entrapment_spec(
                entries@.map_values(|e: LeaderboardEntry| e@),
            ))
        },
{
    let ghost evs = entries@.map_values(|e: LeaderboardEntry| e@);
    let mut max_fire: u32 = 0;
    let mut max_ent: u32 = 0;
    let mut i: usize = 0;
    while i < entries.len()
        invariant
            i <= entries@.len(),
            evs == entries@.map_values(|e: LeaderboardEntry| e@),
            max_fire as int == max_fire_spec(evs.take(i as int)),
            max_ent as int == max_entrapment_spec(evs.take(i as int)),
        decreases entries@.len() - i,
    {
        proof {
            assert(evs.take(i as int + 1).drop_last() =~= evs.take(i as int));
            assert(evs.take(i as int + 1).last() == evs[i as int]);
            assert(evs[i as int] == entries@[i as int]@);
        }
        if entries[i].fire_alarms > max_fire {
            max_fire = entries[i].fire_alarms;
        }
        if entries[i].entrapments > max_ent {
            max_ent = entries[i].entrapments;
        }
        i += 1;
    }
    proof {
        assert(evs.take(entries@.len() as int) =~= evs);
    }
    let mut out: Vec<ReportRow> = Vec::new();
    let mut i: usize = 0;
    while i < entries.len()
        invariant
            i <= entries@.len(),
            evs == entries@.map_values(|e: LeaderboardEntry| e@),
            max_fire as int == max_fire_spec(evs),
            max_ent as int == max_entrapment_spec(evs),
            out@.len() == i,
            forall|j: int| 0 <= j < i ==> {
                let ev = (#[trigger] entries@[j])@;
                let row = out@[j];
                row.location@ == ev.0 && row.fire_alarms as int == ev.1 && row.entrapments as int
                    == ev.2 && row.max_fire == (ev.1 == max_fire_spec(evs)) && row.max_entrapment
                    == (ev.2 == max_entrapment_spec(evs))
            },
        decreases entries@.len() - i,
    {
        let e = &entries[i];
        out.push(
            ReportRow {
                max_fire: e.fire_alarms == max_fire,
                max_entrapment: e.entrapments == max_ent,
                location: e.location.clone(),
                fire_alarms: e.fire_alarms,
                entrapments: e.entrapments,
            },
        );
        i += 1;
    }
    out
}

} // verus!
