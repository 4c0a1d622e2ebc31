//! Retrieval support: the date-derived feed address, the permit-based
//! limiter that bounds how many retrievals run at once, and the folding of
//! per-date outcomes into fetched documents and recorded failures.

use vstd::prelude::*;
use crate::dates::Date;
use crate::document::Document;

verus! {

/// The decimal digit character for `d`.
pub open spec fn digit(d: int) -> char {
    if d == 0 {
        '0'
    } else if d == 1 {
        '1'
    } else if d == 2 {
        '2'
    } else if d == 3 {
        '3'
    } else if d == 4 {
        '4'
    } else if d == 5 {
        '5'
    } else if d == 6 {
        '6'
    } else if d == 7 {
        '7'
    } else if d == 8 {
        '8'
    } else {
        '9'
    }
}

/// `n` as four decimal digits, zero padded.
pub open spec fn pad4(n: int) -> Seq<char> {
    seq![digit(n / 1000 % 10), digit(n / 100 % 10), digit(n / 10 % 10), digit(n % 10)]
}

/// `n` as two decimal digits, zero padded.
pub open spec fn pad2(n: int) -> Seq<char> {
    seq![digit(n / 10 % 10), digit(n % 10)]
}

/// The remote feed address for one date's incident-report document.
pub open spec fn feed_url_spec(d: Date) -> Seq<char> {
    "https://blogs.iit.edu/public_safety/"@ + pad4(d.year as int) + "/"@ + pad2(d.month as int)
        + "/"@ + pad2(d.day as int) + "/feed/"@
}

fn push_digit(s: &mut String, d: u32)
    requires
        d < 10,
    ensures
        final(s)@ == old(s)@ + seq![digit(d as int)],
{
    let digits = "0123456789";
    proof {
        reveal_strlit("0123456789");
    }
    let c = digits.substring_char(d as usize, d as usize + 1);
    assert(c@ =~= seq![digit(d as int)]);
    s.append(c);
}

/// Builds the feed address for `d`: year, month and day as zero-padded
/// decimal components of the fixed path.
pub fn feed_url(d: &Date) -> (r: String)
    requires
        d.valid(),
    ensures
        r@ == feed_url_spec(*d),
{
    let mut s = String::from_str("https://blogs.iit.edu/public_safety/");
    push_digit(&mut s, (d.year / 1000) % 10);
    push_digit(&mut s, (d.year / 100) % 10);
    push_digit(&mut s, (d.year / 10) % 10);
    push_digit(&mut s, d.year % 10);
    s.append("/");
    push_digit(&mut s, (d.month / 10) % 10);
    push_digit(&mut s, d.month % 10);
    s.append("/");
    push_digit(&mut s, (d.day / 10) % 10);
    push_digit(&mut s, d.day % 10);
    s.append("/feed/");
    proof {
        assert(s@ =~= feed_url_spec(*d));
    }
    s
}

/// The permit pool bounding concurrent retrievals: a retrieval may start
/// only while fewer than `limit` are in flight, and each started retrieval
/// is finished exactly once, success or failure alike.
pub struct FetchScheduler {
    pub limit: usize,
    pub total: usize,
    pub started: usize,
    pub completed: usize,
}

impl FetchScheduler {
    pub open spec fn wf(self) -> bool {
        &&& 1 <= self.limit
        &&& self.completed <= self.started <= self.total
        &&& self.started - self.completed <= self.limit
    }

    /// How many retrievals hold a permit right now.
    pub open spec fn in_flight(self) -> int {
        self.started - self.completed
    }

    pub fn new(limit: usize, total: usize) -> (r: FetchScheduler)
        requires
            limit >= 1,
        ensures
            r.wf(),
            r.limit == limit,
            r.total == total,
            r.started == 0,
            r.completed == 0,
    {
        FetchScheduler { limit, total, started: 0, completed: 0 }
    }

    /// A permit is free and work remains.
    pub fn can_start(&self) -> (r: bool)
        requires
            self.wf(),
        ensures
            r == (self.started < self.total && self.in_flight() < self.limit),
    {
        self.started < self.total && self.started - self.completed < self.limit
    }

    /// Takes a permit for the next retrieval.
    pub fn start(&mut self)
        requires
            old(self).wf(),
            old(self).started < old(self).total,
            old(self).in_flight() < old(self).limit,
        ensures
            final(self).wf(),
            final(self).started == old(self).started + 1,
            final(self).completed == old(self).completed,
            final(self).limit == old(self).limit,
            final(self).total == old(self).total,
            final(self).in_flight() <= final(self).limit,
    {
        self.started = self.started + 1;
    }

    /// Releases a permit once a retrieval's result is recorded.
    pub fn finish(&mut self)
        requires
            old(self).wf(),
            old(self).completed < old(self).started,
        ensures
            final(self).wf(),
            final(self).completed == old(self).completed + 1,
            final(self).started == old(self).started,
            final(self).limit == old(self).limit,
            final(self).total == old(self).total,
    {
        self.completed = self.completed + 1;
    }

    /// Every planned retrieval has been recorded.
    pub fn all_done(&self) -> (r: bool)
        requires
            self.wf(),
        ensures
            r == (self.completed == self.total),
    {
        self.completed == self.total
    }
}

/// The recorded result of one date's retrieval: the documents its feed
/// yielded, or `None` for a retrieval failure.
#[derive(Debug)]
pub struct DateOutcome {
    pub date: Date,
    pub docs: Option<Vec<Document>>,
}

/// The documents of the successful outcomes, in outcome order.
pub open spec fn ok_docs(s: Seq<DateOutcome>) -> Seq<(Date, Seq<char>)>
    decreases s.len(),
{
    if s.len() == 0 {
        Seq::empty()
    } else {
        ok_docs(s.drop_last()) + (match s.last().docs {
            Some(v) => v@.map_values(|d: Document| d@),
            None => Seq::empty(),
        })
    }
}

/// The dates whose retrieval failed, in outcome order.
pub open spec fn failed_dates(s: Seq<DateOutcome>) -> Seq<Date>
    decreases s.len(),
{
    if s.len() == 0 {
        Seq::empty()
    } else {
        failed_dates(s.drop_last()) + (if s.last().docs is None {
            seq![s.last().date]
        } else {
            Seq::empty()
        })
    }
}

/// Splits the per-date outcomes into the fetched documents and the failed
/// dates. A failure for one date is recorded and set aside; every sibling
/// date's documents are kept in full.
pub fn collect_outcomes(outcomes: &Vec<DateOutcome>) -> (r: (Vec<Document>, Vec<Date>))
    ensures
        r.0@.map_values(|d: Document| d@) == ok_docs(outcomes@),
        r.1@ == failed_dates(outcomes@),
{
    let mut docs: Vec<Document> = Vec::new();
    let mut fails: Vec<Date> = Vec::new();
    let mut i: usize = 0;
    while i < outcomes.len()
        invariant
            i <= outcomes@.len(),
            docs@.map_values(|d: Document| d@) == ok_docs(outcomes@.take(i as int)),
            fails@ == failed_dates(outcomes@.take(i as int)),
        decreases outcomes@.len() - i,
    {
        proof {
            assert(outcomes@.take(i as int + 1).drop_last() =~= outcomes@.take(i as int));
            assert(outcomes@.take(i as int + 1).last() == outcomes@[i as int]);
        }
        match &outcomes[i].docs {
            Some(v) => {
                let ghost base = docs@.map_values(|d: Document| d@);
                let mut j: usize = 0;
                while j < v.len()
                    invariant
                        j <= v@.len(),
                        docs@.map_values(|d: Document| d@) == base + v@.map_values(
                            |d: Document| d@,
                        ).take(j as int),
                    decreases v@.len() - j,
                {
                    let item = &v[j];
                    let ghost prev = docs@.map_values(|d: Document| d@);
                    let ghost vmap = v@.map_values(|d: Document| d@);
                    docs.push(Document { date: item.date, body: item.body.clone() });
                    proof {
                        assert(item@ == vmap[j as int]);
                        assert(docs@.map_values(|d: Document| d@) =~= prev.push(item@));
                        assert(vmap.take(j as int + 1) =~= vmap.take(j as int).push(
                            vmap[j as int],
                        ));
                        assert(docs@.map_values(|d: Document| d@) =~= base + vmap.take(
                            j as int + 1,
                        ));
                    }
                    j += 1;
                }
                proof {
                    assert(v@.map_values(|d: Document| d@).take(v@.len() as int)
                        =~= v@.map_values(|d: Document| d@));
                    assert(fails@ =~= failed_dates(outcomes@.take(i as int + 1)));
                }
            },
            None => {
                fails.push(outcomes[i].date);
                proof {
                    assert(fails@ =~= failed_dates(outcomes@.take(i as int + 1)));
                    assert(docs@.map_values(|d: Document| d@) =~= ok_docs(
                        outcomes@.take(i as int + 1),
                    ));
                }
            },
        }
        i += 1;
    }
    proof {
        assert(outcomes@.take(outcomes@.len() as int) =~= outcomes@);
    }
    (docs, fails)
}

} // verus!
