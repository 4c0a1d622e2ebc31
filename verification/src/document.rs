//! Documents and the merged, chronologically ordered collection. Merging
//! concatenates the persisted collection with newly fetched documents and
//! sorts the result ascending by publish date; the sort is stable, so
//! documents of equal date keep their concatenation order.

use vstd::prelude::*;
use crate::dates::{Date, date_le, date_lt};

verus! {

/// One retrieved dated unit: a publish date and a raw markup body.
#[derive(Debug)]
pub struct Document {
    pub date: Date,
    pub body: String,
}

impl View for Document {
    type V = (Date, Seq<char>);

    open spec fn view(&self) -> Self::V {
        (self.date, self.body@)
    }
}

pub open spec fn sorted_by_date(s: Seq<(Date, Seq<char>)>) -> bool {
    forall|i: int, j: int| 0 <= i < j < s.len() ==> date_le(#[trigger] s[i].0, #[trigger] s[j].0)
}

/// Stable ascending insertion: `x` lands after every element whose date is
/// at or before its own.
pub open spec fn insert_by_date(s: Seq<(Date, Seq<char>)>, x: (Date, Seq<char>)) -> Seq<
    (Date, Seq<char>),
>
    decreases s.len(),
{
    if s.len() == 0 {
        seq![x]
    } else if date_le(s.last().0, x.0) {
        s.push(x)
    } else {
        insert_by_date(s.drop_last(), x).push(s.last())
    }
}

/// Stable insertion sort ascending by date.
pub open spec fn sort_by_date(s: Seq<(Date, Seq<char>)>) -> Seq<(Date, Seq<char>)>
    decreases s.len(),
{
    if s.len() == 0 {
        Seq::empty()
    } else {
        insert_by_date(sort_by_date(s.drop_last()), s.last())
    }
}

/// Inserting at the position the scan found is what `insert_by_date` means.
proof fn lemma_insert_at(s: Seq<(Date, Seq<char>)>, x: (Date, Seq<char>), pos: int)
    requires
        sorted_by_date(s),
        0 <= pos <= s.len(),
        forall|q: int| pos <= q < s.len() ==> date_lt(x.0, (#[trigger] s[q]).0),
        pos > 0 ==> date_le(s[pos - 1].0, x.0),
    ensures
        insert_by_date(s, x) =~= s.insert(pos, x),
    decreases s.len(),
{
    if s.len() == 0 {
        assert(insert_by_date(s, x) =~= s.insert(0, x));
    } else if date_le(s.last().0, x.0) {
        assert(pos == s.len());
        assert(s.push(x) =~= s.insert(pos, x));
    } else {
        assert(pos < s.len());
        let t = s.drop_last();
        assert(forall|q: int| 0 <= q < t.len() ==> #[trigger] t[q] == s[q]);
        lemma_insert_at(t, x, pos);
        assert(insert_by_date(s, x) =~= t.insert(pos, x).push(s.last()));
        assert(t.insert(pos, x).push(s.last()) =~= s.insert(pos, x));
    }
}

proof fn lemma_insert_by_date_multiset(s: Seq<(Date, Seq<char>)>, x: (Date, Seq<char>))
    ensures
        insert_by_date(s, x).to_multiset() == s.to_multiset().insert(x),
    decreases s.len(),
{
    broadcast use vstd::seq_lib::group_to_multiset_ensures;

    if s.len() == 0 {
        assert(seq![x] =~= Seq::<(Date, Seq<char>)>::empty().push(x));
        assert(s =~= Seq::<(Date, Seq<char>)>::empty());
    } else if date_le(s.last().0, x.0) {
    } else {
        let t = s.drop_last();
        lemma_insert_by_date_multiset(t, x);
        assert(s =~= t.push(s.last()));
        assert(insert_by_date(s, x).to_multiset() =~= t.to_multiset().insert(x).insert(
            s.last(),
        ));
        assert(t.to_multiset().insert(x).insert(s.last()) =~= t.to_multiset().insert(
            s.last(),
        ).insert(x));
    }
}

/// Sorting only reorders: the merged collection holds exactly the documents
/// of the persisted collection and the fresh batch, no more and no fewer.
pub proof fn lemma_sort_by_date_permutes(s: Seq<(Date, Seq<char>)>)
    ensures
        sort_by_date(s).to_multiset() == s.to_multiset(),
    decreases s.len(),
{
    if s.len() > 0 {
        lemma_sort_by_date_permutes(s.drop_last());
        lemma_insert_by_date_multiset(sort_by_date(s.drop_last()), s.last());
        broadcast use vstd::seq_lib::group_to_multiset_ensures;

        assert(s =~= s.drop_last().push(s.last()));
        assert(s.to_multiset() =~= s.drop_last().to_multiset().insert(s.last()));
    } else {
        assert(s =~= Seq::<(Date, Seq<char>)>::empty());
    }
}

/// Sorting a collection already in order leaves it exactly as it is: a
/// merge that brings nothing new changes nothing.
pub proof fn lemma_sort_by_date_of_sorted(s: Seq<(Date, Seq<char>)>)
    requires
        sorted_by_date(s),
    ensures
        sort_by_date(s) == s,
    decreases s.len(),
{
    if s.len() > 0 {
        let t = s.drop_last();
        assert(forall|q: int| 0 <= q < t.len() ==> #[trigger] t[q] == s[q]);
        lemma_sort_by_date_of_sorted(t);
        if t.len() > 0 {
            assert(date_le(t.last().0, s.last().0));
        }
        assert(insert_by_date(t, s.last()) =~= s);
    } else {
        assert(s =~= Seq::<(Date, Seq<char>)>::empty());
        assert(sort_by_date(s) =~= s);
    }
}

proof fn lemma_insert_into_suffix(
    a: Seq<(Date, Seq<char>)>,
    s: Seq<(Date, Seq<char>)>,
    x: (Date, Seq<char>),
)
    requires
        forall|i: int| 0 <= i < a.len() ==> date_lt((#[trigger] a[i]).0, x.0),
    ensures
        insert_by_date(a + s, x) == a + insert_by_date(s, x),
    decreases s.len(),
{
    if s.len() == 0 {
        assert(a + s =~= a);
        if a.len() == 0 {
            assert(a + s =~= Seq::<(Date, Seq<char>)>::empty());
            assert(a + insert_by_date(s, x) =~= seq![x]);
            assert(insert_by_date(a + s, x) =~= seq![x]);
        } else {
            assert((a + s).last() == a.last());
            assert(date_le((a + s).last().0, x.0));
            assert(insert_by_date(a + s, x) =~= a.push(x));
            assert(a + insert_by_date(s, x) =~= a.push(x));
        }
    } else {
        assert((a + s).last() == s.last());
        if date_le(s.last().0, x.0) {
            assert(insert_by_date(a + s, x) =~= (a + s).push(x));
            assert(a + s.push(x) =~= (a + s).push(x));
        } else {
            assert((a + s).drop_last() =~= a + s.drop_last());
            lemma_insert_into_suffix(a, s.drop_last(), x);
            assert(insert_by_date(a + s, x) =~= (a + insert_by_date(s.drop_last(), x)).push(
                s.last(),
            ));
            assert((a + insert_by_date(s.drop_last(), x)).push(s.last()) =~= a
                + insert_by_date(s.drop_last(), x).push(s.last()));
        }
    }
}

/// When every fresh document is dated strictly after every persisted one —
/// which plan-driven fetching guarantees — merging appends: the persisted
/// collection survives as an unchanged prefix, with the sorted fresh batch
/// after it.
pub proof fn lemma_merge_appends_new_dates(a: Seq<(Date, Seq<char>)>, b: Seq<(Date, Seq<char>)>)
    requires
        sorted_by_date(a),
        forall|i: int, j: int| 0 <= i < a.len() && 0 <= j < b.len() ==> date_lt(
            (#[trigger] a[i]).0,
            (#[trigger] b[j]).0,
        ),
    ensures
        sort_by_date(a + b) == a + sort_by_date(b),
    decreases b.len(),
{
    if b.len() == 0 {
        assert(a + b =~= a);
        lemma_sort_by_date_of_sorted(a);
        assert(b =~= Seq::<(Date, Seq<char>)>::empty());
        assert(sort_by_date(b) =~= Seq::<(Date, Seq<char>)>::empty());
        assert(a + sort_by_date(b) =~= a);
    } else {
        let t = b.drop_last();
        assert(forall|j: int| 0 <= j < t.len() ==> #[trigger] t[j] == b[j]);
        assert((a + b).drop_last() =~= a + t);
        assert((a + b).last() == b.last());
        lemma_merge_appends_new_dates(a, t);
        lemma_insert_into_suffix(a, sort_by_date(t), b.last());
        assert(sort_by_date(a + b) =~= a + insert_by_date(sort_by_date(t), b.last()));
        assert(a + insert_by_date(sort_by_date(t), b.last()) =~= a + sort_by_date(b));
    }
}

fn clone_document(d: &Document) -> (r: Document)
    ensures
        r@ == d@,
{
    Document { date: d.date, body: d.body.clone() }
}

/// The single long-lived artifact: documents ordered ascending by publish
/// date.
#[derive(Debug)]
pub struct DocumentCollection {
    pub docs: Vec<Document>,
}

impl DocumentCollection {
    /// The collection's invariant: ascending publish dates.
    pub open spec fn wf(self) -> bool {
        sorted_by_date(self.docs@.map_values(|d: Document| d@))
    }

    pub fn new() -> (r: DocumentCollection)
        ensures
            r.docs@.len() == 0,
            r.wf(),
    {
        DocumentCollection { docs: Vec::new() }
    }

    /// Concatenates the persisted collection with the newly fetched
    /// documents and sorts ascending by publish date, stably.
    pub fn merge(self, fresh: Vec<Document>) -> (r: DocumentCollection)
        ensures
            r.docs@.map_values(|d: Document| d@) == sort_by_date(
                self.docs@.map_values(|d: Document| d@) + fresh@.map_values(|d: Document| d@),
            ),
            r.wf(),
    {
        let ghost input = self.docs@.map_values(|d: Document| d@) + fresh@.map_values(
            |d: Document| d@,
        );
        let mut combined = self.docs;
        let mut fresh = fresh;
        combined.append(&mut fresh);
        let ghost cv = combined@.map_values(|d: Document| d@);
        proof {
            assert(cv =~= input);
        }
        let mut out: Vec<Document> = Vec::new();
        let mut i: usize = 0;
        while i < combined.len()
            invariant
                i <= combined@.len(),
                cv == combined@.map_values(|d: Document| d@),
                out@.map_values(|d: Document| d@) == sort_by_date(cv.take(i as int)),
                sorted_by_date(out@.map_values(|d: Document| d@)),
            decreases combined@.len() - i,
        {
            let d = clone_document(&combined[i]);
            let ghost outv = out@.map_values(|dd: Document| dd@);
            let ghost dv = d@;
            let mut pos: usize = out.len();
            while pos > 0 && d.date.lt(out[pos - 1].date)
                invariant
                    pos <= out@.len(),
                    outv == out@.map_values(|dd: Document| dd@),
                    dv == d@,
                    forall|q: int| pos <= q < outv.len() ==> date_lt(dv.0, (#[trigger] outv[q]).0),
                decreases pos,
            {
                assert(outv[pos - 1] == out@[pos - 1]@);
                pos -= 1;
            }
            proof {
                if pos > 0 {
                    assert(outv[pos - 1] == out@[pos - 1]@);
                    assert(date_le(outv[pos - 1].0, dv.0));
                }
                lemma_insert_at(outv, dv, pos as int);
                outv.insert_ensures(pos as int, dv);
            }
            out.insert(pos, d);
            proof {
                assert(out@.map_values(|dd: Document| dd@) =~= outv.insert(pos as int, dv));
                assert(cv.take(i as int + 1).drop_last() =~= cv.take(i as int));
                assert(cv.take(i as int + 1).last() == cv[i as int]);
                assert(cv[i as int] == combined@[i as int]@);
                assert(out@.map_values(|dd: Document| dd@) =~= sort_by_date(
                    cv.take(i as int + 1),
                ));
                let newv = outv.insert(pos as int, dv);
                assert forall|a: int, b: int| 0 <= a < b < newv.len() implies date_le(
                    #[trigger] newv[a].0,
                    #[trigger] newv[b].0,
                ) by {
                    if b < pos {
                    } else if a < pos && b == pos {
                        assert(newv[a] == outv[a]);
                        if pos > 0 {
                            assert(date_le(outv[a].0, outv[pos - 1].0));
                        }
                    } else if a < pos {
                        assert(newv[a] == outv[a]);
                        assert(newv[b] == outv[b - 1]);
                        if pos > 0 {
                            assert(date_le(outv[a].0, outv[pos - 1].0));
                        }
                        assert(date_lt(dv.0, outv[b - 1].0));
                    } else if a == pos {
                        assert(newv[b] == outv[b - 1]);
                        assert(date_lt(dv.0, outv[b - 1].0));
                    } else {
                        assert(newv[a] == outv[a - 1]);
                        assert(newv[b] == outv[b - 1]);
                    }
                }
            }
            i += 1;
        }
        proof {
            assert(cv.take(combined@.len() as int) =~= cv);
        }
        DocumentCollection { docs: out }
    }

    /// The newest publish date present, the planner's notion of what is
    /// already covered; `None` for an empty collection.
    pub fn max_date(&self) -> (r: Option<Date>)
        requires
            self.wf(),
        ensures
            match r {
                Some(d) => self.docs@.len() > 0 && d == self.docs@.last().date && forall|i: int|
                    0 <= i < self.docs@.len() ==> date_le((#[trigger] self.docs@[i]).date, d),
                None => self.docs@.len() == 0,
            },
    {
        if self.docs.len() == 0 {
            None
        } else {
            let d = self.docs[self.docs.len() - 1].date;
            proof {
                let sv = self.docs@.map_values(|dd: Document| dd@);
                assert forall|i: int| 0 <= i < self.docs@.len() implies date_le(
                    (#[trigger] self.docs@[i]).date,
                    d,
                ) by {
                    assert(sv[i] == self.docs@[i]@);
                    assert(sv[sv.len() - 1] == self.docs@[sv.len() - 1]@);
                    if i < sv.len() - 1 {
                        assert(date_le(sv[i].0, sv[sv.len() - 1].0));
                    }
                }
            }
            Some(d)
        }
    }
}

} // verus!
