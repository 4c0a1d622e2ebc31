//! Classification of incident records: two independent case-insensitive
//! keyword matchers over the incident type. A record may match both, exactly
//! one, or neither; the matchers never exclude one another.

use vstd::prelude::*;
use crate::text::{label_at, find_pat, lemma_find_pat};

verus! {

pub open spec fn alarm_label() -> Seq<char> {
    seq!['a', 'l', 'a', 'r', 'm']
}

pub open spec fn entrapment_label() -> Seq<char> {
    seq!['e', 'n', 't', 'r', 'a', 'p', 'm', 'e', 'n', 't']
}

/// `needle` occurs case-insensitively somewhere in `hay`.
pub open spec fn contains_ci(hay: Seq<char>, needle: Seq<char>) -> bool {
    exists|i: int| label_at(hay, needle, i)
}

/// Case-insensitive substring search.
pub fn contains_pat(hay: &str, needle: &str) -> (r: bool)
    ensures
        r == contains_ci(hay@, needle@),
{
    proof {
        lemma_find_pat(hay@, needle@, 0);
    }
    match find_pat(hay, needle, 0) {
        Some(p) => {
            assert(label_at(hay@, needle@, p as int));
            true
        },
        None => {
            assert(!contains_ci(hay@, needle@)) by {
                if contains_ci(hay@, needle@) {
                    let i = choose|i: int| label_at(hay@, needle@, i);
                    assert(!label_at(hay@, needle@, i));
                }
            }
            false
        },
    }
}

/// The fire-alarm matcher.
pub fn is_fire_alarm(incident_type: &str) -> (r: bool)
    ensures
        r == contains_ci(incident_type@, alarm_label()),
{
    proof {
        reveal_strlit("alarm");
        assert("alarm"@ =~= alarm_label());
    }
    contains_pat(incident_type, "alarm")
}

/// The entrapment matcher.
pub fn is_entrapment(incident_type: &str) -> (r: bool)
    ensures
        r == contains_ci(incident_type@, entrapment_label()),
{
    proof {
        reveal_strlit("entrapment");
        assert("entrapment"@ =~= entrapment_label());
    }
    contains_pat(incident_type, "entrapment")
}

/// Both matchers at once. Each component is pinned independently of the
/// other, so a record may count toward both totals, one, or neither.
pub fn classify(incident_type: &str) -> (r: (bool, bool))
    ensures
        r.0 == contains_ci(incident_type@, alarm_label()),
        r.1 == contains_ci(incident_type@, entrapment_label()),
{
    (is_fire_alarm(incident_type), is_entrapment(incident_type))
}

} // verus!
