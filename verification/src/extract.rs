//! Incident extraction: a fixed multi-line template is matched against the
//! plain-text rendering of a document body. Each occurrence of the
//! template — an "incident type" line, one or more newlines, a "location"
//! line, and a later "notes" line — yields one record. Labels
//! match case-insensitively; values run to the end of their line and are
//! trimmed; location values lose any leading category prefix up to the last
//! colon. Occurrences are found leftmost-first and do not overlap: scanning
//! resumes where the previous occurrence ended.
//!
//! Rendering markup to the plain text handled here is the caller's step:
//! the renderer can abort on pathological markup, so its call stands at the
//! process edge, contained per document, and extraction itself is total.

use vstd::prelude::*;
use crate::text::{
    label_at, line_end_spec, skip_newlines_spec, find_pat_spec, trim_spec, normalize_loc_spec,
    lemma_line_end, lemma_skip_newlines, lemma_find_pat, line_end, skip_newlines, find_pat,
    match_at, trim_substr, normalize_loc,
};

verus! {

/// One structured incident record extracted from a document body.
#[derive(Debug)]
pub struct Event {
    pub incident_type: String,
    pub location: String,
    pub notes: String,
}

impl View for Event {
    type V = (Seq<char>, Seq<char>, Seq<char>);

    open spec fn view(&self) -> Self::V {
        (self.incident_type@, self.location@, self.notes@)
    }
}

/// The label opening a template block; its value is the incident type.
pub open spec fn type_label() -> Seq<char> {
    seq!['i', 'n', 'c', 'i', 'd', 'e', 'n', 't', ' ', 't', 'y', 'p', 'e', ':']
}

pub open spec fn loc_label() -> Seq<char> {
    seq!['l', 'o', 'c', 'a', 't', 'i', 'o', 'n', ':']
}

pub open spec fn notes_label() -> Seq<char> {
    seq!['n', 'o', 't', 'e', 's', ':']
}

/// The earliest position `>= from` where the notes label matches and is
/// followed by at least one non-newline character, if any. (A notes label
/// with an empty value does not end the block's search.)
pub open spec fn find_notes_spec(text: Seq<char>, from: int) -> Option<int>
    decreases text.len() - from,
{
    if from + 6 > text.len() {
        None
    } else if label_at(text, notes_label(), from) && line_end_spec(text, from + 6) > from + 6 {
        Some(from)
    } else {
        find_notes_spec(text, from + 1)
    }
}

pub proof fn lemma_find_notes(text: Seq<char>, from: int)
    requires
        0 <= from,
    ensures
        find_notes_spec(text, from) matches Some(k) ==> from <= k && k + 6 <= text.len()
            && label_at(text, notes_label(), k) && line_end_spec(text, k + 6) > k + 6,
    decreases text.len() - from,
{
    if from + 6 <= text.len() && !(label_at(text, notes_label(), from) && line_end_spec(
        text,
        from + 6,
    ) > from + 6) {
        lemma_find_notes(text, from + 1);
    }
}

/// The attempt to match one full template block whose opening label sits at
/// position `p`: the extracted record and the position just past the block,
/// or `None` when the rest of the template does not follow.
pub open spec fn match_block(text: Seq<char>, p: int) -> Option<
    ((Seq<char>, Seq<char>, Seq<char>), int),
> {
    let t_start = p + 14;
    let t_end = line_end_spec(text, t_start);
    if t_end <= t_start {
        None
    } else {
        let nl_end = skip_newlines_spec(text, t_end);
        if nl_end <= t_end {
            None
        } else if !label_at(text, loc_label(), nl_end) {
            None
        } else {
            let l_start = nl_end + 9;
            let l_end = line_end_spec(text, l_start);
            if l_end <= l_start {
                None
            } else {
                match find_notes_spec(text, l_end) {
                    None => None,
                    Some(k) => {
                        let n_start = k + 6;
                        let n_end = line_end_spec(text, n_start);
                        Some(
                            (
                                (
                                    trim_spec(text.subrange(t_start, t_end)),
                                    normalize_loc_spec(
                                        trim_spec(text.subrange(l_start, l_end)),
                                    ),
                                    trim_spec(text.subrange(n_start, n_end)),
                                ),
                                n_end,
                            ),
                        )
                    },
                }
            }
        }
    }
}

pub proof fn lemma_match_block(text: Seq<char>, p: int)
    requires
        0 <= p,
        p + 14 <= text.len(),
    ensures
        match_block(text, p) matches Some(re) ==> p < re.1 <= text.len(),
{
    let t_start = p + 14;
    lemma_line_end(text, t_start);
    let t_end = line_end_spec(text, t_start);
    if t_end > t_start {
        lemma_skip_newlines(text, t_end);
        let nl_end = skip_newlines_spec(text, t_end);
        if nl_end > t_end && label_at(text, loc_label(), nl_end) {
            let l_start = nl_end + 9;
            lemma_line_end(text, l_start);
            let l_end = line_end_spec(text, l_start);
            if l_end > l_start {
                lemma_find_notes(text, l_end);
                match find_notes_spec(text, l_end) {
                    None => {},
                    Some(k) => {
                        lemma_line_end(text, k + 6);
                    },
                }
            }
        }
    }
}

/// All records extracted from `text` at or after `pos`, leftmost-first and
/// non-overlapping: the earliest opening label is tried; when the rest of
/// the template does not follow, the search resumes one position later, and
/// when it does, the search resumes past the matched block.
pub open spec fn extract_from(text: Seq<char>, pos: int) -> Seq<(Seq<char>, Seq<char>, Seq<char>)>
    decreases text.len() - pos,
    when 0 <= pos
    via extract_from_decreases
{
    match find_pat_spec(text, type_label(), pos) {
        None => Seq::empty(),
        Some(p) => match match_block(text, p) {
            None => extract_from(text, p + 1),
            Some(re) => seq![re.0] + extract_from(text, re.1),
        },
    }
}

#[via_fn]
proof fn extract_from_decreases(text: Seq<char>, pos: int) {
    lemma_find_pat(text, type_label(), pos);
    match find_pat_spec(text, type_label(), pos) {
        None => {},
        Some(p) => {
            lemma_match_block(text, p);
        },
    }
}

/// Tries to complete a template block whose opening label sits at `p`.
fn try_block(text: &str, p: usize) -> (r: Option<(Event, usize)>)
    requires
        p + 14 <= text@.len(),
    ensures
        match r {
            Some(re) => match_block(text@, p as int) == Some(((re.0)@, re.1 as int)) && p < re.1
                <= text@.len(),
            None => match_block(text@, p as int) is None,
        },
{
    proof {
        lemma_match_block(text@, p as int);
    }
    let n = text.unicode_len();
    let t_start = p + 14;
    let t_end = line_end(text, t_start);
    proof {
        lemma_line_end(text@, t_start as int);
    }
    if t_end <= t_start {
        return None;
    }
    let nl_end = skip_newlines(text, t_end);
    proof {
        lemma_skip_newlines(text@, t_end as int);
    }
    if nl_end <= t_end {
        return None;
    }
    let loc_matches = match_at(text, "location:", nl_end);
    proof {
        reveal_strlit("location:");
        assert("location:"@ =~= loc_label());
    }
    if !loc_matches {
        return None;
    }
    let l_start = nl_end + 9;
    let l_end = line_end(text, l_start);
    proof {
        lemma_line_end(text@, l_start as int);
    }
    if l_end <= l_start {
        return None;
    }
    match find_notes(text, l_end) {
        None => None,
        Some(k) => {
            proof {
                lemma_find_notes(text@, l_end as int);
            }
            let n_start = k + 6;
            let n_end = line_end(text, n_start);
            proof {
                lemma_line_end(text@, n_start as int);
            }
            let itype = trim_substr(text, t_start, t_end);
            let loc_raw = trim_substr(text, l_start, l_end);
            let location = normalize_loc(loc_raw.as_str());
            let notes = trim_substr(text, n_start, n_end);
            Some((Event { incident_type: itype, location, notes }, n_end))
        },
    }
}

/// The earliest usable notes label at or after `from`.
fn find_notes(text: &str, from: usize) -> (r: Option<usize>)
    requires
        from <= text@.len(),
    ensures
        match r {
            Some(k) => find_notes_spec(text@, from as int) == Some(k as int) && from <= k && k + 6
                <= text@.len(),
            None => find_notes_spec(text@, from as int) is None,
        },
{
    proof {
        reveal_strlit("notes:");
        assert("notes:"@ =~= notes_label());
    }
    let n = text.unicode_len();
    if 6 > n {
        return None;
    }
    let mut j = from;
    while j <= n - 6
        invariant
            from <= j,
            6 <= n,
            n == text@.len(),
            "notes:"@ == notes_label(),
            find_notes_spec(text@, from as int) == find_notes_spec(text@, j as int),
        decreases n - j,
    {
        if match_at(text, "notes:", j) {
            let le = line_end(text, j + 6);
            if le > j + 6 {
                return Some(j);
            }
        }
        j += 1;
    }
    None
}

/// All records extracted from plain text, in template order.
pub fn extract_events(text: &str) -> (r: Vec<Event>)
    ensures
        r@.map_values(|e: Event| e@) == extract_from(text@, 0),
{
    proof {
        reveal_strlit("incident type:");
        assert("incident type:"@ =~= type_label());
    }
    let mut out: Vec<Event> = Vec::new();
    let mut pos: usize = 0;
    let n = text.unicode_len();
    loop
        invariant_except_break
            pos <= n,
            n == text@.len(),
            "incident type:"@ == type_label(),
            extract_from(text@, 0) == out@.map_values(|e: Event| e@) + extract_from(
                text@,
                pos as int,
            ),
        ensures
            out@.map_values(|e: Event| e@) == extract_from(text@, 0),
        decreases n - pos,
    {
        match find_pat(text, "incident type:", pos) {
            None => {
                proof {
                    assert(extract_from(text@, pos as int) =~= Seq::<
                        (Seq<char>, Seq<char>, Seq<char>),
                    >::empty());
                    assert(out@.map_values(|e: Event| e@) + extract_from(text@, pos as int)
                        =~= out@.map_values(|e: Event| e@));
                }
                break ;
            },
            Some(p) => {
                proof {
                    lemma_find_pat(text@, type_label(), pos as int);
                }
                match try_block(text, p) {
                    None => {
                        proof {
                            assert(extract_from(text@, pos as int) == extract_from(
                                text@,
                                p + 1,
                            ));
                        }
                        pos = p + 1;
                    },
                    Some((ev, end)) => {
                        let ghost old_out = out@;
                        let ghost old_pos = pos as int;
                        out.push(ev);
                        pos = end;
                        proof {
                            assert(extract_from(text@, old_pos) == seq![ev@] + extract_from(
                                text@,
                                end as int,
                            ));
                            assert(out@.map_values(|e: Event| e@) =~= old_out.map_values(
                                |e: Event| e@,
                            ) + seq![ev@]);
                            assert(old_out.map_values(|e: Event| e@) + (seq![ev@]
                                + extract_from(text@, end as int)) =~= out@.map_values(
                                |e: Event| e@,
                            ) + extract_from(text@, end as int));
                        }
                    },
                }
            },
        }
    }
    out
}

/// Extraction is idempotent from the normalized text on: the record
/// sequence is a function of the text alone, so extracting equal texts
/// yields equal sequences.
pub proof fn lemma_extraction_idempotent(text: Seq<char>, again: Seq<char>)
    requires
        text == again,
    ensures
        extract_from(text, 0) == extract_from(again, 0),
{
}

} // verus!
