//! The include/exclude keyword lists of a filter rule and their substring
//! predicates over the text fragments of a commit.

use vstd::prelude::*;

use crate::events::Commit;
use crate::text::{contains_substr, is_substring, views_of};

verus! {

/// Some term of `terms` occurs in some fragment of `texts`.
pub open spec fn some_term_in_some_text(terms: Seq<Seq<char>>, texts: Seq<Seq<char>>) -> bool {
    exists|p: int, t: int|
        0 <= p < texts.len() && 0 <= t < terms.len() && is_substring(terms[t], texts[p])
}

/// Include and exclude substring lists.  An absent list makes the
/// corresponding predicate constantly false; it does not mean "match
/// everything".  Nothing links the two lists: both may be absent, and both
/// may overlap.
#[derive(Debug)]
pub struct Keywords {
    /// Terms whose presence surfaces a commit from an unwatched repository.
    pub includes: Option<Vec<String>>,
    /// Terms whose presence suppresses a commit from a watched repository.
    pub excludes: Option<Vec<String>>,
}

impl Keywords {
    /// The include list as character sequences, `None` when unset.
    pub open spec fn includes_opt(self) -> Option<Seq<Seq<char>>> {
        match self.includes {
            Some(v) => Some(views_of(v@)),
            None => None,
        }
    }

    /// The exclude list as character sequences, `None` when unset.
    pub open spec fn excludes_opt(self) -> Option<Seq<Seq<char>>> {
        match self.excludes {
            Some(v) => Some(views_of(v@)),
            None => None,
        }
    }

    /// The include predicate: false when the list is absent, else whether
    /// some include term occurs in some fragment.
    pub open spec fn spec_includes(self, texts: Seq<Seq<char>>) -> bool {
        match self.includes_opt() {
            Some(terms) => some_term_in_some_text(terms, texts),
            None => false,
        }
    }

    /// The exclude predicate, same shape over the exclude list.
    pub open spec fn spec_excludes(self, texts: Seq<Seq<char>>) -> bool {
        match self.excludes_opt() {
            Some(terms) => some_term_in_some_text(terms, texts),
            None => false,
        }
    }

    /// Whether some include term occurs in some text fragment of `commit`.
    pub fn includes(&self, commit: &Commit) -> (r: bool)
        ensures
            r == self.spec_includes(views_of(commit.texts@)),
    {
        match &self.includes {
            Some(terms) => any_term_in_any_text(terms, commit.get_post_text()),
            None => false,
        }
    }

    /// Whether some exclude term occurs in some text fragment of `commit`.
    pub fn excludes(&self, commit: &Commit) -> (r: bool)
        ensures
            r == self.spec_excludes(views_of(commit.texts@)),
    {
        match &self.excludes {
            Some(terms) => any_term_in_any_text(terms, commit.get_post_text()),
            None => false,
        }
    }
}

/// Whether some string of `terms` occurs as a substring in some string of
/// `texts`.
fn any_term_in_any_text(terms: &Vec<String>, texts: &Vec<String>) -> (r: bool)
    ensures
        r == some_term_in_some_text(views_of(terms@), views_of(texts@)),
{
    let np = texts.len();
    let mut p: usize = 0;
    while p < np
        invariant
            np == texts@.len(),
            p <= np,
            forall|pp: int, t: int|
                0 <= pp < p && 0 <= t < terms@.len() ==> !is_substring(
                    views_of(terms@)[t],
                    views_of(texts@)[pp],
                ),
        decreases np - p,
    {
        let nt = terms.len();
        let mut t: usize = 0;
        while t < nt
            invariant
                np == texts@.len(),
                nt == terms@.len(),
                p < np,
                t <= nt,
                forall|tt: int|
                    0 <= tt < t ==> !is_substring(views_of(terms@)[tt], views_of(texts@)[p as int]),
        decreases nt - t,
        {
            if contains_substr(texts[p].as_str(), terms[t].as_str()) {
                assert(is_substring(views_of(terms@)[t as int], views_of(texts@)[p as int]));
                return true;
            }
            t = t + 1;
        }
        p = p + 1;
    }
    false
}

} // verus!
