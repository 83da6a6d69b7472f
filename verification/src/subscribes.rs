//! The subscription list of a filter rule: which repository identifiers
//! (and, before initialization, which handles) the rule watches.

use vstd::prelude::*;

use crate::errors::FilterError;
use crate::text::{contains_string, str_eq, views_of, lemma_views_of_push};

verus! {

/// Everything of `s` except the occurrences of `x`, order kept.
pub open spec fn remove_all(s: Seq<Seq<char>>, x: Seq<char>) -> Seq<Seq<char>>
    decreases s.len(),
{
    if s.len() == 0 {
        Seq::empty()
    } else {
        let rest = remove_all(s.drop_last(), x);
        if s.last() == x {
            rest
        } else {
            rest.push(s.last())
        }
    }
}

/// Removal is complete: no occurrence of the removed value survives.
pub proof fn lemma_remove_all_not_contains(s: Seq<Seq<char>>, x: Seq<char>)
    ensures
        !remove_all(s, x).contains(x),
    decreases s.len(),
{
    if s.len() > 0 {
        lemma_remove_all_not_contains(s.drop_last(), x);
    }
}

/// Removal is precise: membership of every other value is untouched, so
/// unsubscribing one identifier changes no other identifier's match answer.
pub proof fn lemma_remove_all_contains_other(s: Seq<Seq<char>>, x: Seq<char>, y: Seq<char>)
    requires
        y != x,
    ensures
        remove_all(s, x).contains(y) <==> s.contains(y),
    decreases s.len(),
{
    if s.len() > 0 {
        let rest = remove_all(s.drop_last(), x);
        lemma_remove_all_contains_other(s.drop_last(), x, y);
        if s.contains(y) {
            let i = choose|i: int| 0 <= i < s.len() && s[i] == y;
            if i < s.len() - 1 {
                assert(s.drop_last()[i] == y);
                assert(s.drop_last().contains(y));
                assert(rest.contains(y));
                let j = choose|j: int| 0 <= j < rest.len() && rest[j] == y;
                if s.last() != x {
                    assert(rest.push(s.last())[j] == y);
                }
                assert(remove_all(s, x).contains(y));
            } else {
                assert(s.last() == y);
                assert(rest.push(y)[rest.len() as int] == y);
                assert(remove_all(s, x).contains(y));
            }
        }
        if remove_all(s, x).contains(y) {
            let i = choose|i: int| 0 <= i < remove_all(s, x).len() && remove_all(s, x)[i] == y;
            if s.last() != x && i == remove_all(s, x).len() - 1 {
                assert(s.last() == y);
                assert(s.contains(y));
            } else {
                assert(rest[i] == y);
                assert(rest.contains(y));
                assert(s.drop_last().contains(y));
                let j = choose|j: int| 0 <= j < s.drop_last().len() && s.drop_last()[j] == y;
                assert(s[j] == y);
                assert(s.contains(y));
            }
        }
    }
}

/// Removing a value that is not there removes nothing at all.
pub proof fn lemma_remove_all_absent(s: Seq<Seq<char>>, x: Seq<char>)
    requires
        !s.contains(x),
    ensures
        remove_all(s, x) == s,
    decreases s.len(),
{
    if s.len() > 0 {
        assert forall|i: int| 0 <= i < s.drop_last().len() implies s.drop_last()[i] != x by {
            assert(s[i] == s.drop_last()[i]);
        }
        lemma_remove_all_absent(s.drop_last(), x);
        assert(s.last() != x);
        assert(remove_all(s, x) =~= s);
    }
}

/// The repositories a rule watches: identifiers used for matching, and
/// handles that initialization resolves to identifiers and then discards.
/// An absent list is distinct from an empty one: removal from an absent
/// list is rejected, and only an absent identifier list can result from
/// configuration that never mentioned identifiers.
#[derive(Debug)]
pub struct Subscribes {
    /// The identifiers of the watched repositories, if any were configured.
    pub dids: Option<Vec<String>>,
    /// The handles still awaiting resolution, if any were configured.
    pub handles: Option<Vec<String>>,
}

impl Subscribes {
    /// The identifier list as character sequences, `None` when unset.
    pub open spec fn dids_opt(self) -> Option<Seq<Seq<char>>> {
        match self.dids {
            Some(v) => Some(views_of(v@)),
            None => None,
        }
    }

    /// The handle list as character sequences, `None` when unset.
    pub open spec fn handles_opt(self) -> Option<Seq<Seq<char>>> {
        match self.handles {
            Some(v) => Some(views_of(v@)),
            None => None,
        }
    }

    /// The identifier list, collapsing "unset" to the empty sequence.
    pub open spec fn dids_seq(self) -> Seq<Seq<char>> {
        match self.dids_opt() {
            Some(s) => s,
            None => Seq::empty(),
        }
    }

    /// The handle list, collapsing "unset" to the empty sequence.
    pub open spec fn handles_seq(self) -> Seq<Seq<char>> {
        match self.handles_opt() {
            Some(s) => s,
            None => Seq::empty(),
        }
    }

    /// A repository matches iff its identifier is in the identifier list;
    /// handles are never consulted.
    pub open spec fn spec_is_match(self, repo: Seq<char>) -> bool {
        self.dids_seq().contains(repo)
    }

    /// An empty subscription: both lists unset.
    pub fn new() -> (r: Subscribes)
        ensures
            r.dids_opt() is None,
            r.handles_opt() is None,
    {
        Subscribes { dids: None, handles: None }
    }

    /// Whether `repo` is one of the watched identifiers.
    pub fn is_match(&self, repo: &str) -> (r: bool)
        ensures
            r == self.spec_is_match(repo@),
    {
        match &self.dids {
            Some(dids) => {
                let r = contains_string(dids, repo);
                r
            },
            None => false,
        }
    }

    /// Append `did` to the identifier list, creating the list if it was
    /// unset.  Duplicates are permitted; the operation never fails.
    pub fn subscribe_repo(&mut self, did: &str) -> (r: Result<(), FilterError>)
        ensures
            r is Ok,
            final(self).dids_opt() is Some,
            final(self).dids_seq() == old(self).dids_seq().push(did@),
            final(self).handles == old(self).handles,
    {
        let owned = did.to_owned();
        match self.dids.take() {
            Some(mut v) => {
                proof {
                    lemma_views_of_push(v@, owned);
                }
                v.push(owned);
                self.dids = Some(v);
            },
            None => {
                let mut v: Vec<String> = Vec::new();
                v.push(owned);
                self.dids = Some(v);
                proof {
                    assert(views_of(v@) =~= Seq::empty().push(did@));
                }
            },
        }
        Ok(())
    }

    /// Remove every occurrence of `did` from the identifier list.  Fails
    /// with `NotFound` iff the list was never set; an identifier that is
    /// simply absent from a set list is silently not removed.
    pub fn unsubscribe_repo(&mut self, did: &str) -> (r: Result<(), FilterError>)
        ensures
            r is Ok <==> old(self).dids_opt() is Some,
            old(self).dids_opt() is Some ==> {
                &&& final(self).dids_opt() is Some
                &&& final(self).dids_seq() == remove_all(old(self).dids_seq(), did@)
                &&& final(self).handles == old(self).handles
            },
            old(self).dids_opt() is None ==> r == Err::<(), FilterError>(FilterError::NotFound)
                && *final(self) == *old(self),
    {
        match self.dids.take() {
            Some(v) => {
                let out = retain_other(&v, did);
                self.dids = Some(out);
                Ok(())
            },
            None => Err(FilterError::NotFound),
        }
    }

    /// Append `handle` to the handle list, creating the list if it was
    /// unset.  Duplicates are permitted; the operation never fails.
    pub fn subscribe_handle(&mut self, handle: &str) -> (r: Result<(), FilterError>)
        ensures
            r is Ok,
            final(self).handles_opt() is Some,
            final(self).handles_seq() == old(self).handles_seq().push(handle@),
            final(self).dids == old(self).dids,
    {
        let owned = handle.to_owned();
        match self.handles.take() {
            Some(mut v) => {
                proof {
                    lemma_views_of_push(v@, owned);
                }
                v.push(owned);
                self.handles = Some(v);
            },
            None => {
                let mut v: Vec<String> = Vec::new();
                v.push(owned);
                self.handles = Some(v);
                proof {
                    assert(views_of(v@) =~= Seq::empty().push(handle@));
                }
            },
        }
        Ok(())
    }

    /// Remove every occurrence of `handle` from the handle list.  Fails
    /// with `NotFound` iff the list was never set.
    pub fn unsubscribe_handle(&mut self, handle: &str) -> (r: Result<(), FilterError>)
        ensures
            r is Ok <==> old(self).handles_opt() is Some,
            old(self).handles_opt() is Some ==> {
                &&& final(self).handles_opt() is Some
                &&& final(self).handles_seq() == remove_all(old(self).handles_seq(), handle@)
                &&& final(self).dids == old(self).dids
            },
            old(self).handles_opt() is None ==> r == Err::<(), FilterError>(FilterError::NotFound)
                && *final(self) == *old(self),
    {
        match self.handles.take() {
            Some(v) => {
                let out = retain_other(&v, handle);
                self.handles = Some(out);
                Ok(())
            },
            None => Err(FilterError::NotFound),
        }
    }
}

/// Adding an identifier makes it match: whatever the identifier list held
/// before, after `subscribe_repo(x)` the set matches `x`.
pub proof fn lemma_subscribe_repo_then_match(pre: Subscribes, post: Subscribes, x: Seq<char>)
    requires
        post.dids_seq() == pre.dids_seq().push(x),
    ensures
        post.spec_is_match(x),
{
    assert(post.dids_seq()[pre.dids_seq().len() as int] == x);
}

/// Removing an identifier that was never matched leaves matching exactly as
/// it was: `unsubscribe_repo(x)` on a set with an identifier list that does
/// not hold `x` changes no match answer.
pub proof fn lemma_unsubscribe_absent_preserves_match(
    pre: Subscribes,
    post: Subscribes,
    x: Seq<char>,
)
    requires
        !pre.spec_is_match(x),
        post.dids_seq() == remove_all(pre.dids_seq(), x),
    ensures
        forall|y: Seq<char>| post.spec_is_match(y) == pre.spec_is_match(y),
{
    lemma_remove_all_absent(pre.dids_seq(), x);
}

/// The strings of `v` whose characters differ from `x`, in order.
fn retain_other(v: &Vec<String>, x: &str) -> (out: Vec<String>)
    ensures
        views_of(out@) == remove_all(views_of(v@), x@),
{
    let n = v.len();
    let mut out: Vec<String> = Vec::new();
    let mut i: usize = 0;
    proof {
        assert(views_of(v@.subrange(0, 0)) =~= Seq::<Seq<char>>::empty());
        assert(views_of(out@) =~= Seq::<Seq<char>>::empty());
    }
    while i < n
        invariant
            n == v@.len(),
            i <= n,
            views_of(out@) == remove_all(views_of(v@.subrange(0, i as int)), x@),
        decreases n - i,
    {
        let ghost pre = views_of(v@.subrange(0, i as int));
        let ghost cur = views_of(v@.subrange(0, i as int + 1));
        proof {
            assert(cur.drop_last() =~= pre);
            assert(cur.last() == v@[i as int]@);
        }
        if !str_eq(v[i].as_str(), x) {
            let item = v[i].clone();
            proof {
                lemma_views_of_push(out@, item);
            }
            out.push(item);
        }
        i = i + 1;
    }
    proof {
        assert(v@.subrange(0, n as int) =~= v@);
    }
    out
}

} // verus!
