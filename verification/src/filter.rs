//! A named filter rule: one optional subscription list and one optional
//! keyword list, with the match predicate over incoming events.

use vstd::prelude::*;

use crate::directory::Client;
use crate::errors::FilterError;
use crate::events::{Commit, Event, Handle, Payload};
use crate::keywords::{some_term_in_some_text, Keywords};
use crate::subscribes::{remove_all, Subscribes};
use crate::text::{contains_string, lemma_views_of_push, views_of};

verus! {

/// A named rule deciding which events match.
#[derive(Debug)]
pub struct Filter {
    /// The rule's name, the registry's sole lookup key.
    pub name: String,
    /// The repositories the rule watches, if any were configured.
    pub subscribes: Option<Subscribes>,
    /// The include/exclude keyword lists, if any were configured.
    pub keywords: Option<Keywords>,
}

impl Filter {
    /// The identifier list of the subscription, `None` when no subscription
    /// or no identifier list is set.
    pub open spec fn sub_dids_opt(self) -> Option<Seq<Seq<char>>> {
        match self.subscribes {
            Some(s) => s.dids_opt(),
            None => None,
        }
    }

    /// The handle list of the subscription, `None` when no subscription or
    /// no handle list is set.
    pub open spec fn sub_handles_opt(self) -> Option<Seq<Seq<char>>> {
        match self.subscribes {
            Some(s) => s.handles_opt(),
            None => None,
        }
    }

    /// The identifier list, collapsing "unset" to the empty sequence.
    pub open spec fn sub_dids(self) -> Seq<Seq<char>> {
        match self.sub_dids_opt() {
            Some(s) => s,
            None => Seq::empty(),
        }
    }

    /// The handle list, collapsing "unset" to the empty sequence.
    pub open spec fn sub_handles(self) -> Seq<Seq<char>> {
        match self.sub_handles_opt() {
            Some(s) => s,
            None => Seq::empty(),
        }
    }

    /// The include list, `None` when no keywords or no include list is set.
    pub open spec fn kw_includes_opt(self) -> Option<Seq<Seq<char>>> {
        match self.keywords {
            Some(k) => k.includes_opt(),
            None => None,
        }
    }

    /// The exclude list, `None` when no keywords or no exclude list is set.
    pub open spec fn kw_excludes_opt(self) -> Option<Seq<Seq<char>>> {
        match self.keywords {
            Some(k) => k.excludes_opt(),
            None => None,
        }
    }

    /// The rule watches the repository `repo`.
    pub open spec fn spec_subscribed(self, repo: Seq<char>) -> bool {
        self.sub_dids().contains(repo)
    }

    /// `a` and `b` agree on everything matching and mutation observe: the
    /// name and the four optional lists, including which of them are set.
    pub open spec fn view_eq(a: Filter, b: Filter) -> bool {
        &&& a.name@ == b.name@
        &&& (a.subscribes is Some <==> b.subscribes is Some)
        &&& a.sub_dids_opt() == b.sub_dids_opt()
        &&& a.sub_handles_opt() == b.sub_handles_opt()
        &&& (a.keywords is Some <==> b.keywords is Some)
        &&& a.kw_includes_opt() == b.kw_includes_opt()
        &&& a.kw_excludes_opt() == b.kw_excludes_opt()
    }

    /// Some include term occurs in some fragment of `texts`; false when the
    /// include list is absent.
    pub open spec fn spec_includes(self, texts: Seq<Seq<char>>) -> bool {
        match self.kw_includes_opt() {
            Some(terms) => some_term_in_some_text(terms, texts),
            None => false,
        }
    }

    /// Some exclude term occurs in some fragment of `texts`; false when the
    /// exclude list is absent.
    pub open spec fn spec_excludes(self, texts: Seq<Seq<char>>) -> bool {
        match self.kw_excludes_opt() {
            Some(terms) => some_term_in_some_text(terms, texts),
            None => false,
        }
    }

    /// The match predicate.  A commit from a watched repository matches
    /// unless an exclude term fires; a commit from an unwatched repository
    /// matches only if an include term fires.  A handle-change notice
    /// matches iff its repository is watched; keywords are not consulted
    /// for it.  Every other event passes through.
    pub open spec fn spec_is_match(self, event: Event) -> bool {
        match event.payload {
            Payload::Commit(c) => if self.spec_subscribed(c.repo@) {
                !self.spec_excludes(views_of(c.texts@))
            } else {
                self.spec_includes(views_of(c.texts@))
            },
            Payload::Handle(h) => self.spec_subscribed(h.did@),
            Payload::Other => true,
        }
    }

    fn is_follows_match(&self, commit: &Commit) -> (r: bool)
        ensures
            r == self.spec_subscribed(commit.repo@),
    {
        match &self.subscribes {
            Some(f) => f.is_match(commit.repo.as_str()),
            None => false,
        }
    }

    fn is_handle_match(&self, handle: &Handle) -> (r: bool)
        ensures
            r == self.spec_subscribed(handle.did@),
    {
        match &self.subscribes {
            Some(f) => f.is_match(handle.did.as_str()),
            None => false,
        }
    }

    fn is_keywords_includes(&self, commit: &Commit) -> (r: bool)
        ensures
            r == self.spec_includes(views_of(commit.texts@)),
    {
        match &self.keywords {
            Some(k) => k.includes(commit),
            None => false,
        }
    }

    fn is_keywords_excludes(&self, commit: &Commit) -> (r: bool)
        ensures
            r == self.spec_excludes(views_of(commit.texts@)),
    {
        match &self.keywords {
            Some(k) => k.excludes(commit),
            None => false,
        }
    }

    /// Whether the rule matches `event`.
    pub fn is_match(&self, event: &Event) -> (r: bool)
        ensures
            r == self.spec_is_match(*event),
    {
        match &event.payload {
            Payload::Commit(c) => {
                if self.is_follows_match(c) {
                    !self.is_keywords_excludes(c)
                } else {
                    self.is_keywords_includes(c)
                }
            },
            Payload::Handle(h) => self.is_handle_match(h),
            Payload::Other => true,
        }
    }

    /// How `subscribe_repo` changes a rule: `did` is appended to the
    /// identifier list, which is created if it was unset; everything else
    /// is kept.
    pub open spec fn subscribe_repo_post(pre: Filter, post: Filter, did: Seq<char>) -> bool {
        &&& post.name == pre.name
        &&& post.keywords == pre.keywords
        &&& post.sub_handles_opt() == pre.sub_handles_opt()
        &&& post.subscribes is Some
        &&& post.sub_dids_opt() is Some
        &&& post.sub_dids() == pre.sub_dids().push(did)
    }

    /// How `unsubscribe_repo` changes a rule on success: every occurrence
    /// of `did` leaves the identifier list; everything else is kept.
    pub open spec fn unsubscribe_repo_post(pre: Filter, post: Filter, did: Seq<char>) -> bool {
        &&& post.name == pre.name
        &&& post.keywords == pre.keywords
        &&& post.sub_handles_opt() == pre.sub_handles_opt()
        &&& post.subscribes is Some
        &&& post.sub_dids_opt() is Some
        &&& post.sub_dids() == remove_all(pre.sub_dids(), did)
    }

    /// How `subscribe_handle` changes a rule, symmetric to
    /// [`Filter::subscribe_repo_post`].
    pub open spec fn subscribe_handle_post(pre: Filter, post: Filter, handle: Seq<char>) -> bool {
        &&& post.name == pre.name
        &&& post.keywords == pre.keywords
        &&& post.sub_dids_opt() == pre.sub_dids_opt()
        &&& post.subscribes is Some
        &&& post.sub_handles_opt() is Some
        &&& post.sub_handles() == pre.sub_handles().push(handle)
    }

    /// How `unsubscribe_handle` changes a rule on success, symmetric to
    /// [`Filter::unsubscribe_repo_post`].
    pub open spec fn unsubscribe_handle_post(pre: Filter, post: Filter, handle: Seq<char>) -> bool {
        &&& post.name == pre.name
        &&& post.keywords == pre.keywords
        &&& post.sub_dids_opt() == pre.sub_dids_opt()
        &&& post.subscribes is Some
        &&& post.sub_handles_opt() is Some
        &&& post.sub_handles() == remove_all(pre.sub_handles(), handle)
    }

    /// Append `did` to the rule's identifier list, creating the
    /// subscription on first use.  Never fails.
    pub fn subscribe_repo(&mut self, did: &str) -> (r: Result<(), FilterError>)
        ensures
            r is Ok,
            Filter::subscribe_repo_post(*old(self), *final(self), did@),
    {
        match self.subscribes.take() {
            Some(mut s) => {
                let r = s.subscribe_repo(did);
                self.subscribes = Some(s);
                r
            },
            None => {
                let mut s = Subscribes::new();
                let r = s.subscribe_repo(did);
                self.subscribes = Some(s);
                r
            },
        }
    }

    /// Remove every occurrence of `did` from the rule's identifier list.
    /// Fails with `NotFound` iff the rule has no subscription or the
    /// subscription has no identifier list.
    pub fn unsubscribe_repo(&mut self, did: &str) -> (r: Result<(), FilterError>)
        ensures
            r is Ok <==> old(self).sub_dids_opt() is Some,
            old(self).sub_dids_opt() is Some ==> Filter::unsubscribe_repo_post(
                *old(self),
                *final(self),
                did@,
            ),
            old(self).sub_dids_opt() is None ==> r == Err::<(), FilterError>(FilterError::NotFound)
                && *final(self) == *old(self),
    {
        match self.subscribes.take() {
            Some(mut s) => {
                let r = s.unsubscribe_repo(did);
                self.subscribes = Some(s);
                r
            },
            None => Err(FilterError::NotFound),
        }
    }

    /// Append `handle` to the rule's handle list, creating the subscription
    /// on first use.  Never fails.
    pub fn subscribe_handle(&mut self, handle: &str) -> (r: Result<(), FilterError>)
        ensures
            r is Ok,
            Filter::subscribe_handle_post(*old(self), *final(self), handle@),
    {
        match self.subscribes.take() {
            Some(mut s) => {
                let r = s.subscribe_handle(handle);
                self.subscribes = Some(s);
                r
            },
            None => {
                let mut s = Subscribes::new();
                let r = s.subscribe_handle(handle);
                self.subscribes = Some(s);
                r
            },
        }
    }

    /// Remove every occurrence of `handle` from the rule's handle list.
    /// Fails with `NotFound` iff the rule has no subscription or the
    /// subscription has no handle list.
    pub fn unsubscribe_handle(&mut self, handle: &str) -> (r: Result<(), FilterError>)
        ensures
            r is Ok <==> old(self).sub_handles_opt() is Some,
            old(self).sub_handles_opt() is Some ==> Filter::unsubscribe_handle_post(
                *old(self),
                *final(self),
                handle@,
            ),
            old(self).sub_handles_opt() is None ==> r == Err::<(), FilterError>(
                FilterError::NotFound,
            ) && *final(self) == *old(self),
    {
        match self.subscribes.take() {
            Some(mut s) => {
                let r = s.unsubscribe_handle(handle);
                self.subscribes = Some(s);
                r
            },
            None => Err(FilterError::NotFound),
        }
    }

    /// `id` belongs to the identifiers after initialization: it was already
    /// configured, or some configured handle resolves to it.
    pub open spec fn init_keeps_id(pre: Filter, client: Client, id: Seq<char>) -> bool {
        ||| pre.sub_dids().contains(id)
        ||| exists|k: int|
            0 <= k < pre.sub_handles().len() && client.spec_resolve(pre.sub_handles()[k]) == Some(
                id,
            )
    }

    /// How `init` changes a rule.  A rule without a subscription or without
    /// a handle list is left alone.  Otherwise the handle list is cleared,
    /// and the identifier list becomes exactly the configured identifiers
    /// united with the identifiers the handles resolve to, without
    /// duplicates — or unset when that union is empty.
    pub open spec fn init_post(pre: Filter, post: Filter, client: Client) -> bool {
        if pre.subscribes is None || pre.sub_handles_opt() is None {
            post == pre
        } else {
            &&& post.name == pre.name
            &&& post.keywords == pre.keywords
            &&& post.subscribes is Some
            &&& post.sub_handles_opt() is None
            &&& forall|id: Seq<char>|
                #[trigger] post.sub_dids().contains(id) <==> Filter::init_keeps_id(pre, client, id)
            &&& post.sub_dids().no_duplicates()
            &&& (post.sub_dids_opt() is Some <==> exists|id: Seq<char>|
                Filter::init_keeps_id(pre, client, id))
        }
    }

    /// Resolve the rule's handles to identifiers through `client` and fold
    /// them into the identifier list; a handle the client cannot resolve is
    /// skipped.  The handle list is discarded.
    pub fn init(&mut self, client: &Client)
        ensures
            Filter::init_post(*old(self), *final(self), *client),
    {
        match self.subscribes.take() {
            None => {
                self.subscribes = None;
            },
            Some(subs) => {
                let Subscribes { dids: old_dids, handles: old_handles } = subs;
                match old_handles {
                    None => {
                        self.subscribes = Some(Subscribes { dids: old_dids, handles: None });
                    },
                    Some(handles) => {
                        let ghost pre = *old(self);
                        let ghost gdids: Seq<Seq<char>> = pre.sub_dids();
                        let mut ids: Vec<String> = Vec::new();
                        match &old_dids {
                            Some(ds) => {
                                let n = ds.len();
                                let mut i: usize = 0;
                                while i < n
                                    invariant
                                        n == ds@.len(),
                                        i <= n,
                                        views_of(ids@).no_duplicates(),
                                        forall|id: Seq<char>|
                                            #[trigger] views_of(ids@).contains(id) <==> id_in_prefix(
                                                ds@,
                                                i as int,
                                                id,
                                            ),
                                    decreases n - i,
                                {
                                    if !contains_string(&ids, ds[i].as_str()) {
                                        let item = ds[i].clone();
                                        proof {
                                            lemma_views_of_push(ids@, item);
                                            lemma_contains_push(views_of(ids@), item@);
                                            lemma_no_dup_push(views_of(ids@), item@);
                                        }
                                        ids.push(item);
                                    }
                                    i = i + 1;
                                }
                                proof {
                                    assert forall|id: Seq<char>|
                                        #[trigger] views_of(ids@).contains(id) <==> gdids.contains(
                                            id,
                                        ) by {
                                        assert(gdids == views_of(ds@));
                                        if id_in_prefix(ds@, n as int, id) {
                                            let j = choose|j: int|
                                                0 <= j < n && ds@[j]@ == id;
                                            assert(views_of(ds@)[j] == id);
                                            assert(views_of(ds@).contains(id));
                                        }
                                        if views_of(ds@).contains(id) {
                                            let j = choose|j: int|
                                                0 <= j < views_of(ds@).len() && views_of(ds@)[j]
                                                    == id;
                                            assert(ds@[j]@ == id);
                                            assert(id_in_prefix(ds@, n as int, id));
                                        }
                                    }
                                }
                            },
                            None => {
                                proof {
                                    assert(views_of(ids@) =~= Seq::<Seq<char>>::empty());
                                }
                            },
                        }
                        let m = handles.len();
                        let mut k: usize = 0;
                        while k < m
                            invariant
                                m == handles@.len(),
                                k <= m,
                                views_of(ids@).no_duplicates(),
                                forall|id: Seq<char>|
                                    #[trigger] views_of(ids@).contains(id) <==> gdids.contains(id)
                                        || resolved_in_prefix(handles@, k as int, *client, id),
                            decreases m - k,
                        {
                            match client.get_handle(handles[k].as_str()) {
                                Some(d) => {
                                    if !contains_string(&ids, d.as_str()) {
                                        proof {
                                            lemma_views_of_push(ids@, d);
                                            lemma_contains_push(views_of(ids@), d@);
                                            lemma_no_dup_push(views_of(ids@), d@);
                                        }
                                        ids.push(d);
                                    }
                                },
                                None => {},
                            }
                            k = k + 1;
                        }
                        proof {
                            assert(pre.sub_handles() == views_of(handles@));
                            assert forall|id: Seq<char>|
                                #[trigger] views_of(ids@).contains(id) <==> Filter::init_keeps_id(
                                    pre,
                                    *client,
                                    id,
                                ) by {
                                if resolved_in_prefix(handles@, m as int, *client, id) {
                                    let j = choose|j: int|
                                        0 <= j < m && client.spec_resolve(handles@[j]@) == Some(
                                            id,
                                        );
                                    assert(pre.sub_handles()[j] == handles@[j]@);
                                    assert(Filter::init_keeps_id(pre, *client, id));
                                }
                                if exists|j: int|
                                    0 <= j < pre.sub_handles().len() && client.spec_resolve(
                                        pre.sub_handles()[j],
                                    ) == Some(id) {
                                    let j = choose|j: int|
                                        0 <= j < pre.sub_handles().len() && client.spec_resolve(
                                            pre.sub_handles()[j],
                                        ) == Some(id);
                                    assert(pre.sub_handles()[j] == handles@[j]@);
                                    assert(resolved_in_prefix(handles@, m as int, *client, id));
                                }
                            }
                        }
                        if ids.len() == 0 {
                            self.subscribes = Some(Subscribes { dids: None, handles: None });
                            proof {
                                assert forall|id: Seq<char>| !Filter::init_keeps_id(
                                    pre,
                                    *client,
                                    id,
                                ) by {
                                    assert(!views_of(ids@).contains(id));
                                }
                            }
                        } else {
                            proof {
                                assert(views_of(ids@).contains(views_of(ids@)[0]));
                            }
                            self.subscribes = Some(
                                Subscribes { dids: Some(ids), handles: None },
                            );
                        }
                    },
                }
            },
        }
    }
}

/// The asymmetry of the commit rule.  For a watched repository the include
/// list is never consulted: the commit matches exactly when no exclude term
/// fires.  For an unwatched repository the exclude list is never consulted:
/// the commit matches exactly when an include term fires.
pub proof fn lemma_commit_asymmetry(f: Filter, c: Commit)
    ensures
        f.spec_subscribed(c.repo@) ==> f.spec_is_match(
            (Event { payload: Payload::Commit(c) }),
        ) == !f.spec_excludes(views_of(c.texts@)),
        !f.spec_subscribed(c.repo@) ==> f.spec_is_match(
            (Event { payload: Payload::Commit(c) }),
        ) == f.spec_includes(views_of(c.texts@)),
{
}

/// A handle-change notice for an unwatched repository never matches, however
/// the keyword lists are configured: keywords play no part in that decision.
pub proof fn lemma_handle_update_ignores_keywords(f: Filter, h: Handle)
    requires
        !f.spec_subscribed(h.did@),
    ensures
        !f.spec_is_match((Event { payload: Payload::Handle(h) })),
{
}

/// Two rules that agree on name and lists decide every event alike: a deep
/// copy of a rule matches exactly the events the original matches.
pub proof fn lemma_view_eq_same_match(a: Filter, b: Filter, event: Event)
    requires
        Filter::view_eq(a, b),
    ensures
        a.spec_is_match(event) == b.spec_is_match(event),
{
    assert(a.sub_dids() == b.sub_dids());
}

/// Some index `j < i` of `ds` holds a string whose characters are `id`.
spec fn id_in_prefix(ds: Seq<String>, i: int, id: Seq<char>) -> bool {
    exists|j: int| 0 <= j < i && ds[j]@ == id
}

/// Some handle among the first `k` of `hs` resolves to `id` under `client`.
spec fn resolved_in_prefix(hs: Seq<String>, k: int, client: Client, id: Seq<char>) -> bool {
    exists|j: int| 0 <= j < k && client.spec_resolve(hs[j]@) == Some(id)
}

proof fn lemma_contains_push(s: Seq<Seq<char>>, x: Seq<char>)
    ensures
        forall|y: Seq<char>|
            #[trigger] s.push(x).contains(y) <==> s.contains(y) || y == x,
{
    assert forall|y: Seq<char>| #[trigger] s.push(x).contains(y) <==> s.contains(y) || y == x by {
        if s.contains(y) {
            let i = choose|i: int| 0 <= i < s.len() && s[i] == y;
            assert(s.push(x)[i] == y);
        }
        if y == x {
            assert(s.push(x)[s.len() as int] == y);
        }
        if s.push(x).contains(y) {
            let i = choose|i: int| 0 <= i < s.push(x).len() && s.push(x)[i] == y;
            if i < s.len() {
                assert(s[i] == y);
            }
        }
    }
}

proof fn lemma_no_dup_push(s: Seq<Seq<char>>, x: Seq<char>)
    requires
        s.no_duplicates(),
        !s.contains(x),
    ensures
        s.push(x).no_duplicates(),
{
    assert forall|i: int, j: int|
        0 <= i < s.push(x).len() && 0 <= j < s.push(x).len() && i != j implies s.push(x)[i]
        != s.push(x)[j] by {
        if i < s.len() && j < s.len() {
        } else if i < s.len() {
            assert(s[i] == s.push(x)[i]);
            if s.push(x)[i] == x {
                assert(s.contains(x));
            }
        } else if j < s.len() {
            assert(s[j] == s.push(x)[j]);
            if s.push(x)[j] == x {
                assert(s.contains(x));
            }
        }
    }
}

} // verus!
