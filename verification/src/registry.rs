//! The filter registry: an ordered collection of named rules, with
//! name-based routing of the mutation operations and a deep-copy snapshot.

use vstd::prelude::*;

use crate::directory::Client;
use crate::errors::FilterError;
use crate::filter::Filter;
use crate::keywords::Keywords;
use crate::subscribes::{lemma_remove_all_not_contains, Subscribes};
use crate::text::{str_eq, views_of};

verus! {

/// `i` is the position of the first rule of `s` named `name`.
pub open spec fn is_first_named(s: Seq<Filter>, name: Seq<char>, i: int) -> bool {
    &&& 0 <= i < s.len()
    &&& s[i].name@ == name
    &&& forall|k: int| 0 <= k < i ==> s[k].name@ != name
}

/// The position of the first rule of `s` named `name`; meaningful only
/// when some rule has that name (see [`lemma_first_named_exists`]).
pub open spec fn first_named(s: Seq<Filter>, name: Seq<char>) -> int {
    choose|i: int| is_first_named(s, name, i)
}

proof fn lemma_min_witness(s: Seq<Filter>, name: Seq<char>, w: int)
    requires
        0 <= w < s.len(),
        s[w].name@ == name,
    ensures
        exists|i: int| is_first_named(s, name, i),
    decreases w,
{
    if forall|k: int| 0 <= k < w ==> s[k].name@ != name {
        assert(is_first_named(s, name, w));
    } else {
        let k = choose|k: int| 0 <= k < w && s[k].name@ == name;
        lemma_min_witness(s, name, k);
    }
}

/// When some rule of `s` carries `name`, `first_named` points at the first
/// one.
pub proof fn lemma_first_named_exists(s: Seq<Filter>, name: Seq<char>)
    requires
        exists|i: int| 0 <= i < s.len() && s[i].name@ == name,
    ensures
        is_first_named(s, name, first_named(s, name)),
{
    let w = choose|i: int| 0 <= i < s.len() && s[i].name@ == name;
    lemma_min_witness(s, name, w);
}

/// The ordered set of filter rules.  Order is insertion order; it is
/// irrelevant to matching and visible only in the snapshot.  Lookup by name
/// takes the first rule with that name.
#[derive(Debug)]
pub struct Filters {
    /// The rules, in configuration order.
    pub filters: Vec<Filter>,
}

impl Filters {
    /// Some rule carries `name`.
    pub open spec fn spec_has_name(self, name: Seq<char>) -> bool {
        exists|i: int| 0 <= i < self.filters@.len() && self.filters@[i].name@ == name
    }

    /// How `init` changes the registry: every rule is initialized, in
    /// order, each against the same directory snapshot; one rule's
    /// unresolvable handles do not disturb the others.
    pub open spec fn init_post(pre: Filters, post: Filters, client: Client) -> bool {
        &&& post.filters@.len() == pre.filters@.len()
        &&& forall|i: int|
            0 <= i < pre.filters@.len() ==> Filter::init_post(
                pre.filters@[i],
                #[trigger] post.filters@[i],
                client,
            )
    }

    /// How a routed mutation leaves the registry when the target exists:
    /// only the first rule named `name` changes, and it changes as `rule_post`
    /// says of its pre- and post-state.
    pub open spec fn routed_post(
        pre: Filters,
        post: Filters,
        name: Seq<char>,
        rule_post: spec_fn(Filter, Filter) -> bool,
    ) -> bool {
        if !pre.spec_has_name(name) {
            post == pre
        } else {
            let i = first_named(pre.filters@, name);
            &&& is_first_named(pre.filters@, name, i)
            &&& post.filters@.len() == pre.filters@.len()
            &&& forall|j: int|
                0 <= j < pre.filters@.len() && j != i ==> #[trigger] post.filters@[j]
                    == pre.filters@[j]
            &&& rule_post(pre.filters@[i], post.filters@[i])
        }
    }

    /// An empty registry.
    pub fn new() -> (r: Filters)
        ensures
            r.filters@.len() == 0,
    {
        Filters { filters: Vec::new() }
    }

    /// Initialize every rule against the directory snapshot, in order.
    pub fn init(&mut self, client: &Client)
        ensures
            Filters::init_post(*old(self), *final(self), *client),
    {
        let n = self.filters.len();
        let mut i: usize = 0;
        while i < n
            invariant
                n == self.filters@.len(),
                n == old(self).filters@.len(),
                i <= n,
                forall|j: int| i <= j < n ==> #[trigger] self.filters@[j] == old(self).filters@[j],
                forall|j: int|
                    0 <= j < i ==> Filter::init_post(
                        old(self).filters@[j],
                        #[trigger] self.filters@[j],
                        *client,
                    ),
            decreases n - i,
        {
            let ghost prev = self.filters@;
            let mut f = self.filters.remove(i);
            f.init(client);
            self.filters.insert(i, f);
            proof {
                assert(self.filters@ =~= prev.update(i as int, f));
            }
            i = i + 1;
        }
    }

    /// A deep copy of all rules, in order.  Later mutation of the registry
    /// leaves a previously taken snapshot untouched.
    pub fn get_filters(&self) -> (r: Vec<Filter>)
        ensures
            r@.len() == self.filters@.len(),
            forall|i: int|
                0 <= i < r@.len() ==> Filter::view_eq(self.filters@[i], #[trigger] r@[i]),
    {
        let n = self.filters.len();
        let mut out: Vec<Filter> = Vec::new();
        let mut i: usize = 0;
        while i < n
            invariant
                n == self.filters@.len(),
                i <= n,
                out@.len() == i,
                forall|j: int|
                    0 <= j < i ==> Filter::view_eq(self.filters@[j], #[trigger] out@[j]),
            decreases n - i,
        {
            let copy = copy_filter(&self.filters[i]);
            out.push(copy);
            i = i + 1;
        }
        out
    }

    fn find_index(&self, name: &str) -> (r: Option<usize>)
        ensures
            match r {
                Some(i) => is_first_named(self.filters@, name@, i as int),
                None => !self.spec_has_name(name@),
            },
    {
        let n = self.filters.len();
        let mut i: usize = 0;
        while i < n
            invariant
                n == self.filters@.len(),
                i <= n,
                forall|k: int| 0 <= k < i ==> self.filters@[k].name@ != name@,
            decreases n - i,
        {
            if str_eq(self.filters[i].name.as_str(), name) {
                return Some(i);
            }
            i = i + 1;
        }
        None
    }

    /// Append `did` to the identifier list of the first rule named `name`.
    /// Fails with `NoSuchFilter` iff no rule has that name.
    pub fn subscribe_repo(&mut self, name: &str, did: &str) -> (r: Result<(), FilterError>)
        ensures
            r is Ok <==> old(self).spec_has_name(name@),
            !old(self).spec_has_name(name@) ==> r == Err::<(), FilterError>(
                FilterError::NoSuchFilter,
            ),
            Filters::routed_post(
                *old(self),
                *final(self),
                name@,
                (|pre: Filter, post: Filter| Filter::subscribe_repo_post(pre, post, did@)),
            ),
    {
        match self.find_index(name) {
            None => Err(FilterError::NoSuchFilter),
            Some(i) => {
                proof {
                    lemma_route(*old(self), name@, i as int);
                }
                let ghost prev = self.filters@;
                let mut f = self.filters.remove(i);
                let r = f.subscribe_repo(did);
                self.filters.insert(i, f);
                proof {
                    assert(self.filters@ =~= prev.update(i as int, f));
                }
                r
            },
        }
    }

    /// Remove every occurrence of `did` from the identifier list of the
    /// first rule named `name`.  Fails with `NoSuchFilter` iff no rule has
    /// that name, and with `NotFound` iff the rule's identifier list was
    /// never set.
    pub fn unsubscribe_repo(&mut self, name: &str, did: &str) -> (r: Result<(), FilterError>)
        ensures
            !old(self).spec_has_name(name@) ==> r == Err::<(), FilterError>(
                FilterError::NoSuchFilter,
            ),
            old(self).spec_has_name(name@) ==> {
                let target = old(self).filters@[first_named(old(self).filters@, name@)];
                &&& (r is Ok <==> target.sub_dids_opt() is Some)
                &&& (target.sub_dids_opt() is None ==> r == Err::<(), FilterError>(
                    FilterError::NotFound,
                ))
            },
            Filters::routed_post(
                *old(self),
                *final(self),
                name@,
                (|pre: Filter, post: Filter|
                    {
                        if pre.sub_dids_opt() is Some {
                            Filter::unsubscribe_repo_post(pre, post, did@)
                        } else {
                            post == pre
                        }
                    }),
            ),
    {
        match self.find_index(name) {
            None => Err(FilterError::NoSuchFilter),
            Some(i) => {
                proof {
                    lemma_route(*old(self), name@, i as int);
                }
                let ghost prev = self.filters@;
                let mut f = self.filters.remove(i);
                let r = f.unsubscribe_repo(did);
                self.filters.insert(i, f);
                proof {
                    assert(self.filters@ =~= prev.update(i as int, f));
                }
                r
            },
        }
    }

    /// Append `handle` to the handle list of the first rule named `name`.
    /// Fails with `NoSuchFilter` iff no rule has that name.
    pub fn subscribe_handle(&mut self, name: &str, handle: &str) -> (r: Result<(), FilterError>)
        ensures
            r is Ok <==> old(self).spec_has_name(name@),
            !old(self).spec_has_name(name@) ==> r == Err::<(), FilterError>(
                FilterError::NoSuchFilter,
            ),
            Filters::routed_post(
                *old(self),
                *final(self),
                name@,
                (|pre: Filter, post: Filter| Filter::subscribe_handle_post(pre, post, handle@)),
            ),
    {
        match self.find_index(name) {
            None => Err(FilterError::NoSuchFilter),
            Some(i) => {
                proof {
                    lemma_route(*old(self), name@, i as int);
                }
                let ghost prev = self.filters@;
                let mut f = self.filters.remove(i);
                let r = f.subscribe_handle(handle);
                self.filters.insert(i, f);
                proof {
                    assert(self.filters@ =~= prev.update(i as int, f));
                }
                r
            },
        }
    }

    /// Remove every occurrence of `handle` from the handle list of the
    /// first rule named `name`.  Fails with `NoSuchFilter` iff no rule has
    /// that name, and with `NotFound` iff the rule's handle list was never
    /// set.
    pub fn unsubscribe_handle(&mut self, name: &str, handle: &str) -> (r: Result<(), FilterError>)
        ensures
            !old(self).spec_has_name(name@) ==> r == Err::<(), FilterError>(
                FilterError::NoSuchFilter,
            ),
            old(self).spec_has_name(name@) ==> {
                let target = old(self).filters@[first_named(old(self).filters@, name@)];
                &&& (r is Ok <==> target.sub_handles_opt() is Some)
                &&& (target.sub_handles_opt() is None ==> r == Err::<(), FilterError>(
                    FilterError::NotFound,
                ))
            },
            Filters::routed_post(
                *old(self),
                *final(self),
                name@,
                (|pre: Filter, post: Filter|
                    {
                        if pre.sub_handles_opt() is Some {
                            Filter::unsubscribe_handle_post(pre, post, handle@)
                        } else {
                            post == pre
                        }
                    }),
            ),
    {
        match self.find_index(name) {
            None => Err(FilterError::NoSuchFilter),
            Some(i) => {
                proof {
                    lemma_route(*old(self), name@, i as int);
                }
                let ghost prev = self.filters@;
                let mut f = self.filters.remove(i);
                let r = f.unsubscribe_handle(handle);
                self.filters.insert(i, f);
                proof {
                    assert(self.filters@ =~= prev.update(i as int, f));
                }
                r
            },
        }
    }
}

/// The round trip of the routed mutations: `subscribe_repo(name, did)`
/// followed by `unsubscribe_repo(name, did)` leaves the addressed rule not
/// matching `did` — the remove takes out the added occurrence and every
/// older one.
pub proof fn lemma_subscribe_unsubscribe_round_trip(
    fs0: Filters,
    fs1: Filters,
    fs2: Filters,
    name: Seq<char>,
    did: Seq<char>,
)
    requires
        fs0.spec_has_name(name),
        Filters::routed_post(
            fs0,
            fs1,
            name,
            (|pre: Filter, post: Filter| Filter::subscribe_repo_post(pre, post, did)),
        ),
        Filters::routed_post(
            fs1,
            fs2,
            name,
            (|pre: Filter, post: Filter|
                {
                    if pre.sub_dids_opt() is Some {
                        Filter::unsubscribe_repo_post(pre, post, did)
                    } else {
                        post == pre
                    }
                }),
        ),
    ensures
        ({
            let i = first_named(fs0.filters@, name);
            &&& is_first_named(fs2.filters@, name, i)
            &&& !fs2.filters@[i].spec_subscribed(did)
        }),
{
    let i = first_named(fs0.filters@, name);
    lemma_first_named_exists(fs0.filters@, name);
    assert(Filter::subscribe_repo_post(fs0.filters@[i], fs1.filters@[i], did));
    assert forall|k: int| 0 <= k < i implies fs1.filters@[k].name@ != name by {
        assert(fs1.filters@[k] == fs0.filters@[k]);
    }
    assert(is_first_named(fs1.filters@, name, i));
    lemma_route(fs1, name, i);
    assert(fs1.filters@[i].sub_dids_opt() is Some);
    assert(Filter::unsubscribe_repo_post(fs1.filters@[i], fs2.filters@[i], did));
    lemma_remove_all_not_contains(fs1.filters@[i].sub_dids(), did);
    assert forall|k: int| 0 <= k < i implies fs2.filters@[k].name@ != name by {
        assert(fs2.filters@[k] == fs1.filters@[k]);
    }
}

/// A first-named position pins down `first_named` and `spec_has_name`.
proof fn lemma_route(pre: Filters, name: Seq<char>, i: int)
    requires
        is_first_named(pre.filters@, name, i),
    ensures
        pre.spec_has_name(name),
        first_named(pre.filters@, name) == i,
{
    assert(pre.spec_has_name(name));
    lemma_first_named_exists(pre.filters@, name);
    let f = first_named(pre.filters@, name);
    if f < i {
        assert(pre.filters@[f].name@ != name);
    }
    if i < f {
        assert(pre.filters@[i].name@ != name);
    }
}

/// A fresh vector holding strings with the same characters as those of `v`.
fn copy_string_vec(v: &Vec<String>) -> (r: Vec<String>)
    ensures
        views_of(r@) == views_of(v@),
{
    let n = v.len();
    let mut out: Vec<String> = Vec::new();
    let mut i: usize = 0;
    while i < n
        invariant
            n == v@.len(),
            i <= n,
            out@.len() == i,
            forall|j: int| 0 <= j < i ==> #[trigger] out@[j]@ == v@[j]@,
        decreases n - i,
    {
        out.push(v[i].clone());
        i = i + 1;
    }
    proof {
        assert(views_of(out@) =~= views_of(v@));
    }
    out
}

/// A fresh optional list with the same presence and the same characters.
fn copy_opt_vec(v: &Option<Vec<String>>) -> (r: Option<Vec<String>>)
    ensures
        r is Some <==> v is Some,
        r is Some ==> views_of(r->Some_0@) == views_of(v->Some_0@),
{
    match v {
        Some(inner) => Some(copy_string_vec(inner)),
        None => None,
    }
}

/// A deep copy of one rule, agreeing with the original on name and lists.
fn copy_filter(f: &Filter) -> (r: Filter)
    ensures
        Filter::view_eq(*f, r),
{
    let subscribes = match &f.subscribes {
        Some(s) => Some(
            Subscribes { dids: copy_opt_vec(&s.dids), handles: copy_opt_vec(&s.handles) },
        ),
        None => None,
    };
    let keywords = match &f.keywords {
        Some(k) => Some(
            Keywords { includes: copy_opt_vec(&k.includes), excludes: copy_opt_vec(&k.excludes) },
        ),
        None => None,
    };
    Filter { name: f.name.clone(), subscribes, keywords }
}

} // verus!
