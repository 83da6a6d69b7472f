//! The directory client the engine consults during initialization.
//!
//! Resolution of a handle to a repository identifier is the business of an
//! external directory service; the engine only reads its answers.  A
//! [`Client`] therefore carries the answers as a plain lookup table of
//! `(handle, identifier)` pairs: the host performs the network calls, records
//! each successful resolution as an entry, and hands the table to
//! [`init`](crate::filter::Filter::init).  A handle without an entry is one
//! the service could not resolve.

use vstd::prelude::*;

use crate::text::str_eq;

verus! {

/// One successful resolution: a handle and the identifier it named.
#[derive(Debug)]
pub struct DirectoryEntry {
    /// The human-readable handle that was resolved.
    pub handle: String,
    /// The repository identifier the handle resolved to.
    pub did: String,
}

/// A snapshot of directory answers: handle-to-identifier pairs in the order
/// the host recorded them.  Lookup takes the first entry for a handle.
#[derive(Debug)]
pub struct Client {
    /// The recorded resolutions.
    pub entries: Vec<DirectoryEntry>,
}

/// The identifier of the first entry of `s` whose handle is `h`, if any.
pub open spec fn resolve_in(s: Seq<DirectoryEntry>, h: Seq<char>) -> Option<Seq<char>>
    decreases s.len(),
{
    if s.len() == 0 {
        None
    } else if s[0].handle@ == h {
        Some(s[0].did@)
    } else {
        resolve_in(s.drop_first(), h)
    }
}

impl Client {
    /// What this snapshot resolves `h` to, if anything.
    pub open spec fn spec_resolve(self, h: Seq<char>) -> Option<Seq<char>> {
        resolve_in(self.entries@, h)
    }

    /// An empty snapshot: no handle resolves.
    pub fn new() -> (r: Client)
        ensures
            r.entries@.len() == 0,
    {
        Client { entries: Vec::new() }
    }

    /// Record that `handle` resolved to `did`.
    pub fn add(&mut self, handle: &str, did: &str)
        ensures
            final(self).entries@.len() == old(self).entries@.len() + 1,
            forall|h: Seq<char>|
                #[trigger] final(self).spec_resolve(h) == if old(self).spec_resolve(h) is Some {
                    old(self).spec_resolve(h)
                } else if h == handle@ {
                    Some(did@)
                } else {
                    None::<Seq<char>>
                },
    {
        let entry = DirectoryEntry { handle: handle.to_owned(), did: did.to_owned() };
        self.entries.push(entry);
        proof {
            assert forall|h: Seq<char>|
                #[trigger] self.spec_resolve(h) == if old(self).spec_resolve(h) is Some {
                    old(self).spec_resolve(h)
                } else if h == handle@ {
                    Some(did@)
                } else {
                    None::<Seq<char>>
                } by {
                lemma_resolve_in_push(old(self).entries@, entry, h);
            }
        }
    }

    /// Look up the identifier this snapshot resolves `handle` to.
    pub fn get_handle(&self, handle: &str) -> (r: Option<String>)
        ensures
            match r {
                Some(d) => self.spec_resolve(handle@) == Some(d@),
                None => self.spec_resolve(handle@) is None,
            },
    {
        let n = self.entries.len();
        let mut i: usize = 0;
        proof {
            assert(self.entries@.skip(0) =~= self.entries@);
        }
        while i < n
            invariant
                n == self.entries@.len(),
                i <= n,
                resolve_in(self.entries@.skip(i as int), handle@) == self.spec_resolve(handle@),
            decreases n - i,
        {
            let ghost rest = self.entries@.skip(i as int);
            proof {
                assert(rest.len() > 0);
                assert(rest[0] == self.entries@[i as int]);
                assert(rest.drop_first() =~= self.entries@.skip(i as int + 1));
            }
            if str_eq(self.entries[i].handle.as_str(), handle) {
                let did = self.entries[i].did.clone();
                return Some(did);
            }
            i = i + 1;
        }
        proof {
            assert(self.entries@.skip(n as int) =~= Seq::<DirectoryEntry>::empty());
        }
        None
    }
}

proof fn lemma_resolve_in_push(s: Seq<DirectoryEntry>, e: DirectoryEntry, h: Seq<char>)
    ensures
        resolve_in(s.push(e), h) == if resolve_in(s, h) is Some {
            resolve_in(s, h)
        } else if h == e.handle@ {
            Some(e.did@)
        } else {
            None::<Seq<char>>
        },
    decreases s.len(),
{
    if s.len() == 0 {
        assert(s.push(e)[0] == e);
        assert(s.push(e).len() == 1);
        assert(s.push(e).drop_first() =~= Seq::<DirectoryEntry>::empty());
        assert(resolve_in(Seq::<DirectoryEntry>::empty(), h) is None);
        assert(resolve_in(s, h) is None);
    } else {
        assert(s.push(e)[0] == s[0]);
        assert(s.push(e).drop_first() =~= s.drop_first().push(e));
        lemma_resolve_in_push(s.drop_first(), e, h);
    }
}

} // verus!
