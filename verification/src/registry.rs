use std::sync::Arc;

use vstd::prelude::*;
use vstd::rwlock::RwLock;
use vstd::rwlock::RwLockPredicate;

use crate::client::DynClient;
use crate::strmap::keys_unique;
use crate::strmap::lemma_insert_replace;
use crate::strmap::lemma_pairs_to_map;
use crate::strmap::pairs_to_map;
use crate::text::str_eq;

verus! {

// The registry: route key to shared client handle. A client handle is a
// reference-counted pointer to an immutable-after-construction value, so a
// holder of a handle obtained before a replacement keeps a fully working
// client; `set` only redirects what later lookups see.

/// Relies on `Arc::clone` from std: another handle to the same value.
#[verifier::external_body]
fn clone_handle(v: &Arc<DynClient>) -> (r: Arc<DynClient>)
    ensures
        *r == **v,
{
    v.clone()
}

/// A concurrent-map interface from route key to a shared dynamic client,
/// with lookup and atomic install-or-replace.
pub trait DynMap: Sized {
    /// The association held: route key to backend name and client.
    spec fn entries_map(&self) -> Map<Seq<char>, (Seq<char>, DynClient)>;

    /// Well-formedness of the backing store.
    spec fn inv(&self) -> bool;

    /// The current client under the key, or absent. Reading never changes
    /// the registry, so two lookups of one key with no `set` between them
    /// return the same client.
    fn get(&self, path: String) -> (r: Option<Arc<DynClient>>)
        requires
            self.inv(),
        ensures
            match r {
                Some(c) => self.entries_map().contains_key(path@)
                    && *c == self.entries_map()[path@].1
                    && c.wf(),
                None => !self.entries_map().contains_key(path@),
            },
    ;

    /// Installs or replaces the entry under `path`. Nothing but the mapping
    /// changes: a client handle handed out earlier is untouched.
    fn set(&mut self, name: String, path: String, dc: DynClient)
        requires
            old(self).inv(),
            dc.wf(),
        ensures
            final(self).inv(),
            final(self).entries_map() == old(self).entries_map().insert(path@, (name@, dc)),
    ;
}

/// The registry this crate ships: an association list of shared handles.
pub struct DynMapDefault {
    entries: Vec<(String, String, Arc<DynClient>)>,
}

impl DynMapDefault {
    /// The ordered (key, (name, client)) pairs held.
    pub closed spec fn pairs(&self) -> Seq<(Seq<char>, (Seq<char>, DynClient))> {
        self.entries@.map_values(|e: (String, String, Arc<DynClient>)| (e.0@, (e.1@, *e.2)))
    }

    /// The empty registry.
    pub fn new() -> (r: DynMapDefault)
        ensures
            r.inv(),
            r.entries_map() == Map::<Seq<char>, (Seq<char>, DynClient)>::empty(),
    {
        let r = DynMapDefault { entries: Vec::new() };
        proof {
            assert(r.pairs() =~= Seq::<(Seq<char>, (Seq<char>, DynClient))>::empty());
        }
        r
    }

    /// How many routes are registered.
    pub fn len(&self) -> (n: usize)
        ensures
            n == self.pairs().len(),
    {
        self.entries.len()
    }
}

impl DynMap for DynMapDefault {
    closed spec fn entries_map(&self) -> Map<Seq<char>, (Seq<char>, DynClient)> {
        pairs_to_map(self.pairs())
    }

    closed spec fn inv(&self) -> bool {
        keys_unique(self.pairs())
        && forall|i: int| 0 <= i < self.pairs().len() ==> (#[trigger] self.pairs()[i]).1.1.wf()
    }

    fn get(&self, path: String) -> (r: Option<Arc<DynClient>>) {
        proof {
            lemma_pairs_to_map(self.pairs());
        }
        let n = self.entries.len();
        let mut i: usize = 0;
        while i < n
            invariant
                self.inv(),
                n == self.entries@.len(),
                i <= n,
                forall|j: int| 0 <= j < i ==> (#[trigger] self.pairs()[j]).0 != path@,
            decreases n - i,
        {
            if str_eq(self.entries[i].0.as_str(), path.as_str()) {
                proof {
                    lemma_pairs_to_map(self.pairs());
                    assert(self.pairs()[i as int].0 == path@);
                    assert(self.entries_map()[path@] == self.pairs()[i as int].1);
                }
                return Some(clone_handle(&self.entries[i].2));
            }
            i += 1;
        }
        proof {
            lemma_pairs_to_map(self.pairs());
        }
        None
    }

    fn set(&mut self, name: String, path: String, dc: DynClient) {
        let handle = Arc::new(dc);
        let ghost p_old = self.pairs();
        let n = self.entries.len();
        let mut found: Option<usize> = None;
        let mut i: usize = 0;
        while i < n
            invariant
                n == self.entries@.len(),
                i <= n,
                *self == *old(self),
                p_old == self.pairs(),
                match found {
                    Some(j) => j < i && p_old[j as int].0 == path@,
                    None => forall|j: int| 0 <= j < i ==> (#[trigger] p_old[j]).0 != path@,
                },
            decreases n - i,
        {
            if found.is_none() && str_eq(self.entries[i].0.as_str(), path.as_str()) {
                proof {
                    assert(p_old[i as int].0 == self.entries@[i as int].0@);
                }
                found = Some(i);
            }
            i += 1;
        }
        match found {
            Some(j) => {
                let _ = self.entries.remove(j);
                self.entries.push((path, name, handle));
                proof {
                    let p_new = self.pairs();
                    assert(p_new =~= p_old.remove(j as int).push((path@, (name@, dc))));
                    lemma_insert_replace(p_old, j as int, path@, (name@, dc));
                    p_old.remove_ensures(j as int);
                    assert forall|i: int| 0 <= i < p_new.len()
                        implies (#[trigger] p_new[i]).1.1.wf() by {
                        if i < p_new.len() - 1 {
                            assert(p_new[i] == if i < j { p_old[i] } else { p_old[i + 1] });
                        }
                    }
                }
            },
            None => {
                self.entries.push((path, name, handle));
                proof {
                    let p_new = self.pairs();
                    assert(p_new =~= p_old.push((path@, (name@, dc))));
                    assert(p_new.drop_last() =~= p_old);
                    assert(keys_unique(p_new));
                    assert(pairs_to_map(p_new) == pairs_to_map(p_old).insert(path@, (name@, dc)));
                    assert forall|i: int| 0 <= i < p_new.len()
                        implies (#[trigger] p_new[i]).1.1.wf() by {
                        if i < p_new.len() - 1 {
                            assert(p_new[i] == p_old[i]);
                        }
                    }
                }
            },
        }
    }
}

/// The predicate the registry lock maintains: the store's invariant.
pub struct RegistryPred;

impl RwLockPredicate<DynMapDefault> for RegistryPred {
    open spec fn inv(self, v: DynMapDefault) -> bool {
        v.inv()
    }
}

/// The registry as live traffic shares it: the default store behind a
/// reader/writer lock. A lookup holds the lock only for its bounded scan; an
/// install holds it only for one in-place replacement — the reflection
/// handshake that produced the client completed before the lock is taken. A
/// reader sees the store before or after a concurrent install, never a torn
/// one, and the handle it returns stays fully usable after any later
/// install.
pub struct SharedRegistry {
    lock: RwLock<DynMapDefault, RegistryPred>,
}

impl SharedRegistry {
    /// An empty shared registry.
    pub fn new() -> SharedRegistry {
        SharedRegistry { lock: RwLock::new(DynMapDefault::new(), Ghost(RegistryPred)) }
    }

    /// The client a consistent state of the registry holds under the key,
    /// or absent.
    pub fn get(&self, path: String) -> (r: Option<Arc<DynClient>>)
        ensures
            match r {
                Some(c) => c.wf(),
                None => true,
            },
    {
        let handle = self.lock.acquire_read();
        let r = handle.borrow().get(path);
        handle.release_read();
        r
    }

    /// Atomically installs or replaces the entry under `path`; in-flight
    /// holders of an earlier handle are untouched.
    pub fn set(&self, name: String, path: String, dc: DynClient)
        requires
            dc.wf(),
    {
        let (mut m, write_handle) = self.lock.acquire_write();
        m.set(name, path, dc);
        write_handle.release_write(m);
    }
}

/// Identity stability: whatever two lookups of one key return, with no
/// install between them, they return the same client.
pub proof fn lemma_get_stable(
    m: Map<Seq<char>, (Seq<char>, DynClient)>,
    path: Seq<char>,
    r1: Option<DynClient>,
    r2: Option<DynClient>,
)
    requires
        match r1 {
            Some(c) => m.contains_key(path) && c == m[path].1,
            None => !m.contains_key(path),
        },
        match r2 {
            Some(c) => m.contains_key(path) && c == m[path].1,
            None => !m.contains_key(path),
        },
    ensures
        r1 == r2,
{
}

/// Replacement safety: installing a new client under a key redirects that
/// key alone; every other entry, and any client value read out before the
/// install, is exactly what it was.
pub proof fn lemma_replacement_safety(
    before: Map<Seq<char>, (Seq<char>, DynClient)>,
    after: Map<Seq<char>, (Seq<char>, DynClient)>,
    name: Seq<char>,
    path: Seq<char>,
    dc: DynClient,
    held: DynClient,
)
    requires
        after == before.insert(path, (name, dc)),
        before.contains_key(path) && held == before[path].1,
    ensures
        after.contains_key(path) && after[path].1 == dc,
        forall|k: Seq<char>| k != path ==> (#[trigger] after.contains_key(k) <==> before.contains_key(k)),
        forall|k: Seq<char>| k != path && after.contains_key(k) ==> (#[trigger] after[k]) == before[k],
        held == before[path].1,
{
}

} // verus!
