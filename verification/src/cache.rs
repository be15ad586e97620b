//! Resource cache: remembers the handle of each resource under the content
//! id that it was made for, so that a resource is made once per id.
use std::collections::HashMap;
use vstd::prelude::*;

verus! {

/// Cache of resource handles by content id. It never forgets an id.
pub struct ResourceCache<H> {
    hash_map: HashMap<u32, H>,
}

/// The cache after a handle was asked for under `id`: as it was where the
/// id was known, else with `created` stored under the id.
pub open spec fn after_item<H>(cache: Map<u32, H>, id: u32, created: H) -> Map<u32, H> {
    if cache.contains_key(id) {
        cache
    } else {
        cache.insert(id, created)
    }
}

/// Whether asking for a handle under `id` makes a resource: only where the id is not known.
pub open spec fn item_creates<H>(cache: Map<u32, H>, id: u32) -> bool {
    !cache.contains_key(id)
}

/// Asking twice for the same id makes at most one resource: whatever the
/// first request found, the second finds the id known, makes nothing,
/// leaves the cache as it is and is served the handle that the first
/// request left under the id.
pub proof fn lemma_item_creates_once<H>(cache: Map<u32, H>, id: u32, first: H, second: H)
    ensures
        !item_creates(after_item(cache, id, first), id),
        after_item(after_item(cache, id, first), id, second) == after_item(cache, id, first),
        after_item(cache, id, first)[id] == if cache.contains_key(id) {
            cache[id]
        } else {
            first
        },
        item_creates(cache, id) ==> after_item(cache, id, first)[id] == first,
{
}

impl<H: Clone> ResourceCache<H> {
    /// The handles of the cache by their content ids.
    pub closed spec fn view(&self) -> Map<u32, H> {
        self.hash_map@
    }

    /// A cache that knows no id.
    pub fn new() -> (cache: Self)
        ensures
            cache@ == Map::<u32, H>::empty(),
    {
        ResourceCache { hash_map: HashMap::new() }
    }

    /// A copy of the handle stored under `id`, if the id is known.
    pub fn cached(&self, id: u32) -> (handle: Option<H>)
        ensures
            handle is Some == self@.contains_key(id),
            handle is Some ==> cloned(self@[id], handle->Some_0),
    {
        match self.hash_map.get(&id) {
            Some(handle) => Some(handle.clone()),
            None => None,
        }
    }

    /// Stores `handle` under `id`, in place of the handle that the id had.
    pub fn cache(&mut self, handle: H, id: u32)
        ensures
            final(self)@ == old(self)@.insert(id, handle),
    {
        self.hash_map.insert(id, handle);
    }

    /// The handle for `id`: a copy of the one stored where the id is known;
    /// else the one that `create` makes, a copy of which is stored under the id.
    pub fn item<F: FnOnce() -> H>(&mut self, id: u32, create: F) -> (handle: H)
        requires
            call_requires(create, ()),
        ensures
            !item_creates(old(self)@, id) ==> final(self)@ == old(self)@ && cloned(
                old(self)@[id],
                handle,
            ),
            item_creates(old(self)@, id) ==> call_ensures(create, (), handle) && cloned(
                handle,
                final(self)@[id],
            ) && final(self)@ == after_item(old(self)@, id, final(self)@[id]),
    {
        match self.cached(id) {
            Some(cached) => cached,
            None => {
                let new = create();
                self.cache(new.clone(), id);
                new
            },
        }
    }
}

} // verus!
