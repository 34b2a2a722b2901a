use std::collections::HashMap;
use vstd::prelude::*;
use vstd::std_specs::hash::{axiom_spec_keys_iter, spec_keys_iter};
use vstd::std_specs::iter::IteratorSpec;

verus! {

broadcast use vstd::std_specs::hash::group_hash_axioms;

/// The registrations of one chunk after `client_id` registers with flag
/// `is_authority`.
pub open spec fn registered(
    regs: Map<u32, Map<i32, bool>>,
    is_authority: bool,
    client_id: i32,
    chunk_id: u32,
) -> Map<u32, Map<i32, bool>> {
    let clients = if regs.contains_key(chunk_id) {
        regs[chunk_id]
    } else {
        Map::empty()
    };
    regs.insert(chunk_id, clients.insert(client_id, is_authority))
}

/// The registrations after `client_id` leaves `chunk_id`.
pub open spec fn deregistered(regs: Map<u32, Map<i32, bool>>, client_id: i32, chunk_id: u32) -> Map<
    u32,
    Map<i32, bool>,
> {
    if regs.contains_key(chunk_id) {
        regs.insert(chunk_id, regs[chunk_id].remove(client_id))
    } else {
        regs
    }
}

/// The clients registered for `chunk_id`.
pub open spec fn subscribers(regs: Map<u32, Map<i32, bool>>, chunk_id: u32) -> Set<i32> {
    if regs.contains_key(chunk_id) {
        regs[chunk_id].dom()
    } else {
        Set::empty()
    }
}

/// For each chunk, the clients that want to hear of its changes, each with
/// whether it registered as the authority.
pub struct ChunkChangeRegistrations {
    pub registrations: HashMap<u32, HashMap<i32, bool>>,
}

impl View for ChunkChangeRegistrations {
    type V = Map<u32, Map<i32, bool>>;

    open spec fn view(&self) -> Map<u32, Map<i32, bool>> {
        self.registrations@.map_values(|m: HashMap<i32, bool>| m@)
    }
}

impl ChunkChangeRegistrations {
    /// No registrations.
    pub fn new() -> (r: ChunkChangeRegistrations)
        ensures
            r@ == Map::<u32, Map<i32, bool>>::empty(),
    {
        let r = ChunkChangeRegistrations { registrations: HashMap::new() };
        assert(r@ =~= Map::<u32, Map<i32, bool>>::empty());
        r
    }

    /// Records that `client_id` wants changes of `chunk_id`, replacing any
    /// earlier registration of that client for that chunk.
    pub fn register_for_chunk_changes(&mut self, is_authority: bool, client_id: i32, chunk_id: u32)
        ensures
            final(self)@ == registered(old(self)@, is_authority, client_id, chunk_id),
    {
        let mut clients = match self.registrations.remove(&chunk_id) {
            Some(c) => c,
            None => HashMap::new(),
        };
        let ghost before = clients@;
        clients.insert(client_id, is_authority);
        self.registrations.insert(chunk_id, clients);
        proof {
            if old(self)@.contains_key(chunk_id) {
                assert(before == old(self)@[chunk_id]);
            } else {
                assert(before == Map::<i32, bool>::empty());
            }
            assert(self@ =~= registered(old(self)@, is_authority, client_id, chunk_id));
        }
    }

    /// Removes the registration of `client_id` for `chunk_id`, if there is
    /// one.
    pub fn deregister_for_chunk_changes(&mut self, client_id: i32, chunk_id: u32)
        ensures
            final(self)@ == deregistered(old(self)@, client_id, chunk_id),
    {
        match self.registrations.remove(&chunk_id) {
            Some(mut clients) => {
                assert(clients@ == old(self)@[chunk_id]);
                clients.remove(&client_id);
                self.registrations.insert(chunk_id, clients);
                assert(self@ =~= deregistered(old(self)@, client_id, chunk_id));
            },
            None => {
                assert(self@ =~= old(self)@);
            },
        }
    }

    /// The clients registered for `chunk_id`, each once; empty when nobody
    /// is.
    pub fn subscribers_of(&self, chunk_id: u32) -> (r: Vec<i32>)
        ensures
            r@.to_set() == subscribers(self@, chunk_id),
            r@.no_duplicates(),
    {
        let mut out: Vec<i32> = Vec::new();
        match self.registrations.get(&chunk_id) {
            Some(clients) => {
                let ghost all = spec_keys_iter(clients).remaining();
                proof {
                    axiom_spec_keys_iter(clients);
                }
                for client in it: clients.keys()
                    invariant
                        it.seq() == all,
                        out@ == all.take(it.index() as int).map_values(|c: &i32| *c),
                {
                    out.push(*client);
                    proof {
                        assert(out@ =~= all.take(it.index() + 1).map_values(|c: &i32| *c));
                    }
                }
                proof {
                    assert(out@ =~= all.map_values(|c: &i32| *c));
                    assert(out@ =~= all.unref());
                    assert(subscribers(self@, chunk_id) == clients@.dom());
                }
            },
            None => {},
        }
        out
    }

    /// Every chunk with a registration entry, each once, with its
    /// subscribers.
    pub fn list_registrations(&self) -> (r: Vec<(u32, Vec<i32>)>)
        ensures
            r@.map_values(|e: (u32, Vec<i32>)| e.0).to_set() == self@.dom(),
            r@.map_values(|e: (u32, Vec<i32>)| e.0).no_duplicates(),
            forall|i: int| 0 <= i < r@.len() ==> (#[trigger] r@[i]).1@.to_set() == self@[r@[i].0].dom()
                && r@[i].1@.no_duplicates(),
    {
        let mut out: Vec<(u32, Vec<i32>)> = Vec::new();
        let ghost all = spec_keys_iter(&self.registrations).remaining();
        proof {
            axiom_spec_keys_iter(&self.registrations);
        }
        for id in it: self.registrations.keys()
            invariant
                it.seq() == all,
                all.unref().to_set() == self@.dom(),
                out@.map_values(|e: (u32, Vec<i32>)| e.0) == all.take(it.index() as int).map_values(
                    |c: &u32| *c,
                ),
                forall|i: int| 0 <= i < out@.len() ==> (#[trigger] out@[i]).1@.to_set() == self@[out@[i].0].dom()
                    && out@[i].1@.no_duplicates(),
        {
            let ghost before = out@;
            assert(all.unref().contains(*id));
            assert(self@.contains_key(*id));
            let subs = self.subscribers_of(*id);
            out.push((*id, subs));
            proof {
                assert(out@.map_values(|e: (u32, Vec<i32>)| e.0) =~= before.map_values(
                    |e: (u32, Vec<i32>)| e.0,
                ).push(*id));
                assert(out@.map_values(|e: (u32, Vec<i32>)| e.0) =~= all.take(it.index() + 1).map_values(
                    |c: &u32| *c,
                ));
            }
        }
        proof {
            assert(out@.map_values(|e: (u32, Vec<i32>)| e.0) =~= all.unref());
        }
        out
    }
}

} // verus!
