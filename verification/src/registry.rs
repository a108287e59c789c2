//! The client registry: which ids are connected, and the write handle of each.

use std::collections::HashMap;
use vstd::prelude::*;
use vstd::std_specs::hash::*;

verus! {

broadcast use group_hash_axioms;

/// One live connection: the id that the client declared and the handle on
/// which frames are written to it.
pub struct ConnectedClient<H> {
    pub id: u32,
    pub stream: H,
}

impl<H> ConnectedClient<H> {
    pub fn new(id: u32, stream: H) -> (client: Self)
        ensures
            client.id == id,
            client.stream == stream,
    {
        ConnectedClient { id, stream }
    }

    pub fn id(&self) -> (id: u32)
        ensures
            id == self.id,
    {
        self.id
    }

    pub fn stream(&self) -> (stream: &H)
        ensures
            *stream == self.stream,
    {
        &self.stream
    }
}

/// The clients that are connected, by id.
pub struct ClientRegistry<H> {
    clients: HashMap<u32, ConnectedClient<H>>,
}

impl<H> View for ClientRegistry<H> {
    type V = Map<u32, ConnectedClient<H>>;

    closed spec fn view(&self) -> Map<u32, ConnectedClient<H>> {
        self.clients@
    }
}

impl<H> ClientRegistry<H> {
    /// Every entry is filed under its own id, and there are finitely many.
    pub open spec fn wf(&self) -> bool {
        &&& self@.dom().finite()
        &&& forall|id: u32| #[trigger] self@.contains_key(id) ==> self@[id].id == id
    }

    /// A registry without clients.
    pub fn new() -> (registry: Self)
        ensures
            registry.wf(),
            registry@ == Map::<u32, ConnectedClient<H>>::empty(),
    {
        ClientRegistry { clients: HashMap::new() }
    }

    /// Files `client` under its id. A client already filed under that id is
    /// displaced and handed back: the last registration wins.
    pub fn register(&mut self, client: ConnectedClient<H>) -> (displaced: Option<
        ConnectedClient<H>,
    >)
        requires
            old(self).wf(),
        ensures
            final(self).wf(),
            final(self)@ == old(self)@.insert(client.id, client),
            displaced == if old(self)@.contains_key(client.id) {
                Some(old(self)@[client.id])
            } else {
                None
            },
    {
        let id: u32 = client.id;
        self.clients.insert(id, client)
    }

    /// Takes the client filed under `id` out of the registry, if there is one.
    pub fn remove(&mut self, id: u32) -> (removed: Option<ConnectedClient<H>>)
        requires
            old(self).wf(),
        ensures
            final(self).wf(),
            final(self)@ == old(self)@.remove(id),
            removed == if old(self)@.contains_key(id) {
                Some(old(self)@[id])
            } else {
                None
            },
    {
        self.clients.remove(&id)
    }

    /// The client filed under `id`.
    pub fn get(&self, id: u32) -> (found: Option<&ConnectedClient<H>>)
        requires
            self.wf(),
        ensures
            match found {
                Some(client) => self@.contains_key(id) && *client == self@[id] && client.id == id,
                None => !self@.contains_key(id),
            },
    {
        self.clients.get(&id)
    }

    /// Whether a client is filed under `id`.
    pub fn contains(&self, id: u32) -> (present: bool)
        ensures
            present == self@.contains_key(id),
    {
        self.clients.contains_key(&id)
    }

    /// The number of clients.
    pub fn len(&self) -> (n: usize)
        ensures
            n == self@.len(),
    {
        self.clients.len()
    }

    /// Whether no client is connected.
    pub fn is_empty(&self) -> (empty: bool)
        ensures
            empty == (self@.len() == 0),
    {
        self.clients.len() == 0
    }
}

/// The registry's contents after registering `clients` in order, from empty.
pub open spec fn registered<H>(clients: Seq<ConnectedClient<H>>) -> Map<u32, ConnectedClient<H>>
    decreases clients.len(),
{
    if clients.len() == 0 {
        Map::empty()
    } else {
        registered(clients.drop_last()).insert(clients.last().id, clients.last())
    }
}

/// The contents `m` after removing `ids` in order.
pub open spec fn removed_all<H>(m: Map<u32, ConnectedClient<H>>, ids: Seq<u32>) -> Map<
    u32,
    ConnectedClient<H>,
>
    decreases ids.len(),
{
    if ids.len() == 0 {
        m
    } else {
        removed_all(m, ids.drop_last()).remove(ids.last())
    }
}

/// The ids of `clients`, in order.
pub open spec fn ids_of<H>(clients: Seq<ConnectedClient<H>>) -> Seq<u32> {
    Seq::new(clients.len(), |i: int| clients[i].id)
}

/// No two of `clients` declare the same id.
pub open spec fn distinct_ids<H>(clients: Seq<ConnectedClient<H>>) -> bool {
    forall|i: int, j: int| 0 <= i < j < clients.len() ==> clients[i].id != clients[j].id
}

/// Every key of `registered(clients)` is the id of one of them.
pub proof fn lemma_registered_keys<H>(clients: Seq<ConnectedClient<H>>, id: u32)
    requires
        registered(clients).contains_key(id),
    ensures
        exists|i: int| 0 <= i < clients.len() && clients[i].id == id,
    decreases clients.len(),
{
    if clients.len() > 0 {
        if clients.last().id == id {
            assert(clients[clients.len() - 1].id == id);
        } else {
            lemma_registered_keys(clients.drop_last(), id);
            let i = choose|i: int| 0 <= i < clients.drop_last().len() && clients.drop_last()[i].id == id;
            assert(clients[i].id == id);
        }
    }
}

/// Removing ids leaves exactly the keys that are not among them.
pub proof fn lemma_removed_keys<H>(m: Map<u32, ConnectedClient<H>>, ids: Seq<u32>, id: u32)
    ensures
        removed_all(m, ids).contains_key(id) <==> m.contains_key(id) && !ids.contains(id),
    decreases ids.len(),
{
    if ids.len() > 0 {
        lemma_removed_keys(m, ids.drop_last(), id);
        if ids.contains(id) {
            let k = choose|k: int| 0 <= k < ids.len() && ids[k] == id;
            if k < ids.len() - 1 {
                assert(ids.drop_last()[k] == id);
            }
        } else {
            if ids.drop_last().contains(id) {
                let k = choose|k: int| 0 <= k < ids.drop_last().len() && ids.drop_last()[k] == id;
                assert(ids[k] == id);
            }
        }
    }
}

/// Registry exclusivity: registering clients with distinct ids, in any
/// order, gives a registry with exactly one entry for each, found under its
/// id; removing those ids afterwards leaves the registry empty.
pub proof fn lemma_registry_exclusive<H>(clients: Seq<ConnectedClient<H>>)
    requires
        distinct_ids(clients),
    ensures
        registered(clients).dom().finite(),
        registered(clients).len() == clients.len(),
        forall|i: int|
            0 <= i < clients.len() ==> registered(clients).contains_key(#[trigger] clients[i].id)
                && registered(clients)[clients[i].id] == clients[i],
        removed_all(registered(clients), ids_of(clients)) == Map::<u32, ConnectedClient<H>>::empty(),
    decreases clients.len(),
{
    let all = registered(clients);
    if clients.len() > 0 {
        let prev = clients.drop_last();
        let last = clients.last();
        lemma_registry_exclusive(prev);
        if registered(prev).contains_key(last.id) {
            lemma_registered_keys(prev, last.id);
            let i = choose|i: int| 0 <= i < prev.len() && prev[i].id == last.id;
            assert(clients[i].id == clients[clients.len() - 1].id);
        }
        assert forall|i: int| 0 <= i < clients.len() implies all.contains_key(
            #[trigger] clients[i].id,
        ) && all[clients[i].id] == clients[i] by {
            if i < clients.len() - 1 {
                assert(prev[i] == clients[i]);
                assert(registered(prev).contains_key(prev[i].id));
            }
        }
    }
    let rest = removed_all(all, ids_of(clients));
    assert forall|id: u32| !rest.contains_key(id) by {
        lemma_removed_keys(all, ids_of(clients), id);
        if all.contains_key(id) {
            lemma_registered_keys(clients, id);
            let i = choose|i: int| 0 <= i < clients.len() && clients[i].id == id;
            assert(ids_of(clients)[i] == id);
        }
    }
    assert(rest =~= Map::<u32, ConnectedClient<H>>::empty());
}

} // verus!
