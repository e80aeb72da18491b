//! Server relay: the registry of clients and their pending audio queues.
//!
//! Ingress decodes each received packet elsewhere and hands it here: a `Ping`
//! registers the sender, an `Audio` packet appends its block to the sender's
//! queue (registering an unseen sender on the way). On every mixing tick the
//! relay pops at most one pending block per client; the caller mixes the
//! popped blocks sample-wise (clamping each running sum) and, unless the mix
//! is silent, broadcasts it to every registered address — the contributors
//! included, or left out where the caller opts against self-echo (see
//! [`Relay::broadcast_targets_excluding`]). Registrations are never evicted.

use vstd::prelude::*;

use crate::block::SampleBlock;
use crate::codec::{Packet, PacketModel};
use crate::TX_BUFFER_SIZE;

verus! {

/// A remote client address: IP address bits and port, as plain values.
#[derive(Clone, Copy, Debug, PartialEq, Eq, Structural)]
pub struct Addr {
    /// The IP address as an integer (IPv4 addresses in the low 32 bits).
    pub ip: u128,
    /// The UDP port.
    pub port: u16,
}

/// The model of one registered client: its address and its pending blocks,
/// oldest first.
pub struct ClientModel {
    pub addr: Addr,
    pub queue: Seq<Seq<u32>>,
}

/// One registered client and its queue of pending inbound blocks.
struct ClientEntry {
    addr: Addr,
    queue: Vec<SampleBlock>,
}

impl View for ClientEntry {
    type V = ClientModel;

    closed spec fn view(&self) -> ClientModel {
        ClientModel { addr: self.addr, queue: self.queue@.map_values(|b: SampleBlock| b@) }
    }
}

/// The client registry, in order of first contact.
pub struct Relay {
    clients: Vec<ClientEntry>,
}

impl View for Relay {
    type V = Seq<ClientModel>;

    closed spec fn view(&self) -> Seq<ClientModel> {
        self.clients@.map_values(|c: ClientEntry| c@)
    }
}

/// The views of a sequence of blocks.
pub open spec fn blocks_of(s: Seq<SampleBlock>) -> Seq<Seq<u32>> {
    s.map_values(|b: SampleBlock| b@)
}

/// Registry well-formedness: addresses are distinct and every queued block
/// is exactly one block long.
pub open spec fn relay_wf(m: Seq<ClientModel>) -> bool {
    &&& forall|i: int, j: int|
        0 <= i < j < m.len() ==> #[trigger] m[i].addr != #[trigger] m[j].addr
    &&& forall|i: int, q: int|
        0 <= i < m.len() && 0 <= q < m[i].queue.len() ==> (#[trigger] m[i].queue[q]).len()
            == TX_BUFFER_SIZE
}

/// Whether an address is registered.
pub open spec fn has_addr(m: Seq<ClientModel>, a: Addr) -> bool {
    exists|i: int| 0 <= i < m.len() && m[i].addr == a
}

/// The position of a registered address.
pub open spec fn index_of(m: Seq<ClientModel>, a: Addr) -> int {
    choose|i: int| 0 <= i < m.len() && m[i].addr == a
}

/// The registry after a `Ping` from `a`: unchanged if `a` is known, else one
/// new entry with an empty queue.
pub open spec fn register_model(m: Seq<ClientModel>, a: Addr) -> Seq<ClientModel> {
    if has_addr(m, a) {
        m
    } else {
        m.push(ClientModel { addr: a, queue: Seq::empty() })
    }
}

/// The registry after an `Audio` block `ws` from `a`: the block is appended
/// to `a`'s queue, with an unseen `a` registered on the way.
pub open spec fn enqueue_model(m: Seq<ClientModel>, a: Addr, ws: Seq<u32>) -> Seq<ClientModel> {
    if has_addr(m, a) {
        let i = index_of(m, a);
        m.update(i, ClientModel { addr: a, queue: m[i].queue.push(ws) })
    } else {
        m.push(ClientModel { addr: a, queue: seq![ws] })
    }
}

/// The registry after one decoded packet from `a`.
pub open spec fn ingress_model(m: Seq<ClientModel>, a: Addr, p: PacketModel) -> Seq<ClientModel> {
    match p {
        PacketModel::Ping => register_model(m, a),
        PacketModel::Audio(ws) => enqueue_model(m, a, ws),
    }
}

/// The blocks one mixing tick pops: the oldest pending block of every client
/// whose queue is non-empty, in registry order.
pub open spec fn popped_model(m: Seq<ClientModel>) -> Seq<Seq<u32>>
    decreases m.len(),
{
    if m.len() == 0 {
        Seq::empty()
    } else {
        (if m[0].queue.len() > 0 {
            seq![m[0].queue[0]]
        } else {
            Seq::<Seq<u32>>::empty()
        }) + popped_model(m.drop_first())
    }
}

/// The registry after one mixing tick: every non-empty queue loses its oldest
/// block; registrations and order are untouched.
pub open spec fn after_pop_model(m: Seq<ClientModel>) -> Seq<ClientModel> {
    m.map_values(
        |c: ClientModel|
            ClientModel {
                addr: c.addr,
                queue: if c.queue.len() > 0 {
                    c.queue.drop_first()
                } else {
                    c.queue
                },
            },
    )
}

/// The registered addresses, in registry order: where every broadcast goes.
pub open spec fn targets(m: Seq<ClientModel>) -> Seq<Addr> {
    m.map_values(|c: ClientModel| c.addr)
}

/// The addresses that will contribute a block to the next mixing tick:
/// the clients whose queues are non-empty, in registry order.
pub open spec fn contributors_model(m: Seq<ClientModel>) -> Seq<Addr>
    decreases m.len(),
{
    if m.len() == 0 {
        Seq::empty()
    } else {
        (if m[0].queue.len() > 0 {
            seq![m[0].addr]
        } else {
            Seq::<Addr>::empty()
        }) + contributors_model(m.drop_first())
    }
}

/// The registered addresses with `excluded` left out, in registry order:
/// where a broadcast goes when the relay is configured not to echo a tick's
/// contributors back to themselves.
pub open spec fn targets_excluding(m: Seq<ClientModel>, excluded: Seq<Addr>) -> Seq<Addr>
    decreases m.len(),
{
    if m.len() == 0 {
        Seq::empty()
    } else {
        (if excluded.contains(m[0].addr) {
            Seq::<Addr>::empty()
        } else {
            seq![m[0].addr]
        }) + targets_excluding(m.drop_first(), excluded)
    }
}

/// A registered address sits where `index_of` says and nowhere else.
proof fn lemma_index_of_unique(m: Seq<ClientModel>, a: Addr, i: int)
    requires
        relay_wf(m),
        0 <= i < m.len(),
        m[i].addr == a,
    ensures
        has_addr(m, a),
        index_of(m, a) == i,
{
    assert(has_addr(m, a));
    let j = index_of(m, a);
    assert(0 <= j < m.len() && m[j].addr == a);
    if j < i {
        assert(m[j].addr != m[i].addr);
    } else if i < j {
        assert(m[i].addr != m[j].addr);
    }
}

/// Extending the registry by one client appends its contribution (if any) to
/// what a tick pops.
proof fn lemma_popped_snoc(m: Seq<ClientModel>, c: ClientModel)
    ensures
        popped_model(m.push(c)) == popped_model(m) + (if c.queue.len() > 0 {
            seq![c.queue[0]]
        } else {
            Seq::<Seq<u32>>::empty()
        }),
    decreases m.len(),
{
    let tailpart = if c.queue.len() > 0 {
        seq![c.queue[0]]
    } else {
        Seq::<Seq<u32>>::empty()
    };
    if m.len() == 0 {
        assert(m.push(c)[0] == c);
        assert(m.push(c).drop_first() =~= Seq::<ClientModel>::empty());
        assert(popped_model(Seq::<ClientModel>::empty()) == Seq::<Seq<u32>>::empty());
        assert(popped_model(m.push(c)) =~= popped_model(m) + tailpart);
    } else {
        assert(m.push(c)[0] == m[0]);
        assert(m.push(c).drop_first() =~= m.drop_first().push(c));
        lemma_popped_snoc(m.drop_first(), c);
        assert(popped_model(m.push(c)) =~= popped_model(m) + tailpart);
    }
}

/// Extending the registry by one client appends its address to the next
/// tick's contributors exactly if it has a block pending.
proof fn lemma_contributors_snoc(m: Seq<ClientModel>, c: ClientModel)
    ensures
        contributors_model(m.push(c)) == contributors_model(m) + (if c.queue.len() > 0 {
            seq![c.addr]
        } else {
            Seq::<Addr>::empty()
        }),
    decreases m.len(),
{
    let tailpart = if c.queue.len() > 0 {
        seq![c.addr]
    } else {
        Seq::<Addr>::empty()
    };
    if m.len() == 0 {
        assert(m.push(c)[0] == c);
        assert(m.push(c).drop_first() =~= Seq::<ClientModel>::empty());
        assert(contributors_model(Seq::<ClientModel>::empty()) == Seq::<Addr>::empty());
        assert(contributors_model(m.push(c)) =~= contributors_model(m) + tailpart);
    } else {
        assert(m.push(c)[0] == m[0]);
        assert(m.push(c).drop_first() =~= m.drop_first().push(c));
        lemma_contributors_snoc(m.drop_first(), c);
        assert(contributors_model(m.push(c)) =~= contributors_model(m) + tailpart);
    }
}

/// Extending the registry by one client appends its address to the filtered
/// targets exactly if it is not excluded.
proof fn lemma_targets_excluding_snoc(m: Seq<ClientModel>, c: ClientModel, excluded: Seq<Addr>)
    ensures
        targets_excluding(m.push(c), excluded) == targets_excluding(m, excluded) + (
        if excluded.contains(c.addr) {
            Seq::<Addr>::empty()
        } else {
            seq![c.addr]
        }),
    decreases m.len(),
{
    let tailpart = if excluded.contains(c.addr) {
        Seq::<Addr>::empty()
    } else {
        seq![c.addr]
    };
    if m.len() == 0 {
        assert(m.push(c)[0] == c);
        assert(m.push(c).drop_first() =~= Seq::<ClientModel>::empty());
        assert(targets_excluding(Seq::<ClientModel>::empty(), excluded) == Seq::<Addr>::empty());
        assert(targets_excluding(m.push(c), excluded) =~= targets_excluding(m, excluded)
            + tailpart);
    } else {
        assert(m.push(c)[0] == m[0]);
        assert(m.push(c).drop_first() =~= m.drop_first().push(c));
        lemma_targets_excluding_snoc(m.drop_first(), c, excluded);
        assert(targets_excluding(m.push(c), excluded) =~= targets_excluding(m, excluded)
            + tailpart);
    }
}

/// Whether `list` holds the address `a`.
fn contains_addr(list: &Vec<Addr>, a: Addr) -> (r: bool)
    ensures
        r == list@.contains(a),
{
    let mut i: usize = 0;
    while i < list.len()
        invariant
            i <= list@.len(),
            forall|j: int| 0 <= j < i ==> list@[j] != a,
        decreases list@.len() - i,
    {
        let entry = list[i];
        if entry.ip == a.ip && entry.port == a.port {
            assert(list@[i as int] == a);
            return true;
        }
        i = i + 1;
    }
    false
}

impl Relay {
    /// See [`relay_wf`].
    pub open spec fn wf(&self) -> bool {
        relay_wf(self@)
    }

    /// An empty registry.
    pub fn new() -> (r: Self)
        ensures
            r@ == Seq::<ClientModel>::empty(),
            r.wf(),
    {
        let r = Relay { clients: Vec::new() };
        proof {
            assert(r@ =~= Seq::<ClientModel>::empty());
        }
        r
    }

    /// The number of registered clients.
    pub fn client_count(&self) -> (r: usize)
        ensures
            r == self@.len(),
    {
        self.clients.len()
    }

    /// The position of `addr` in the registry, if registered.
    fn find(&self, addr: &Addr) -> (r: Option<usize>)
        ensures
            match r {
                Some(i) => 0 <= i < self@.len() && self@[i as int].addr == *addr,
                None => !has_addr(self@, *addr),
            },
    {
        let mut i: usize = 0;
        while i < self.clients.len()
            invariant
                i <= self.clients@.len(),
                forall|j: int| 0 <= j < i ==> self@[j].addr != *addr,
            decreases self.clients@.len() - i,
        {
            let entry = &self.clients[i];
            if entry.addr.ip == addr.ip && entry.addr.port == addr.port {
                return Some(i);
            }
            i = i + 1;
        }
        None
    }

    /// Handles a `Ping` from `addr`: upserts the sender's entry.
    pub fn register(&mut self, addr: Addr)
        requires
            old(self).wf(),
        ensures
            final(self)@ == register_model(old(self)@, addr),
            final(self).wf(),
    {
        let ghost m = self@;
        match self.find(&addr) {
            Some(i) => {
                proof {
                    lemma_index_of_unique(m, addr, i as int);
                }
            },
            None => {
                self.clients.push(ClientEntry { addr, queue: Vec::new() });
                proof {
                    assert(self@.len() == m.len() + 1);
                    assert(forall|j: int| 0 <= j < m.len() ==> self@[j] == m[j]);
                    assert(self@[m.len() as int].addr == addr);
                    assert(self@[m.len() as int].queue =~= Seq::<Seq<u32>>::empty());
                    assert(self@ =~~= m.push(ClientModel { addr, queue: Seq::empty() }));
                }
            },
        }
    }

    /// Handles an `Audio` block from `addr`: appends it to the sender's
    /// queue, registering an unseen sender on the way.
    pub fn enqueue(&mut self, addr: Addr, block: SampleBlock)
        requires
            old(self).wf(),
            block.wf(),
        ensures
            final(self)@ == enqueue_model(old(self)@, addr, block@),
            final(self).wf(),
    {
        let ghost m = self@;
        match self.find(&addr) {
            Some(i) => {
                proof {
                    lemma_index_of_unique(m, addr, i as int);
                }
                let mut entry = self.clients.remove(i);
                entry.queue.push(block);
                self.clients.insert(i, entry);
                proof {
                    assert(self@[i as int].queue =~= m[i as int].queue.push(block@));
                    assert(self@[i as int] == ClientModel {
                        addr,
                        queue: m[i as int].queue.push(block@),
                    });
                    assert(self@ =~= enqueue_model(m, addr, block@));
                }
            },
            None => {
                let mut queue: Vec<SampleBlock> = Vec::new();
                queue.push(block);
                self.clients.push(ClientEntry { addr, queue });
                proof {
                    assert(self@[m.len() as int].queue =~= seq![block@]);
                    assert(self@ =~= enqueue_model(m, addr, block@));
                }
            },
        }
    }

    /// Handles one decoded packet from `addr`, as ingress does.
    pub fn handle_packet(&mut self, addr: Addr, packet: Packet)
        requires
            old(self).wf(),
            packet.wf(),
        ensures
            final(self)@ == ingress_model(old(self)@, addr, packet@),
            final(self).wf(),
    {
        match packet {
            Packet::Ping => self.register(addr),
            Packet::Audio(block) => self.enqueue(addr, block),
        }
    }

    /// One mixing tick's pops: removes and returns the oldest pending block
    /// of every client whose queue is non-empty, in registry order. The
    /// caller mixes the returned blocks and broadcasts the result unless it
    /// is silent.
    pub fn pop_round(&mut self) -> (r: Vec<SampleBlock>)
        requires
            old(self).wf(),
        ensures
            final(self)@ == after_pop_model(old(self)@),
            blocks_of(r@) == popped_model(old(self)@),
            final(self).wf(),
            forall|i: int| 0 <= i < r@.len() ==> (#[trigger] r@[i]).wf(),
    {
        let ghost m = self@;
        let mut out: Vec<SampleBlock> = Vec::new();
        let n = self.clients.len();
        let mut i: usize = 0;
        while i < n
            invariant
                i <= n,
                n == self.clients@.len(),
                m.len() == n,
                relay_wf(m),
                blocks_of(out@) == popped_model(m.take(i as int)),
                forall|j: int| 0 <= j < i ==> self@[j] == after_pop_model(m)[j],
                forall|j: int| i <= j < n ==> self@[j] == m[j],
                forall|k: int| 0 <= k < out@.len() ==> (#[trigger] out@[k]).wf(),
            decreases n - i,
        {
            let ghost outpre = out@;
            let nonempty = self.clients[i].queue.len() > 0;
            if nonempty {
                let mut entry = self.clients.remove(i);
                let block = entry.queue.remove(0);
                self.clients.insert(i, entry);
                proof {
                    assert(self@[i as int].queue =~= m[i as int].queue.drop_first());
                    assert(self@[i as int] == after_pop_model(m)[i as int]);
                    assert(block@ == m[i as int].queue[0]);
                }
                out.push(block);
            } else {
                proof {
                    assert(self@[i as int] == after_pop_model(m)[i as int]);
                }
            }
            proof {
                assert(m.take(i + 1) =~= m.take(i as int).push(m[i as int]));
                lemma_popped_snoc(m.take(i as int), m[i as int]);
                assert(blocks_of(out@) =~= popped_model(m.take(i + 1)));
            }
            i = i + 1;
        }
        proof {
            assert(m.take(n as int) =~= m);
            assert(self@ =~= after_pop_model(m));
        }
        out
    }

    /// The addresses a broadcast goes to: every registered client, in order.
    pub fn broadcast_targets(&self) -> (r: Vec<Addr>)
        ensures
            r@ == targets(self@),
    {
        let mut out: Vec<Addr> = Vec::new();
        let mut i: usize = 0;
        while i < self.clients.len()
            invariant
                i <= self.clients@.len(),
                out@ == targets(self@).take(i as int),
            decreases self.clients@.len() - i,
        {
            let entry = &self.clients[i];
            out.push(entry.addr);
            proof {
                assert(out@ =~= targets(self@).take(i + 1));
            }
            i = i + 1;
        }
        proof {
            assert(targets(self@).take(self@.len() as int) =~= targets(self@));
        }
        out
    }

    /// The addresses that will contribute a block to the next mixing tick:
    /// read before `pop_round`, so that a relay configured against self-echo
    /// can leave them out of that tick's broadcast.
    pub fn contributors(&self) -> (r: Vec<Addr>)
        ensures
            r@ == contributors_model(self@),
    {
        let ghost m = self@;
        let mut out: Vec<Addr> = Vec::new();
        let mut i: usize = 0;
        while i < self.clients.len()
            invariant
                i <= self.clients@.len(),
                m == self@,
                out@ == contributors_model(m.take(i as int)),
            decreases self.clients@.len() - i,
        {
            let entry = &self.clients[i];
            if entry.queue.len() > 0 {
                out.push(entry.addr);
            }
            proof {
                assert(m.take(i + 1) =~= m.take(i as int).push(m[i as int]));
                lemma_contributors_snoc(m.take(i as int), m[i as int]);
                assert(out@ =~= contributors_model(m.take(i + 1)));
            }
            i = i + 1;
        }
        proof {
            assert(m.take(m.len() as int) =~= m);
        }
        out
    }

    /// The broadcast targets with `excluded` left out: every registered
    /// address not in `excluded`, in registry order. Handing this a tick's
    /// contributors configures the relay against self-echo; handing it
    /// nothing is the plain broadcast (see
    /// [`lemma_excluding_nothing_keeps_all_targets`]).
    pub fn broadcast_targets_excluding(&self, excluded: &Vec<Addr>) -> (r: Vec<Addr>)
        ensures
            r@ == targets_excluding(self@, excluded@),
    {
        let ghost m = self@;
        let mut out: Vec<Addr> = Vec::new();
        let mut i: usize = 0;
        while i < self.clients.len()
            invariant
                i <= self.clients@.len(),
                m == self@,
                out@ == targets_excluding(m.take(i as int), excluded@),
            decreases self.clients@.len() - i,
        {
            let entry = &self.clients[i];
            if !contains_addr(excluded, entry.addr) {
                out.push(entry.addr);
            }
            proof {
                assert(m.take(i + 1) =~= m.take(i as int).push(m[i as int]));
                lemma_targets_excluding_snoc(m.take(i as int), m[i as int], excluded@);
                assert(out@ =~= targets_excluding(m.take(i + 1), excluded@));
            }
            i = i + 1;
        }
        proof {
            assert(m.take(m.len() as int) =~= m);
        }
        out
    }
}

/// Ingress never evicts: handling a packet keeps every registered client in
/// its place, and at most appends the sender; registrations live for the
/// life of the relay.
pub proof fn lemma_ingress_never_evicts(m: Seq<ClientModel>, a: Addr, p: PacketModel)
    requires
        relay_wf(m),
    ensures
        ingress_model(m, a, p).len() >= m.len(),
        forall|i: int|
            0 <= i < m.len() ==> (#[trigger] ingress_model(m, a, p)[i]).addr == m[i].addr,
        ingress_model(m, a, p).len() > m.len() ==> ingress_model(m, a, p).last().addr == a,
{
    match p {
        PacketModel::Ping => {},
        PacketModel::Audio(ws) => {
            if has_addr(m, a) {
                let i = index_of(m, a);
                assert(0 <= i < m.len() && m[i].addr == a);
            }
        },
    }
}

/// A mixing tick touches no registration: the set of broadcast targets after
/// the pops is exactly the set before, in the same order — so the broadcast
/// reaches every registered client, the tick's contributors included.
pub proof fn lemma_tick_keeps_registry(m: Seq<ClientModel>)
    ensures
        targets(after_pop_model(m)) == targets(m),
{
    assert(targets(after_pop_model(m)) =~= targets(m));
}

/// Excluding nobody is the plain broadcast: with an empty exclusion list the
/// filtered targets are exactly every registered address.
pub proof fn lemma_excluding_nothing_keeps_all_targets(m: Seq<ClientModel>)
    ensures
        targets_excluding(m, Seq::empty()) == targets(m),
    decreases m.len(),
{
    if m.len() == 0 {
        assert(targets_excluding(m, Seq::empty()) =~= targets(m));
    } else {
        lemma_excluding_nothing_keeps_all_targets(m.drop_first());
        assert(targets(m.drop_first()) =~= targets(m).drop_first());
        assert(targets_excluding(m, Seq::empty()) =~= targets(m));
    }
}

/// What the exclusion means: an excluded address receives nothing, and every
/// registered address that is not excluded still receives the broadcast. A
/// relay configured to exclude a tick's contributors therefore echoes no
/// client its own contribution back, and starves nobody else.
pub proof fn lemma_excluding_excludes(m: Seq<ClientModel>, excluded: Seq<Addr>, a: Addr)
    ensures
        excluded.contains(a) ==> !targets_excluding(m, excluded).contains(a),
        !excluded.contains(a) && targets(m).contains(a) ==> targets_excluding(
            m,
            excluded,
        ).contains(a),
    decreases m.len(),
{
    if m.len() > 0 {
        lemma_excluding_excludes(m.drop_first(), excluded, a);
        let head = if excluded.contains(m[0].addr) {
            Seq::<Addr>::empty()
        } else {
            seq![m[0].addr]
        };
        let tail = targets_excluding(m.drop_first(), excluded);
        assert(targets_excluding(m, excluded) == head + tail);
        if excluded.contains(a) {
            assert(!head.contains(a));
            assert(!tail.contains(a));
            assert forall|k: int| 0 <= k < (head + tail).len() implies (head + tail)[k] != a by {
                if k < head.len() {
                    assert((head + tail)[k] == head[k]);
                } else {
                    assert((head + tail)[k] == tail[k - head.len()]);
                }
            }
        } else if targets(m).contains(a) {
            let i = choose|i: int| 0 <= i < targets(m).len() && targets(m)[i] == a;
            if i == 0 {
                assert(m[0].addr == a);
                assert((head + tail)[0] == a);
            } else {
                assert(targets(m.drop_first())[i - 1] == a);
                assert(targets(m.drop_first()).contains(a));
                let k = choose|k: int| 0 <= k < tail.len() && tail[k] == a;
                assert((head + tail)[head.len() + k] == a);
            }
        }
    }
}

/// Every client with a pending block contributes exactly its oldest block to
/// the tick's mix, and only that block leaves its queue.
pub proof fn lemma_tick_takes_oldest(m: Seq<ClientModel>, i: int)
    requires
        0 <= i < m.len(),
        m[i].queue.len() > 0,
    ensures
        popped_model(m).contains(m[i].queue[0]),
        after_pop_model(m)[i].queue == m[i].queue.drop_first(),
        after_pop_model(m)[i].addr == m[i].addr,
    decreases m.len(),
{
    if i == 0 {
        assert(popped_model(m)[0] == m[0].queue[0]);
        assert(popped_model(m).contains(m[0].queue[0]));
    } else {
        lemma_tick_takes_oldest(m.drop_first(), i - 1);
        let tail = popped_model(m.drop_first());
        let k = choose|k: int| 0 <= k < tail.len() && tail[k] == m.drop_first()[i - 1].queue[0];
        let head = if m[0].queue.len() > 0 {
            seq![m[0].queue[0]]
        } else {
            Seq::<Seq<u32>>::empty()
        };
        assert(popped_model(m) == head + tail);
        assert(popped_model(m)[head.len() + k] == m[i].queue[0]);
        assert(popped_model(m).contains(m[i].queue[0]));
    }
}

} // verus!
