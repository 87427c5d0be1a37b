use fastrand::Rng;
use vstd::prelude::*;

use crate::packet;
use crate::topic;

verus! {

/// Identity of a node on the network.
#[derive(Debug, Clone, Copy, PartialEq, Eq, Hash, Structural)]
pub enum Id {
    Id(u16),
    Anonymous,
}

impl From<u16> for Id {
    fn from(id: u16) -> (r: Self)
        ensures
            r == Id::Id(id),
    {
        Id::Id(id)
    }
}

impl vstd::std_specs::convert::FromSpecImpl<u16> for Id {
    open spec fn obeys_from_spec() -> bool {
        true
    }

    open spec fn from_spec(v: u16) -> Self {
        Id::Id(v)
    }
}

impl From<Option<u16>> for Id {
    fn from(id: Option<u16>) -> (r: Self)
        ensures
            r == (match id {
                Some(v) => Id::Id(v),
                None => Id::Anonymous,
            }),
    {
        match id {
            Some(id) => Id::Id(id),
            None => Id::Anonymous,
        }
    }
}

impl vstd::std_specs::convert::FromSpecImpl<Option<u16>> for Id {
    open spec fn obeys_from_spec() -> bool {
        true
    }

    open spec fn from_spec(v: Option<u16>) -> Self {
        match v {
            Some(id) => Id::Id(id),
            None => Id::Anonymous,
        }
    }
}

/// Which of `n_links` links a publish writes the packet to: every link but
/// those listed in `except`, which get an empty write instead.
pub fn publish_targets(n_links: usize, except: &[usize]) -> (r: Vec<bool>)
    ensures
        r@.len() == n_links,
        forall|i: int| 0 <= i < n_links ==> r@[i] == !except@.contains(i as usize),
{
    let mut r: Vec<bool> = Vec::new();
    let mut n: usize = 0;
    while n < n_links
        invariant
            n <= n_links,
            r@.len() == n,
            forall|i: int| 0 <= i < n ==> r@[i] == !except@.contains(i as usize),
        decreases n_links - n,
    {
        let mut listed = false;
        let mut k: usize = 0;
        while k < except.len()
            invariant
                k <= except@.len(),
                listed == exists|j: int| 0 <= j < k && except@[j] == n,
            decreases except@.len() - k,
        {
            if except[k] == n {
                listed = true;
            }
            k = k + 1;
        }
        assert(listed == except@.contains(n));
        r.push(!listed);
        n = n + 1;
    }
    r
}

/// A packet that arrived on link `from` and is published again with
/// `except` holding `from` alone goes out on every other link, and not back
/// where it came from.
pub proof fn lemma_forwarding_skips_only_the_source(n_links: usize, from: usize, targets: Seq<bool>)
    requires
        targets.len() == n_links,
        forall|i: int| 0 <= i < n_links ==> targets[i] == !seq![from].contains(i as usize),
    ensures
        forall|i: int| 0 <= i < n_links ==> (targets[i] <==> i != from),
{
    assert forall|i: int| 0 <= i < n_links implies (targets[i] <==> i != from) by {
        let s = seq![from];
        assert(s.len() == 1 && s[0] == from);
        if i == from {
            assert(s.contains(i as usize));
        } else {
            assert(s[0] != i as usize);
            assert(!s.contains(i as usize));
        }
    }
}

/// Largest payload a node forwards.
pub const MAX_PAYLOAD: usize = 256;

/// The packet a node with id `origin` sends to publish `message`.
pub fn publish_packet<'d>(origin: Id, message: topic::Message<'d>) -> (r: packet::Packet<'d>)
    ensures
        r.origin == origin,
        r.message == packet::Message::Publish(message),
{
    packet::Packet { origin, message: packet::Message::Publish(message) }
}

/// Whether a running node stops before waiting for the next packet: it
/// does exactly when it has been cancelled.
pub fn should_stop(cancelled: bool) -> (r: bool)
    ensures
        r == cancelled,
{
    cancelled
}

/// How a running node passes on a message it received.
pub struct Forward {
    /// The origin the forwarded packet carries: the forwarding node.
    pub origin: Id,
    /// The topic, unchanged.
    pub topic: topic::Id,
    /// For each link, whether the packet goes out on it.
    pub targets: Vec<bool>,
}

/// What a node with id `self_id` and `n_links` links does with a message on
/// `topic` carrying `data_len` bytes that arrived on link `from`: it
/// publishes it again as its own, on the same topic, on every link but the
/// one it came from.
pub fn on_received(self_id: Id, n_links: usize, from: usize, topic: topic::Id, data_len: usize) -> (r: Forward)
    requires
        data_len <= MAX_PAYLOAD,
    ensures
        r.origin == self_id,
        r.topic == topic,
        r.targets@.len() == n_links,
        forall|i: int| 0 <= i < n_links ==> (r.targets@[i] <==> i != from),
{
    let except: [usize; 1] = [from];
    let targets = publish_targets(n_links, except.as_slice());
    proof {
        assert(except@ == seq![from]);
        lemma_forwarding_skips_only_the_source(n_links, from, targets@);
    }
    Forward { origin: self_id, topic, targets }
}

/// The indices `0, 1, ..., n - 1` in order.
pub open spec fn index_seq(n: nat) -> Seq<usize> {
    Seq::new(n, |i: int| i as usize)
}

/// The link indices `0, 1, ..., n - 1` in order.
pub fn indices(n: usize) -> (r: Vec<usize>)
    ensures
        r@ == index_seq(n as nat),
{
    let mut r: Vec<usize> = Vec::new();
    let mut i: usize = 0;
    while i < n
        invariant
            i <= n,
            r@ == index_seq(i as nat),
        decreases n - i,
    {
        r.push(i);
        assert(r@ =~= index_seq((i + 1) as nat));
        i = i + 1;
    }
    r
}

#[verifier::external_type_specification]
#[verifier::external_body]
pub struct ExRng(Rng);

/// `fastrand::Rng::shuffle`: puts the items in a random order. It only
/// swaps items, so the same items come out, each as often as it went in.
#[verifier::external_body]
fn shuffle(rng: &mut Rng, items: &mut Vec<usize>)
    ensures
        final(items)@.to_multiset() == old(items)@.to_multiset(),
        final(items)@.len() == old(items)@.len(),
{
    rng.shuffle(items.as_mut_slice())
}

/// The order in which a node polls its `n` links for a packet: every link
/// exactly once, in an order drawn from `rng`.
pub fn poll_order(rng: &mut Rng, n: usize) -> (r: Vec<usize>)
    ensures
        r@.len() == n,
        r@.to_multiset() == index_seq(n as nat).to_multiset(),
{
    let mut order = indices(n);
    shuffle(rng, &mut order);
    order
}

/// Polling in an order drawn by `poll_order` visits every one of the `n`
/// links exactly once.
pub proof fn lemma_poll_order_visits_each_link_once(order: Seq<usize>, n: nat)
    requires
        n <= usize::MAX,
        order.to_multiset() == index_seq(n).to_multiset(),
    ensures
        order.len() == n,
        order.no_duplicates(),
        forall|i: usize| i < n ==> #[trigger] order.contains(i),
        forall|k: int| 0 <= k < order.len() ==> order[k] < n,
{
    broadcast use vstd::seq_lib::group_to_multiset_ensures;

    let ids = index_seq(n);
    assert forall|i: int, j: int| 0 <= i < ids.len() && 0 <= j < ids.len() && i != j implies ids[i]
        != ids[j] by {
        assert(ids[i] == i as usize);
        assert(ids[j] == j as usize);
    }
    assert(ids.no_duplicates());
    ids.lemma_multiset_has_no_duplicates();
    assert(order.len() == order.to_multiset().len());
    assert(ids.len() == ids.to_multiset().len());
    order.lemma_multiset_has_no_duplicates_conv();
    assert forall|i: usize| i < n implies #[trigger] order.contains(i) by {
        assert(ids[i as int] == i);
        assert(ids.contains(i));
        assert(ids.to_multiset().count(i) > 0);
        assert(order.to_multiset().count(i) > 0);
    }
    assert forall|k: int| 0 <= k < order.len() implies order[k] < n by {
        assert(order.contains(order[k]));
        assert(order.to_multiset().count(order[k]) > 0);
        assert(ids.to_multiset().count(order[k]) > 0);
        assert(ids.contains(order[k]));
        let j = choose|j: int| 0 <= j < ids.len() && ids[j] == order[k];
        assert(ids[j] == j as usize);
    }
}

} // verus!
