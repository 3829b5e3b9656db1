//! The broker's routing: which connections subscribe to which topics, and
//! to whom a publication goes.

use std::collections::{HashMap, HashSet};
use vstd::prelude::*;

verus! {

broadcast use vstd::std_specs::hash::group_hash_axioms;

/// One connection's subscription to one topic.
#[derive(Debug, Clone, Copy)]
pub struct Subscription {
    pub topic: [u8; 32],
    pub connection: u128,
}

/// A decoded control message from a broker client.
pub enum RoutedMessage {
    Subscribe { client_id: u128, topic: [u8; 32] },
    Unsubscribe { client_id: u128, topic: [u8; 32] },
    Publish { topic: [u8; 32], payload: Vec<u8> },
    /// A client announces the id it publishes under.
    Connect { client_id: u128 },
    /// Any other message, which the broker ignores.
    Other,
}

/// A publication to forward: the topic and payload to broadcast, and the
/// connections to send it to.
pub struct Delivery {
    pub topic: [u8; 32],
    pub payload: Vec<u8>,
    pub recipients: Vec<u128>,
}

/// The broker's routing state: the subscriptions and the open connections.
pub struct BrokerState {
    subscriptions: Vec<Subscription>,
    connections: HashSet<u128>,
}

/// The (topic, connection) pairs of a list of subscriptions, in order.
pub open spec fn pairs(s: Seq<Subscription>) -> Seq<(Seq<u8>, u128)> {
    s.map_values(|x: Subscription| (x.topic@, x.connection))
}

/// The subscribers of a topic.
pub open spec fn subscribers(subs: Set<(Seq<u8>, u128)>, topic: Seq<u8>) -> Set<u128> {
    Set::new(|c: u128| subs.contains((topic, c)))
}

impl BrokerState {
    /// The subscriptions, as a set of (topic, connection) pairs.
    pub closed spec fn subs(&self) -> Set<(Seq<u8>, u128)> {
        pairs(self.subscriptions@).to_set()
    }

    /// The open connections.
    pub closed spec fn open_connections(&self) -> Set<u128> {
        self.connections@
    }

    /// Each subscription is held once.
    #[verifier::type_invariant]
    spec fn wf(&self) -> bool {
        pairs(self.subscriptions@).no_duplicates()
    }

    /// A broker with no connection and no subscription.
    pub fn new() -> (b: BrokerState)
        ensures
            b.subs() == Set::<(Seq<u8>, u128)>::empty(),
            b.open_connections() == Set::<u128>::empty(),
    {
        let b = BrokerState { subscriptions: Vec::new(), connections: HashSet::new() };
        proof {
            assert(b.subs() =~= Set::<(Seq<u8>, u128)>::empty());
        }
        b
    }

    /// The subscribers of a topic, each once.
    pub fn recipients(&self, topic: &[u8; 32]) -> (r: Vec<u128>)
        ensures
            r@.no_duplicates(),
            r@.to_set() == subscribers(self.subs(), topic@),
    {
        proof {
            use_type_invariant(self);
        }
        let mut r: Vec<u128> = Vec::new();
        let mut i: usize = 0;
        while i < self.subscriptions.len()
            invariant
                pairs(self.subscriptions@).no_duplicates(),
                i <= self.subscriptions@.len(),
                r@.no_duplicates(),
                forall|c: u128|
                    r@.contains(c) <==> pairs(self.subscriptions@).take(i as int).contains((topic@, c)),
            decreases self.subscriptions@.len() - i,
        {
            let s = self.subscriptions[i];
            let ghost p = pairs(self.subscriptions@);
            proof {
                assert(p.take(i + 1) =~= p.take(i as int).push(p[i as int]));
                lemma_push_contains(p.take(i as int), p[i as int]);
            }
            if same_topic(&s.topic, topic) {
                proof {
                    assert(!r@.contains(s.connection)) by {
                        if r@.contains(s.connection) {
                            let j = choose|j: int| 0 <= j < i && p.take(i as int)[j] == (topic@, s.connection);
                            assert(p[j] == p[i as int]);
                        }
                    }
                }
                let ghost r_before = r@;
                r.push(s.connection);
                proof {
                    lemma_push_contains(r_before, s.connection);
                }
            }
            i = i + 1;
        }
        proof {
            assert(pairs(self.subscriptions@).take(self.subscriptions@.len() as int) =~= pairs(
                self.subscriptions@,
            ));
            assert(r@.to_set() =~= subscribers(self.subs(), topic@));
        }
        r
    }

    /// Adds a subscription.
    pub fn subscribe(&mut self, topic: [u8; 32], connection: u128)
        ensures
            final(self).subs() == old(self).subs().insert((topic@, connection)),
            final(self).open_connections() == old(self).open_connections(),
    {
        proof {
            use_type_invariant(&*self);
        }
        let mut subs: Vec<Subscription> = Vec::new();
        std::mem::swap(&mut subs, &mut self.subscriptions);
        add_subscription(&mut subs, topic, connection);
        self.subscriptions = subs;
    }

    /// Removes a subscription.
    pub fn unsubscribe(&mut self, topic: [u8; 32], connection: u128)
        ensures
            final(self).subs() == old(self).subs().remove((topic@, connection)),
            final(self).open_connections() == old(self).open_connections(),
    {
        proof {
            use_type_invariant(&*self);
        }
        let mut subs: Vec<Subscription> = Vec::new();
        std::mem::swap(&mut subs, &mut self.subscriptions);
        remove_subscription(&mut subs, topic, connection);
        self.subscriptions = subs;
    }

    /// Drops every subscription of a connection.
    pub fn drop_subscriber(&mut self, connection: u128)
        ensures
            final(self).subs() == old(self).subs().filter(|x: (Seq<u8>, u128)| x.1 != connection),
            final(self).open_connections() == old(self).open_connections(),
    {
        proof {
            use_type_invariant(&*self);
        }
        let kept = without_connection(&self.subscriptions, connection);
        self.subscriptions = kept;
    }

    /// A publication: it goes to every subscriber of its topic.
    pub fn publish(&self, topic: [u8; 32], payload: Vec<u8>) -> (d: Delivery)
        ensures
            d.topic == topic,
            d.payload@ == payload@,
            d.recipients@.no_duplicates(),
            d.recipients@.to_set() == subscribers(self.subs(), topic@),
    {
        let recipients = self.recipients(&topic);
        Delivery { topic, payload, recipients }
    }

    /// A connection opened: the broker knows it, under its own id.
    pub fn on_connected(&mut self, connection_map: &mut HashMap<u128, u128>, connection: u128)
        ensures
            final(self).open_connections() == old(self).open_connections().insert(connection),
            final(self).subs() == old(self).subs(),
            final(connection_map)@ == old(connection_map)@.insert(connection, connection),
    {
        proof {
            use_type_invariant(&*self);
        }
        let mut conns: HashSet<u128> = HashSet::new();
        std::mem::swap(&mut conns, &mut self.connections);
        conns.insert(connection);
        self.connections = conns;
        connection_map.insert(connection, connection);
    }

    /// A connection closed. If it was open, the topic `disconnect_topic`
    /// announcing its departure is published (to subscribers as they were
    /// before), then its subscriptions and its id are dropped; otherwise
    /// nothing changes.
    pub fn on_disconnected(
        &mut self,
        connection_map: &mut HashMap<u128, u128>,
        connection: u128,
        disconnect_topic: [u8; 32],
    ) -> (d: Option<Delivery>)
        ensures
            final(self).open_connections() == old(self).open_connections().remove(connection),
            d is Some <==> old(self).open_connections().contains(connection),
            d matches Some(del) ==> {
                &&& del.topic == disconnect_topic
                &&& del.payload@ == Seq::<u8>::empty()
                &&& del.recipients@.no_duplicates()
                &&& del.recipients@.to_set() == subscribers(old(self).subs(), disconnect_topic@)
                &&& final(self).subs() == old(self).subs().filter(
                    |x: (Seq<u8>, u128)| x.1 != connection,
                )
                &&& final(connection_map)@ == old(connection_map)@.remove(connection)
            },
            d is None ==> final(self).subs() == old(self).subs() && final(connection_map)@ == old(
                connection_map,
            )@,
    {
        proof {
            use_type_invariant(&*self);
        }
        let mut conns: HashSet<u128> = HashSet::new();
        std::mem::swap(&mut conns, &mut self.connections);
        let was_open = conns.remove(&connection);
        self.connections = conns;
        if was_open {
            let d = self.publish(disconnect_topic, Vec::new());
            self.drop_subscriber(connection);
            connection_map.remove(&connection);
            Some(d)
        } else {
            None
        }
    }

    /// A control message from `connection`: subscriptions change for a
    /// client id the broker knows, a publication is delivered, and a
    /// client's announced id is bound to its connection.
    pub fn on_message(
        &mut self,
        connection_map: &mut HashMap<u128, u128>,
        connection: u128,
        message: RoutedMessage,
    ) -> (d: Option<Delivery>)
        ensures
            final(self).open_connections() == old(self).open_connections(),
            match message {
                RoutedMessage::Subscribe { client_id, topic } => {
                    &&& d is None
                    &&& final(connection_map)@ == old(connection_map)@
                    &&& final(self).subs() == if old(connection_map)@.contains_key(client_id) {
                        old(self).subs().insert((topic@, old(connection_map)@[client_id]))
                    } else {
                        old(self).subs()
                    }
                },
                RoutedMessage::Unsubscribe { client_id, topic } => {
                    &&& d is None
                    &&& final(connection_map)@ == old(connection_map)@
                    &&& final(self).subs() == if old(connection_map)@.contains_key(client_id) {
                        old(self).subs().remove((topic@, old(connection_map)@[client_id]))
                    } else {
                        old(self).subs()
                    }
                },
                RoutedMessage::Publish { topic, payload } => {
                    &&& final(connection_map)@ == old(connection_map)@
                    &&& final(self).subs() == old(self).subs()
                    &&& d matches Some(del) && del.topic == topic && del.payload@ == payload@
                        && del.recipients@.no_duplicates() && del.recipients@.to_set()
                        == subscribers(old(self).subs(), topic@)
                },
                RoutedMessage::Connect { client_id } => {
                    &&& d is None
                    &&& final(self).subs() == old(self).subs()
                    &&& final(connection_map)@ == old(connection_map)@.insert(client_id, connection)
                },
                RoutedMessage::Other => {
                    &&& d is None
                    &&& final(self).subs() == old(self).subs()
                    &&& final(connection_map)@ == old(connection_map)@
                },
            },
    {
        match message {
            RoutedMessage::Subscribe { client_id, topic } => {
                match connection_map.get(&client_id) {
                    Some(c) => {
                        let c = *c;
                        self.subscribe(topic, c);
                    },
                    None => {},
                }
                None
            },
            RoutedMessage::Unsubscribe { client_id, topic } => {
                match connection_map.get(&client_id) {
                    Some(c) => {
                        let c = *c;
                        self.unsubscribe(topic, c);
                    },
                    None => {},
                }
                None
            },
            RoutedMessage::Publish { topic, payload } => Some(self.publish(topic, payload)),
            RoutedMessage::Connect { client_id } => {
                connection_map.insert(client_id, connection);
                None
            },
            RoutedMessage::Other => None,
        }
    }
}

/// Adds a subscription to a list that holds each once.
fn add_subscription(subs: &mut Vec<Subscription>, topic: [u8; 32], connection: u128)
    requires
        pairs(old(subs)@).no_duplicates(),
    ensures
        pairs(final(subs)@).no_duplicates(),
        pairs(final(subs)@).to_set() == pairs(old(subs)@).to_set().insert((topic@, connection)),
{
    let ghost before = pairs(subs@);
    match find_subscription(subs, &topic, connection) {
        Some(_) => {
            proof {
                assert(pairs(subs@).to_set() =~= before.to_set().insert((topic@, connection)));
            }
        },
        None => {
            subs.push(Subscription { topic, connection });
            proof {
                assert(pairs(subs@) =~= before.push((topic@, connection)));
                lemma_push_contains(before, (topic@, connection));
                assert(pairs(subs@).to_set() =~= before.to_set().insert((topic@, connection)));
            }
        },
    }
}

/// Removes a subscription from a list that holds each once.
fn remove_subscription(subs: &mut Vec<Subscription>, topic: [u8; 32], connection: u128)
    requires
        pairs(old(subs)@).no_duplicates(),
    ensures
        pairs(final(subs)@).no_duplicates(),
        pairs(final(subs)@).to_set() == pairs(old(subs)@).to_set().remove((topic@, connection)),
{
    let ghost before = pairs(subs@);
    match find_subscription(subs, &topic, connection) {
        Some(i) => {
            subs.remove(i);
            proof {
                let after = pairs(subs@);
                assert(after =~= before.remove(i as int));
                assert forall|x: (Seq<u8>, u128)| after.contains(x) <==> (before.contains(x) && x
                    != (topic@, connection)) by {
                    if after.contains(x) {
                        let j = choose|j: int| 0 <= j < after.len() && after[j] == x;
                        if j < i {
                            assert(before[j] == x);
                        } else {
                            assert(before[j + 1] == x);
                        }
                    }
                    if before.contains(x) && x != (topic@, connection) {
                        let j = choose|j: int| 0 <= j < before.len() && before[j] == x;
                        if j < i {
                            assert(after[j] == x);
                        } else {
                            assert(after[j - 1] == x);
                        }
                    }
                }
                assert(after.to_set() =~= before.to_set().remove((topic@, connection)));
            }
        },
        None => {
            proof {
                assert(pairs(subs@).to_set() =~= before.to_set().remove((topic@, connection)));
            }
        },
    }
}

/// The subscriptions of a list that holds each once, less those of a
/// connection.
fn without_connection(subs: &Vec<Subscription>, connection: u128) -> (kept: Vec<Subscription>)
    requires
        pairs(subs@).no_duplicates(),
    ensures
        pairs(kept@).no_duplicates(),
        pairs(kept@).to_set() == pairs(subs@).to_set().filter(|x: (Seq<u8>, u128)| x.1 != connection),
{
    let mut kept: Vec<Subscription> = Vec::new();
    let mut i: usize = 0;
    let ghost all = pairs(subs@);
    while i < subs.len()
        invariant
            all == pairs(subs@),
            all.no_duplicates(),
            i <= subs@.len(),
            pairs(kept@).no_duplicates(),
            forall|x: (Seq<u8>, u128)|
                pairs(kept@).contains(x) <==> (all.take(i as int).contains(x) && x.1 != connection),
        decreases subs@.len() - i,
    {
        let s = subs[i];
        proof {
            assert(all.take(i + 1) =~= all.take(i as int).push(all[i as int]));
            lemma_push_contains(all.take(i as int), all[i as int]);
        }
        if s.connection != connection {
            let ghost before = pairs(kept@);
            proof {
                assert(!before.contains(all[i as int])) by {
                    if before.contains(all[i as int]) {
                        let j = choose|j: int| 0 <= j < i && all.take(i as int)[j] == all[i as int];
                    }
                }
            }
            kept.push(s);
            proof {
                assert(pairs(kept@) =~= before.push(all[i as int]));
                lemma_push_contains(before, all[i as int]);
            }
        }
        i = i + 1;
    }
    proof {
        assert(all.take(all.len() as int) =~= all);
        assert(pairs(kept@).to_set() =~= all.to_set().filter(|x: (Seq<u8>, u128)| x.1 != connection));
    }
    kept
}

/// The position of a subscription in a list.
fn find_subscription(subs: &Vec<Subscription>, topic: &[u8; 32], connection: u128) -> (p: Option<usize>)
    ensures
        p matches Some(i) ==> i < subs@.len() && pairs(subs@)[i as int] == (topic@, connection),
        p is None ==> !pairs(subs@).contains((topic@, connection)),
{
    let mut i: usize = 0;
    while i < subs.len()
        invariant
            i <= subs@.len(),
            forall|j: int| 0 <= j < i ==> pairs(subs@)[j] != (topic@, connection),
        decreases subs@.len() - i,
    {
        let s = subs[i];
        if s.connection == connection && same_topic(&s.topic, topic) {
            return Some(i);
        }
        i = i + 1;
    }
    None
}

/// A subscriber receives what is published on its topic until it
/// unsubscribes: right after subscribing it is among the topic's
/// subscribers, right after unsubscribing it is not.
pub proof fn law_subscription_controls_delivery(subs: Set<(Seq<u8>, u128)>, topic: Seq<u8>, c: u128)
    ensures
        subscribers(subs.insert((topic, c)), topic).contains(c),
        !subscribers(subs.remove((topic, c)), topic).contains(c),
{
}

/// A closed connection receives nothing more: once its subscriptions are
/// dropped it subscribes to no topic, and every other subscription stays.
pub proof fn law_closed_connection_receives_nothing(subs: Set<(Seq<u8>, u128)>, c: u128, topic: Seq<u8>)
    ensures
        !subscribers(subs.filter(|x: (Seq<u8>, u128)| x.1 != c), topic).contains(c),
        forall|d: u128|
            d != c ==> (subscribers(subs.filter(|x: (Seq<u8>, u128)| x.1 != c), topic).contains(d)
                <==> #[trigger] subscribers(subs, topic).contains(d)),
{
}

/// What a sequence with one more element at its end contains.
pub proof fn lemma_push_contains<A>(s: Seq<A>, v: A)
    ensures
        forall|x: A| #[trigger] s.push(v).contains(x) <==> (s.contains(x) || x == v),
{
    assert forall|x: A| #[trigger] s.push(v).contains(x) implies (s.contains(x) || x == v) by {
        let j = choose|j: int| 0 <= j < s.len() + 1 && s.push(v)[j] == x;
        if j < s.len() {
            assert(s[j] == x);
        }
    }
    assert forall|x: A| (s.contains(x) || x == v) implies #[trigger] s.push(v).contains(x) by {
        if x == v {
            assert(s.push(v)[s.len() as int] == v);
        } else {
            let j = choose|j: int| 0 <= j < s.len() && s[j] == x;
            assert(s.push(v)[j] == x);
        }
    }
}

/// Whether two topics are the same.
fn same_topic(a: &[u8; 32], b: &[u8; 32]) -> (r: bool)
    ensures
        r == (a@ == b@),
{
    let mut i: usize = 0;
    while i < 32
        invariant
            i <= 32,
            a@.len() == 32,
            b@.len() == 32,
            forall|j: int| 0 <= j < i ==> a@[j] == b@[j],
        decreases 32 - i,
    {
        if a[i] != b[i] {
            return false;
        }
        i = i + 1;
    }
    proof {
        assert(a@ =~= b@);
    }
    true
}

} // verus!
