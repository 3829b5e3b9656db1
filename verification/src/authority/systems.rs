use crate::authority::messages::{
    AuthorityEnvelope, GhostUpdate, HandoffAccept, HandoffComplete, HandoffReject, HandoffRequest,
};
use crate::authority::state::AuthorityState;
use crate::authority::world::{
    accept_handoff, entities_view, finalize_handoff, reject_handoff, spawned_ghost, AuthorityEntity, AuthorityWorld, EntityView, HandoffRequestState,
};
use crate::geometry::{Vec2, Vec3};
use std::collections::VecDeque;
use vstd::prelude::*;

verus! {

/// Local inbox and outbox for authority traffic, and the typed queues the
/// inbox is sorted into.
pub struct AuthorityBus {
    pub inbound: VecDeque<AuthorityEnvelope>,
    pub outbound: VecDeque<AuthorityEnvelope>,
    pub pending_requests: VecDeque<HandoffRequest>,
    pub pending_accepts: VecDeque<HandoffAccept>,
    pub pending_rejects: VecDeque<HandoffReject>,
    pub pending_ghost_updates: VecDeque<GhostUpdate>,
    pub pending_completes: VecDeque<HandoffComplete>,
}

impl Default for AuthorityBus {
    /// A bus with every queue empty.
    fn default() -> (bus: AuthorityBus)
        ensures
            bus.inbound@.len() == 0,
            bus.outbound@.len() == 0,
            bus.pending_requests@.len() == 0,
            bus.pending_accepts@.len() == 0,
            bus.pending_rejects@.len() == 0,
            bus.pending_ghost_updates@.len() == 0,
            bus.pending_completes@.len() == 0,
    {
        AuthorityBus {
            inbound: VecDeque::new(),
            outbound: VecDeque::new(),
            pending_requests: VecDeque::new(),
            pending_accepts: VecDeque::new(),
            pending_rejects: VecDeque::new(),
            pending_ghost_updates: VecDeque::new(),
            pending_completes: VecDeque::new(),
        }
    }
}

/// The handoff requests among `s`, in order.
pub open spec fn requests_in(s: Seq<AuthorityEnvelope>) -> Seq<HandoffRequest>
    decreases s.len(),
{
    if s.len() == 0 {
        seq![]
    } else {
        match s.last() {
            AuthorityEnvelope::HandoffRequest(m) => requests_in(s.drop_last()).push(m),
            _ => requests_in(s.drop_last()),
        }
    }
}

/// The handoff accepts among `s`, in order.
pub open spec fn accepts_in(s: Seq<AuthorityEnvelope>) -> Seq<HandoffAccept>
    decreases s.len(),
{
    if s.len() == 0 {
        seq![]
    } else {
        match s.last() {
            AuthorityEnvelope::HandoffAccept(m) => accepts_in(s.drop_last()).push(m),
            _ => accepts_in(s.drop_last()),
        }
    }
}

/// The handoff rejects among `s`, in order.
pub open spec fn rejects_in(s: Seq<AuthorityEnvelope>) -> Seq<HandoffReject>
    decreases s.len(),
{
    if s.len() == 0 {
        seq![]
    } else {
        match s.last() {
            AuthorityEnvelope::HandoffReject(m) => rejects_in(s.drop_last()).push(m),
            _ => rejects_in(s.drop_last()),
        }
    }
}

/// The ghost updates among `s`, in order.
pub open spec fn ghost_updates_in(s: Seq<AuthorityEnvelope>) -> Seq<GhostUpdate>
    decreases s.len(),
{
    if s.len() == 0 {
        seq![]
    } else {
        match s.last() {
            AuthorityEnvelope::GhostUpdate(m) => ghost_updates_in(s.drop_last()).push(m),
            _ => ghost_updates_in(s.drop_last()),
        }
    }
}

/// The handoff completions among `s`, in order.
pub open spec fn completes_in(s: Seq<AuthorityEnvelope>) -> Seq<HandoffComplete>
    decreases s.len(),
{
    if s.len() == 0 {
        seq![]
    } else {
        match s.last() {
            AuthorityEnvelope::HandoffComplete(m) => completes_in(s.drop_last()).push(m),
            _ => completes_in(s.drop_last()),
        }
    }
}

/// Routes raw inbound messages into typed queues: the inbox is emptied and
/// each message is appended, in arrival order, to the queue of its kind.
pub fn route_inbound_messages(bus: &mut AuthorityBus)
    ensures
        final(bus).inbound@.len() == 0,
        final(bus).outbound@ == old(bus).outbound@,
        final(bus).pending_requests@ == old(bus).pending_requests@ + requests_in(old(bus).inbound@),
        final(bus).pending_accepts@ == old(bus).pending_accepts@ + accepts_in(old(bus).inbound@),
        final(bus).pending_rejects@ == old(bus).pending_rejects@ + rejects_in(old(bus).inbound@),
        final(bus).pending_ghost_updates@ == old(bus).pending_ghost_updates@ + ghost_updates_in(
            old(bus).inbound@,
        ),
        final(bus).pending_completes@ == old(bus).pending_completes@ + completes_in(
            old(bus).inbound@,
        ),
{
    let ghost start = *bus;
    let ghost all = bus.inbound@;
    let ghost mut k: int = 0;
    loop
        invariant
            0 <= k <= all.len(),
            bus.inbound@ == all.subrange(k, all.len() as int),
            bus.outbound@ == start.outbound@,
            bus.pending_requests@ == start.pending_requests@ + requests_in(all.take(k)),
            bus.pending_accepts@ == start.pending_accepts@ + accepts_in(all.take(k)),
            bus.pending_rejects@ == start.pending_rejects@ + rejects_in(all.take(k)),
            bus.pending_ghost_updates@ == start.pending_ghost_updates@ + ghost_updates_in(
                all.take(k),
            ),
            bus.pending_completes@ == start.pending_completes@ + completes_in(all.take(k)),
        ensures
            k == all.len(),
            bus.inbound@.len() == 0,
            bus.outbound@ == start.outbound@,
            bus.pending_requests@ == start.pending_requests@ + requests_in(all.take(k)),
            bus.pending_accepts@ == start.pending_accepts@ + accepts_in(all.take(k)),
            bus.pending_rejects@ == start.pending_rejects@ + rejects_in(all.take(k)),
            bus.pending_ghost_updates@ == start.pending_ghost_updates@ + ghost_updates_in(
                all.take(k),
            ),
            bus.pending_completes@ == start.pending_completes@ + completes_in(all.take(k)),
        decreases all.len() - k,
    {
        let next = bus.inbound.pop_front();
        match next {
            None => {
                break;
            },
            Some(message) => {
                proof {
                    assert(all.take(k + 1).drop_last() =~= all.take(k));
                    assert(all.take(k + 1).last() == message);
                }
                match message {
                    AuthorityEnvelope::HandoffRequest(request) => {
                        bus.pending_requests.push_back(request);
                    },
                    AuthorityEnvelope::HandoffAccept(accept) => {
                        bus.pending_accepts.push_back(accept);
                    },
                    AuthorityEnvelope::HandoffReject(reject) => {
                        bus.pending_rejects.push_back(reject);
                    },
                    AuthorityEnvelope::GhostUpdate(update) => {
                        bus.pending_ghost_updates.push_back(update);
                    },
                    AuthorityEnvelope::HandoffComplete(complete) => {
                        bus.pending_completes.push_back(complete);
                    },
                }
                proof {
                    k = k + 1;
                }
            },
        }
    }
    proof {
        assert(all.take(k) =~= all);
    }
}


/// Routing loses and duplicates nothing: every inbound message lands in
/// exactly one typed queue.
pub proof fn law_routing_partitions_inbound(s: Seq<AuthorityEnvelope>)
    ensures
        requests_in(s).len() + accepts_in(s).len() + rejects_in(s).len() + ghost_updates_in(s).len()
            + completes_in(s).len() == s.len(),
    decreases s.len(),
{
    if s.len() > 0 {
        law_routing_partitions_inbound(s.drop_last());
    }
}

/// An entity whose handoff request is due: it is a player with a position,
/// pending handoff, and its request has not been sent yet.
pub open spec fn request_due(e: AuthorityEntity) -> bool {
    &&& e.player is Some
    &&& e.transform is Some
    &&& e.state == Some(AuthorityState::PendingHandoff)
    &&& e.request matches Some(rs) && !rs.dispatched
}

/// The request sent for a due entity: the stored request with the entity's
/// current id, position and velocity (zero when it has none).
pub open spec fn outgoing_request(e: AuthorityEntity) -> HandoffRequest {
    HandoffRequest {
        entity_id: e.player->0.entity_id,
        pos: Vec2 { x: e.transform->0.x, y: e.transform->0.y },
        vel: match e.velocity {
            Some(v) => v,
            None => Vec2 { x: 0, y: 0 },
        },
        ..e.request->0.request
    }
}

/// The entity after the dispatch pass: a due request is marked sent at
/// `tick`; every other entity is left alone.
pub open spec fn after_dispatch(e: AuthorityEntity, tick: u32) -> AuthorityEntity {
    if request_due(e) {
        AuthorityEntity {
            request: Some(
                HandoffRequestState { requested_tick: tick, dispatched: true, ..e.request->0 },
            ),
            ..e
        }
    } else {
        e
    }
}

/// The requests sent by the dispatch pass over `s`, in entity order.
pub open spec fn dispatched_requests(s: Seq<AuthorityEntity>) -> Seq<AuthorityEnvelope>
    decreases s.len(),
{
    if s.len() == 0 {
        seq![]
    } else if request_due(s.last()) {
        dispatched_requests(s.drop_last()).push(
            AuthorityEnvelope::HandoffRequest(outgoing_request(s.last())),
        )
    } else {
        dispatched_requests(s.drop_last())
    }
}

/// Emits outbound handoff requests for pending entities: each due request
/// is sent once, with the entity's current state, and marked as sent.
pub fn apply_handoff_requests(bus: &mut AuthorityBus, world: &mut AuthorityWorld, tick: u32)
    ensures
        final(world).next_entity == old(world).next_entity,
        final(world).entities@ == old(world).entities@.map_values(
            |e: AuthorityEntity| after_dispatch(e, tick),
        ),
        final(bus).outbound@ == old(bus).outbound@ + dispatched_requests(old(world).entities@),
        final(bus).inbound@ == old(bus).inbound@,
        final(bus).pending_requests@ == old(bus).pending_requests@,
        final(bus).pending_accepts@ == old(bus).pending_accepts@,
        final(bus).pending_rejects@ == old(bus).pending_rejects@,
        final(bus).pending_ghost_updates@ == old(bus).pending_ghost_updates@,
        final(bus).pending_completes@ == old(bus).pending_completes@,
{
    let ghost ents = world.entities@;
    let ghost start = *bus;
    let n = world.entities.len();
    let mut i: usize = 0;
    while i < n
        invariant
            n == ents.len(),
            i <= n,
            world.next_entity == old(world).next_entity,
            world.entities@.len() == n,
            forall|j: int| 0 <= j < i ==> world.entities@[j] == after_dispatch(ents[j], tick),
            forall|j: int| i <= j < n ==> world.entities@[j] == ents[j],
            bus.outbound@ == start.outbound@ + dispatched_requests(ents.take(i as int)),
            bus.inbound@ == start.inbound@,
            bus.pending_requests@ == start.pending_requests@,
            bus.pending_accepts@ == start.pending_accepts@,
            bus.pending_rejects@ == start.pending_rejects@,
            bus.pending_ghost_updates@ == start.pending_ghost_updates@,
            bus.pending_completes@ == start.pending_completes@,
        decreases n - i,
    {
        proof {
            assert(ents.take(i + 1).drop_last() =~= ents.take(i as int));
            assert(ents.take(i + 1).last() == ents[i as int]);
        }
        let pending = match (&world.entities[i].player, &world.entities[i].transform, world.entities[i].state, world.entities[i].request) {
            (Some(_), Some(_), Some(AuthorityState::PendingHandoff), Some(rs)) => if rs.dispatched {
                None
            } else {
                Some(rs)
            },
            _ => None,
        };
        if let Some(rs) = pending {
            let vel = match world.entities[i].velocity {
                Some(v) => v,
                None => Vec2::zero(),
            };
            let entity_id = match &world.entities[i].player {
                Some(p) => p.entity_id,
                None => 0,
            };
            let pos = match world.entities[i].transform {
                Some(t) => t.truncate(),
                None => Vec2::zero(),
            };
            let mut request = rs.request;
            request.entity_id = entity_id;
            request.pos = pos;
            request.vel = vel;
            bus.outbound.push_back(AuthorityEnvelope::HandoffRequest(request));
            world.entities[i].request = Some(
                HandoffRequestState { requested_tick: tick, dispatched: true, ..rs },
            );
        }
        i = i + 1;
    }
    proof {
        assert(ents.take(n as int) =~= ents);
        assert(world.entities@ =~= ents.map_values(|e: AuthorityEntity| after_dispatch(e, tick)));
    }
}


/// A ghost replica of the remote entity `id` that ghost updates can move.
pub open spec fn is_ghost_of(e: EntityView, id: u32) -> bool {
    &&& e.transform is Some
    &&& e.state == Some(AuthorityState::Ghosted)
    &&& e.replica matches Some(r) && r.source_entity_id == id
}

/// Some entity of `s` is a ghost replica of `id`.
pub open spec fn has_ghost_of(s: Seq<EntityView>, id: u32) -> bool {
    exists|i: int| 0 <= i < s.len() && is_ghost_of(#[trigger] s[i], id)
}

/// The entity moved to `pos`, keeping its depth.
pub open spec fn moved(e: EntityView, pos: Vec2) -> EntityView {
    EntityView { transform: Some(Vec3 { x: pos.x, y: pos.y, z: e.transform->0.z }), ..e }
}

/// One ghost update applied to the entities: the first ghost of `id` moves
/// to `pos`, later ghosts of `id` are despawned as duplicates, every other
/// entity is left alone.
pub open spec fn ghost_pass(s: Seq<EntityView>, id: u32, pos: Vec2) -> Seq<EntityView>
    decreases s.len(),
{
    if s.len() == 0 {
        seq![]
    } else if is_ghost_of(s.last(), id) {
        if has_ghost_of(s.drop_last(), id) {
            ghost_pass(s.drop_last(), id, pos)
        } else {
            ghost_pass(s.drop_last(), id, pos).push(moved(s.last(), pos))
        }
    } else {
        ghost_pass(s.drop_last(), id, pos).push(s.last())
    }
}

/// Where `id` stands in a list of (id, position) pairs, or -1.
pub open spec fn id_position(l: Seq<(u32, Vec2)>, id: u32) -> int
    decreases l.len(),
{
    if l.len() == 0 {
        -1
    } else if l.last().0 == id {
        l.len() - 1
    } else {
        id_position(l.drop_last(), id)
    }
}

/// The last position sent for each entity in a batch of ghost updates,
/// entities in the order they first appear.
pub open spec fn latest_updates(s: Seq<GhostUpdate>) -> Seq<(u32, Vec2)>
    decreases s.len(),
{
    if s.len() == 0 {
        seq![]
    } else {
        let l = latest_updates(s.drop_last());
        let k = id_position(l, s.last().entity_id);
        if k >= 0 {
            l.update(k, (s.last().entity_id, s.last().pos))
        } else {
            l.push((s.last().entity_id, s.last().pos))
        }
    }
}

/// The world after applying a batch of latest positions in order: an
/// entity with ghosts goes through `ghost_pass`; an entity without one gets
/// a new ghost, spawned from shard 0 under the next handle.
pub open spec fn ghost_batch(s: Seq<EntityView>, next: nat, batch: Seq<(u32, Vec2)>) -> (Seq<
    EntityView,
>, nat)
    decreases batch.len(),
{
    if batch.len() == 0 {
        (s, next)
    } else {
        let (w, n) = ghost_batch(s, next, batch.drop_last());
        let (id, pos) = batch.last();
        if has_ghost_of(w, id) {
            (ghost_pass(w, id, pos), n)
        } else {
            (w.push(spawned_ghost(n as u64, id, 0, pos)), n + 1)
        }
    }
}

proof fn lemma_latest_updates_len(s: Seq<GhostUpdate>)
    ensures
        latest_updates(s).len() <= s.len(),
    decreases s.len(),
{
    if s.len() > 0 {
        lemma_latest_updates_len(s.drop_last());
        lemma_id_position_bounds(latest_updates(s.drop_last()), s.last().entity_id);
    }
}

proof fn lemma_id_position_bounds(l: Seq<(u32, Vec2)>, id: u32)
    ensures
        -1 <= id_position(l, id) < l.len(),
        id_position(l, id) >= 0 ==> l[id_position(l, id)].0 == id,
        id_position(l, id) < 0 ==> forall|j: int| 0 <= j < l.len() ==> l[j].0 != id,
    decreases l.len(),
{
    if l.len() > 0 {
        lemma_id_position_bounds(l.drop_last(), id);
        if l.last().0 != id {
            assert forall|j: int| 0 <= j < l.len() - 1 implies l[j] == l.drop_last()[j] by {}
        }
    }
}

/// The batch kept from a queue of ghost updates names each entity once,
/// with the position of the last update for it.
pub proof fn lemma_latest_updates_shape(s: Seq<GhostUpdate>)
    ensures
        forall|i: int, j: int|
            0 <= i < j < latest_updates(s).len() ==> #[trigger] latest_updates(s)[i].0
                != #[trigger] latest_updates(s)[j].0,
        forall|i: int|
            0 <= i < s.len() && (forall|j: int| i < j < s.len() ==> s[j].entity_id != s[i].entity_id)
                ==> latest_updates(s).contains((#[trigger] s[i].entity_id, s[i].pos)),
    decreases s.len(),
{
    if s.len() > 0 {
        let p = s.drop_last();
        let u = s.last();
        let l = latest_updates(p);
        let r = latest_updates(s);
        lemma_latest_updates_shape(p);
        lemma_id_position_bounds(l, u.entity_id);
        let k = id_position(l, u.entity_id);
        assert forall|i: int, j: int| 0 <= i < j < r.len() implies #[trigger] r[i].0 != #[trigger] r[j].0 by {
            if k >= 0 {
                assert(r[i].0 == l[i].0 && r[j].0 == l[j].0);
            } else if j == r.len() - 1 {
                assert(r[i] == l[i]);
            } else {
                assert(r[i] == l[i] && r[j] == l[j]);
            }
        }
        assert forall|i: int|
            0 <= i < s.len() && (forall|j: int| i < j < s.len() ==> s[j].entity_id != s[i].entity_id)
                implies r.contains((#[trigger] s[i].entity_id, s[i].pos)) by {
            if i == s.len() - 1 {
                if k >= 0 {
                    assert(r[k] == (u.entity_id, u.pos));
                } else {
                    assert(r[r.len() - 1] == (u.entity_id, u.pos));
                }
            } else {
                assert(p[i] == s[i]);
                assert forall|j: int| i < j < p.len() implies p[j].entity_id != p[i].entity_id by {
                    assert(p[j] == s[j]);
                }
                assert(l.contains((p[i].entity_id, p[i].pos)));
                let m = choose|m: int| 0 <= m < l.len() && l[m] == (p[i].entity_id, p[i].pos);
                assert(s[s.len() - 1].entity_id != s[i].entity_id);
                if k >= 0 {
                    assert(m != k);
                    assert(r[m] == l[m]);
                } else {
                    assert(r[m] == l[m]);
                }
            }
        }
    }
}

/// Drains the queued ghost updates, keeping the last position per entity.
fn collect_latest_updates(queue: &mut VecDeque<GhostUpdate>) -> (latest: Vec<(u32, Vec2)>)
    ensures
        final(queue)@.len() == 0,
        latest@ == latest_updates(old(queue)@),
{
    let ghost all = queue@;
    let ghost mut k: int = 0;
    let mut latest: Vec<(u32, Vec2)> = Vec::new();
    loop
        invariant
            0 <= k <= all.len(),
            queue@ == all.subrange(k, all.len() as int),
            latest@ == latest_updates(all.take(k)),
        ensures
            queue@.len() == 0,
            latest@ == latest_updates(all),
        decreases all.len() - k,
    {
        match queue.pop_front() {
            None => {
                proof {
                    assert(all.take(k) =~= all);
                }
                break;
            },
            Some(update) => {
                proof {
                    assert(all.take(k + 1).drop_last() =~= all.take(k));
                    assert(all.take(k + 1).last() == update);
                    lemma_id_position_bounds(latest@, update.entity_id);
                }
                let ghost l = latest@;
                let mut j = latest.len();
                let mut found = false;
                while j > 0 && !found
                    invariant
                        j <= latest@.len(),
                        latest@ == l,
                        found ==> j < l.len() && l[j as int].0 == update.entity_id
                            && id_position(l, update.entity_id) == j,
                        !found ==> forall|m: int| j <= m < l.len() ==> l[m].0 != update.entity_id,
                    decreases j,
                {
                    if latest[j - 1].0 == update.entity_id {
                        proof {
                            lemma_id_position_tail(l, update.entity_id, j - 1);
                        }
                        j = j - 1;
                        found = true;
                    } else {
                        j = j - 1;
                    }
                }
                if found {
                    latest.set(j, (update.entity_id, update.pos));
                } else {
                    proof {
                        lemma_id_position_absent(l, update.entity_id);
                    }
                    latest.push((update.entity_id, update.pos));
                }
                proof {
                    k = k + 1;
                }
            },
        }
    }
    latest
}

proof fn lemma_id_position_tail(l: Seq<(u32, Vec2)>, id: u32, j: int)
    requires
        0 <= j < l.len(),
        l[j].0 == id,
        forall|m: int| j < m < l.len() ==> l[m].0 != id,
    ensures
        id_position(l, id) == j,
    decreases l.len(),
{
    if l.len() - 1 != j {
        assert(l.drop_last()[j] == l[j]);
        assert forall|m: int| j < m < l.len() - 1 implies l.drop_last()[m].0 != id by {
            assert(l.drop_last()[m] == l[m]);
        }
        lemma_id_position_tail(l.drop_last(), id, j);
    }
}

proof fn lemma_id_position_absent(l: Seq<(u32, Vec2)>, id: u32)
    requires
        forall|m: int| 0 <= m < l.len() ==> l[m].0 != id,
    ensures
        id_position(l, id) == -1,
    decreases l.len(),
{
    if l.len() > 0 {
        assert forall|m: int| 0 <= m < l.len() - 1 implies l.drop_last()[m].0 != id by {
            assert(l.drop_last()[m] == l[m]);
        }
        lemma_id_position_absent(l.drop_last(), id);
    }
}

/// Runtime test of `is_ghost_of`.
fn ghost_of(e: &AuthorityEntity, id: u32) -> (b: bool)
    ensures
        b == is_ghost_of(e@, id),
{
    match (e.transform, e.state, e.replica) {
        (Some(_), Some(AuthorityState::Ghosted), Some(r)) => r.source_entity_id == id,
        _ => false,
    }
}

/// Applies one ghost update in place; returns whether a ghost of `id` was
/// found.
fn move_ghosts_of(entities: &mut Vec<AuthorityEntity>, id: u32, pos: Vec2) -> (found: bool)
    ensures
        found == has_ghost_of(entities_view(old(entities)@), id),
        entities_view(final(entities)@) == ghost_pass(entities_view(old(entities)@), id, pos),
{
    let ghost orig = entities_view(entities@);
    let ghost mut k: int = 0;
    let mut j: usize = 0;
    let mut found = false;
    while j < entities.len()
        invariant
            0 <= k <= orig.len(),
            entities_view(entities@) == ghost_pass(orig.take(k), id, pos) + orig.subrange(
                k,
                orig.len() as int,
            ),
            j == ghost_pass(orig.take(k), id, pos).len(),
            found == has_ghost_of(orig.take(k), id),
            j < entities@.len() <==> k < orig.len(),
        decreases orig.len() - k,
    {
        proof {
            assert(orig.take(k + 1).drop_last() =~= orig.take(k));
            assert(entities_view(entities@)[j as int] == orig[k]);
            assert(orig.take(k + 1).last() == orig[k]);
            if has_ghost_of(orig.take(k), id) {
                let w = choose|i: int| 0 <= i < orig.take(k).len() && is_ghost_of(#[trigger] orig.take(k)[i], id);
                assert(orig.take(k + 1)[w] == orig.take(k)[w]);
            }
            if is_ghost_of(orig[k], id) {
                assert(orig.take(k + 1)[k] == orig[k]);
            }
            if has_ghost_of(orig.take(k + 1), id) && !is_ghost_of(orig[k], id) {
                let w = choose|i: int| 0 <= i < orig.take(k + 1).len() && is_ghost_of(#[trigger] orig.take(k + 1)[i], id);
                assert(orig.take(k)[w] == orig.take(k + 1)[w]);
            }
        }
        let ghost before = entities_view(entities@);
        if ghost_of(&entities[j], id) {
            if !found {
                let z = match entities[j].transform {
                    Some(t) => t.z,
                    None => 0,
                };
                entities[j].transform = Some(Vec3::extend(pos, z));
                proof {
                    assert(ghost_pass(orig.take(k + 1), id, pos) == ghost_pass(orig.take(k), id, pos).push(moved(orig[k], pos)));
                    assert(entities_view(entities@)[j as int] == moved(orig[k], pos));
                    assert(entities_view(entities@) =~= before.update(j as int, moved(orig[k], pos)));
                    assert(entities_view(entities@) =~= ghost_pass(orig.take(k + 1), id, pos) + orig.subrange(k + 1, orig.len() as int));
                }
                j = j + 1;
                found = true;
            } else {
                entities.remove(j);
                proof {
                    assert(ghost_pass(orig.take(k + 1), id, pos) == ghost_pass(orig.take(k), id, pos));
                    assert(entities_view(entities@) =~= before.remove(j as int));
                    assert(entities_view(entities@) =~= ghost_pass(orig.take(k + 1), id, pos) + orig.subrange(k + 1, orig.len() as int));
                }
            }
        } else {
            proof {
                assert(entities_view(entities@) =~= ghost_pass(orig.take(k + 1), id, pos) + orig.subrange(k + 1, orig.len() as int));
            }
            j = j + 1;
        }
        proof {
            k = k + 1;
        }
    }
    proof {
        assert(orig.take(k) =~= orig);
    }
    found
}


proof fn lemma_ghost_pass_without_ghost(s: Seq<EntityView>, id: u32, pos: Vec2)
    requires
        !has_ghost_of(s, id),
    ensures
        ghost_pass(s, id, pos) == s,
    decreases s.len(),
{
    if s.len() > 0 {
        assert(!is_ghost_of(s[s.len() - 1], id));
        assert forall|i: int| 0 <= i < s.drop_last().len() implies !is_ghost_of(#[trigger] s.drop_last()[i], id) by {
            assert(s.drop_last()[i] == s[i]);
        }
        lemma_ghost_pass_without_ghost(s.drop_last(), id, pos);
        assert(s.drop_last().push(s.last()) =~= s);
    }
}

/// Applies queued ghost updates to local replicas: the queue is drained;
/// for each entity it mentions, in order of first mention, the latest
/// position moves its first ghost and despawns the others, or spawns a
/// ghost when there is none.
pub fn apply_ghost_updates(bus: &mut AuthorityBus, world: &mut AuthorityWorld)
    requires
        old(world).next_entity + old(bus).pending_ghost_updates@.len() <= u64::MAX,
    ensures
        ({
            let (w, n) = ghost_batch(
                entities_view(old(world).entities@),
                old(world).next_entity as nat,
                latest_updates(old(bus).pending_ghost_updates@),
            );
            &&& entities_view(final(world).entities@) == w
            &&& final(world).next_entity == n
        }),
        final(bus).pending_ghost_updates@.len() == 0,
        final(bus).inbound@ == old(bus).inbound@,
        final(bus).outbound@ == old(bus).outbound@,
        final(bus).pending_requests@ == old(bus).pending_requests@,
        final(bus).pending_accepts@ == old(bus).pending_accepts@,
        final(bus).pending_rejects@ == old(bus).pending_rejects@,
        final(bus).pending_completes@ == old(bus).pending_completes@,
{
    proof {
        lemma_latest_updates_len(bus.pending_ghost_updates@);
    }
    let latest = collect_latest_updates(&mut bus.pending_ghost_updates);
    let ghost start = entities_view(world.entities@);
    let ghost next0 = world.next_entity as nat;
    let mut k: usize = 0;
    while k < latest.len()
        invariant
            k <= latest@.len(),
            next0 + latest@.len() <= u64::MAX,
            ({
                let (w, n) = ghost_batch(start, next0, latest@.take(k as int));
                &&& entities_view(world.entities@) == w
                &&& world.next_entity == n
                &&& n <= next0 + k
            }),
        decreases latest@.len() - k,
    {
        let (id, pos) = latest[k];
        proof {
            assert(latest@.take(k + 1).drop_last() =~= latest@.take(k as int));
            assert(latest@.take(k + 1).last() == (id, pos));
        }
        let ghost before = entities_view(world.entities@);
        let found = move_ghosts_of(&mut world.entities, id, pos);
        if !found {
            proof {
                lemma_ghost_pass_without_ghost(before, id, pos);
            }
            let ghost mid = world.entities@;
            let h = world.spawn_ghost_entity(id, 0, pos);
            proof {
                assert(entities_view(world.entities@) =~= entities_view(mid).push(
                    spawned_ghost(h, id, 0, pos),
                ));
            }
        }
        k = k + 1;
    }
    proof {
        assert(latest@.take(latest@.len() as int) =~= latest@);
    }
}


/// A player entity with id `id` whose handoff is pending.
pub open spec fn is_pending_player(e: EntityView, id: u32) -> bool {
    &&& e.player matches Some(p) && p.entity_id == id
    &&& e.state == Some(AuthorityState::PendingHandoff)
}

/// Index of the first entity of `s` that is a pending player `id`, or -1.
pub open spec fn first_pending(s: Seq<EntityView>, id: u32) -> int
    decreases s.len(),
{
    if s.len() == 0 {
        -1
    } else if first_pending(s.drop_last(), id) >= 0 {
        first_pending(s.drop_last(), id)
    } else if is_pending_player(s.last(), id) {
        s.len() - 1
    } else {
        -1
    }
}

/// The entity with its handoff marked accepted.
pub open spec fn accepted(e: EntityView) -> EntityView {
    EntityView { request: Some(HandoffRequestState { accepted: true, ..e.request->0 }), ..e }
}

/// The entity owned again: no pending request and no replica metadata.
pub open spec fn restored_view(e: EntityView) -> EntityView {
    EntityView { state: Some(AuthorityState::Owned), request: None, replica: None, ..e }
}

/// Accepts applied in order: each marks the request of the first pending
/// player it names, when that player has a request.
pub open spec fn accept_all(s: Seq<EntityView>, accepts: Seq<HandoffAccept>) -> Seq<EntityView>
    decreases accepts.len(),
{
    if accepts.len() == 0 {
        s
    } else {
        let w = accept_all(s, accepts.drop_last());
        let i = first_pending(w, accepts.last().entity_id);
        if i >= 0 && w[i].request is Some {
            w.update(i, accepted(w[i]))
        } else {
            w
        }
    }
}

/// A completion for `id` finalizes the handoff when the first pending
/// player `id` has an accepted request.
pub open spec fn completion_ready(w: Seq<EntityView>, id: u32) -> bool {
    let i = first_pending(w, id);
    &&& i >= 0
    &&& w[i].request matches Some(rs) && rs.accepted
}

/// The completions that could not be applied yet, kept in order.
pub open spec fn unfinished(w: Seq<EntityView>, completes: Seq<HandoffComplete>) -> Seq<
    HandoffComplete,
>
    decreases completes.len(),
{
    if completes.len() == 0 {
        seq![]
    } else if completion_ready(w, completes.last().entity_id) {
        unfinished(w, completes.drop_last())
    } else {
        unfinished(w, completes.drop_last()).push(completes.last())
    }
}

/// Entity `i` of `w` is handed back to local ownership by a reject or by a
/// ready completion.
pub open spec fn restored_by(
    w: Seq<EntityView>,
    rejects: Seq<HandoffReject>,
    completes: Seq<HandoffComplete>,
    i: int,
) -> bool {
    ||| exists|k: int| 0 <= k < rejects.len() && first_pending(w, #[trigger] rejects[k].entity_id) == i
    ||| exists|k: int|
        0 <= k < completes.len() && first_pending(w, #[trigger] completes[k].entity_id) == i
            && completion_ready(w, completes[k].entity_id)
}

proof fn lemma_first_pending_bounds(s: Seq<EntityView>, id: u32)
    ensures
        -1 <= first_pending(s, id) < s.len(),
        first_pending(s, id) >= 0 ==> is_pending_player(s[first_pending(s, id)], id),
        first_pending(s, id) >= 0 ==> forall|j: int| 0 <= j < first_pending(s, id) ==> !is_pending_player(#[trigger] s[j], id),
        first_pending(s, id) < 0 ==> forall|j: int| 0 <= j < s.len() ==> !is_pending_player(#[trigger] s[j], id),
    decreases s.len(),
{
    if s.len() > 0 {
        lemma_first_pending_bounds(s.drop_last(), id);
        assert forall|j: int| 0 <= j < s.len() - 1 implies s.drop_last()[j] == s[j] by {}
    }
}

proof fn lemma_first_pending_same_shape(s1: Seq<EntityView>, s2: Seq<EntityView>, id: u32)
    requires
        s1.len() == s2.len(),
        forall|j: int| 0 <= j < s1.len() ==> (is_pending_player(#[trigger] s1[j], id) <==> is_pending_player(s2[j], id)),
    ensures
        first_pending(s1, id) == first_pending(s2, id),
    decreases s1.len(),
{
    if s1.len() > 0 {
        assert forall|j: int| 0 <= j < s1.len() - 1 implies (is_pending_player(#[trigger] s1.drop_last()[j], id) <==> is_pending_player(s2.drop_last()[j], id)) by {
            assert(s1.drop_last()[j] == s1[j]);
            assert(s2.drop_last()[j] == s2[j]);
        }
        lemma_first_pending_same_shape(s1.drop_last(), s2.drop_last(), id);
        assert(s1.last() == s1[s1.len() - 1]);
        assert(s2.last() == s2[s2.len() - 1]);
    }
}

proof fn lemma_first_pending_unique(s: Seq<EntityView>, id: u32, i: int)
    requires
        0 <= i < s.len(),
        is_pending_player(s[i], id),
        forall|j: int| 0 <= j < i ==> !is_pending_player(#[trigger] s[j], id),
    ensures
        first_pending(s, id) == i,
{
    lemma_first_pending_bounds(s, id);
}

proof fn lemma_accept_all_shape(s: Seq<EntityView>, accepts: Seq<HandoffAccept>)
    ensures
        accept_all(s, accepts).len() == s.len(),
        forall|j: int| 0 <= j < s.len() ==> {
            &&& (#[trigger] accept_all(s, accepts)[j]).player == s[j].player
            &&& accept_all(s, accepts)[j].state == s[j].state
            &&& accept_all(s, accepts)[j].entity == s[j].entity
            &&& accept_all(s, accepts)[j].transform == s[j].transform
            &&& accept_all(s, accepts)[j].replica == s[j].replica
            &&& accept_all(s, accepts)[j].velocity == s[j].velocity
        },
    decreases accepts.len(),
{
    if accepts.len() > 0 {
        lemma_accept_all_shape(s, accepts.drop_last());
        let w = accept_all(s, accepts.drop_last());
        lemma_first_pending_bounds(w, accepts.last().entity_id);
    }
}

/// The player id of an entity whose handoff is pending, if it is one.
pub open spec fn pending_player_id(e: EntityView) -> Option<u32> {
    if e.state == Some(AuthorityState::PendingHandoff) && e.player is Some {
        Some(e.player->0.entity_id)
    } else {
        None
    }
}

/// A completion finishes a handoff only once the other shard accepted it:
/// an entity is handed back only while its handoff is pending, and then
/// only by a reject naming its player or because its request was accepted;
/// and a completion that names no pending player with an accepted request
/// is kept queued.
pub proof fn law_completion_needs_acceptance(
    w: Seq<EntityView>,
    rejects: Seq<HandoffReject>,
    completes: Seq<HandoffComplete>,
)
    ensures
        forall|i: int|
            0 <= i < w.len() && #[trigger] restored_by(w, rejects, completes, i) ==> {
                &&& pending_player_id(w[i]) is Some
                &&& (exists|k: int|
                    0 <= k < rejects.len() && Some(#[trigger] rejects[k].entity_id) == pending_player_id(w[i]))
                    || (w[i].request matches Some(rs) && rs.accepted)
            },
        forall|k: int|
            0 <= k < completes.len() && (forall|j: int|
                0 <= j < w.len() && pending_player_id(#[trigger] w[j]) == Some(completes[k].entity_id)
                    ==> !(w[j].request matches Some(rs) && rs.accepted)) ==> unfinished(w, completes).contains(
                #[trigger] completes[k],
            ),
    decreases completes.len(),
{
    assert forall|i: int|
        0 <= i < w.len() && #[trigger] restored_by(w, rejects, completes, i) implies {
            &&& pending_player_id(w[i]) is Some
            &&& (exists|k: int|
                0 <= k < rejects.len() && Some(#[trigger] rejects[k].entity_id) == pending_player_id(w[i]))
                || (w[i].request matches Some(rs) && rs.accepted)
        } by {
        if exists|k: int| 0 <= k < rejects.len() && first_pending(w, #[trigger] rejects[k].entity_id) == i {
            let k = choose|k: int| 0 <= k < rejects.len() && first_pending(w, #[trigger] rejects[k].entity_id) == i;
            lemma_first_pending_bounds(w, rejects[k].entity_id);
        } else {
            let k = choose|k: int|
                0 <= k < completes.len() && first_pending(w, #[trigger] completes[k].entity_id) == i
                    && completion_ready(w, completes[k].entity_id);
            lemma_first_pending_bounds(w, completes[k].entity_id);
        }
    }
    if completes.len() > 0 {
        let prev = completes.drop_last();
        law_completion_needs_acceptance(w, rejects, prev);
        let u = unfinished(w, completes);
        let pu = unfinished(w, prev);
        assert forall|k: int|
            0 <= k < completes.len() && (forall|j: int|
                0 <= j < w.len() && pending_player_id(#[trigger] w[j]) == Some(completes[k].entity_id)
                    ==> !(w[j].request matches Some(rs) && rs.accepted)) implies u.contains(
            #[trigger] completes[k],
        ) by {
            let id = completes[k].entity_id;
            if k < completes.len() - 1 {
                assert(prev[k] == completes[k]);
                let m = choose|m: int| 0 <= m < pu.len() && pu[m] == completes[k];
                if completion_ready(w, completes.last().entity_id) {
                    assert(u == pu);
                } else {
                    assert(u[m] == pu[m]);
                }
            } else {
                lemma_first_pending_bounds(w, id);
                let i = first_pending(w, id);
                if i >= 0 {
                    assert(pending_player_id(w[i]) == Some(id));
                }
                assert(!completion_ready(w, id));
                assert(u[u.len() - 1] == completes[k]);
            }
        }
    }
}

/// Whether entity `i` of `w` is the first pending player `id`.
pub open spec fn first_pending_at(w: Seq<EntityView>, id: u32, i: int) -> bool {
    &&& 0 <= i < w.len()
    &&& pending_player_id(w[i]) == Some(id)
    &&& forall|j: int| 0 <= j < i ==> pending_player_id(#[trigger] w[j]) != Some(id)
}

/// Answers finish the handoffs they name: a reject hands the first pending
/// player it names back, and so does a completion once that player's
/// request was accepted, the completion then leaving the queue.
pub proof fn law_answers_finish_pending_handoffs(
    w: Seq<EntityView>,
    rejects: Seq<HandoffReject>,
    completes: Seq<HandoffComplete>,
)
    ensures
        forall|k: int, i: int|
            #![trigger first_pending_at(w, rejects[k].entity_id, i)]
            0 <= k < rejects.len() && first_pending_at(w, rejects[k].entity_id, i) ==> restored_by(
                w,
                rejects,
                completes,
                i,
            ),
        forall|k: int, i: int|
            #![trigger first_pending_at(w, completes[k].entity_id, i)]
            0 <= k < completes.len() && first_pending_at(w, completes[k].entity_id, i) && (
            w[i].request matches Some(rs) && rs.accepted) ==> restored_by(w, rejects, completes, i)
                && !unfinished(w, completes).contains(completes[k]),
    decreases completes.len(),
{
    assert forall|k: int, i: int|
        #![trigger first_pending_at(w, rejects[k].entity_id, i)]
        0 <= k < rejects.len() && first_pending_at(w, rejects[k].entity_id, i) implies restored_by(
        w,
        rejects,
        completes,
        i,
    ) by {
        lemma_first_pending_unique(w, rejects[k].entity_id, i);
    }
    if completes.len() > 0 {
        let prev = completes.drop_last();
        law_answers_finish_pending_handoffs(w, rejects, prev);
        assert forall|k: int, i: int|
            #![trigger first_pending_at(w, completes[k].entity_id, i)]
            0 <= k < completes.len() && first_pending_at(w, completes[k].entity_id, i) && (
            w[i].request matches Some(rs) && rs.accepted) implies restored_by(w, rejects, completes, i)
            && !unfinished(w, completes).contains(completes[k]) by {
            let id = completes[k].entity_id;
            lemma_first_pending_unique(w, id, i);
            assert(completion_ready(w, id));
            let u = unfinished(w, completes);
            let pu = unfinished(w, prev);
            if k < completes.len() - 1 {
                assert(prev[k] == completes[k]);
                assert(first_pending_at(w, prev[k].entity_id, i));
                assert(!pu.contains(prev[k]));
            } else {
                if pu.contains(completes[k]) {
                    lemma_unfinished_not_ready(w, prev);
                    let m = choose|m: int| 0 <= m < pu.len() && pu[m] == completes[k];
                }
            }
            if completion_ready(w, completes.last().entity_id) {
                assert(u == pu);
                if k == completes.len() - 1 {
                    if pu.contains(completes[k]) {
                        lemma_unfinished_not_ready(w, prev);
                        let m = choose|m: int| 0 <= m < pu.len() && pu[m] == completes[k];
                    }
                }
            } else {
                assert(u == pu.push(completes.last()));
                assert(completes.last().entity_id != id);
                if u.contains(completes[k]) {
                    let m = choose|m: int| 0 <= m < u.len() && u[m] == completes[k];
                    if m < pu.len() {
                        assert(pu[m] == u[m]);
                    }
                }
            }
        }
    }
}

/// The completions kept queued are those that found no accepted handoff.
proof fn lemma_unfinished_not_ready(w: Seq<EntityView>, completes: Seq<HandoffComplete>)
    ensures
        forall|m: int|
            0 <= m < unfinished(w, completes).len() ==> !completion_ready(w, #[trigger] unfinished(w, completes)[m].entity_id),
    decreases completes.len(),
{
    if completes.len() > 0 {
        let prev = completes.drop_last();
        lemma_unfinished_not_ready(w, prev);
        let pu = unfinished(w, prev);
        assert forall|m: int| 0 <= m < pu.len() implies unfinished(w, completes).len() > m
            && #[trigger] unfinished(w, completes)[m] == pu[m] by {}
    }
}

/// Index of the first pending player `id`, if any.
fn find_first_pending(entities: &Vec<AuthorityEntity>, id: u32) -> (r: Option<usize>)
    ensures
        r is Some <==> first_pending(entities_view(entities@), id) >= 0,
        r matches Some(i) ==> i == first_pending(entities_view(entities@), id),
{
    let ghost v = entities_view(entities@);
    let mut i: usize = 0;
    while i < entities.len()
        invariant
            i <= entities@.len(),
            v == entities_view(entities@),
            forall|j: int| 0 <= j < i ==> !is_pending_player(#[trigger] v[j], id),
        decreases entities@.len() - i,
    {
        let pending = match (&entities[i].player, entities[i].state) {
            (Some(p), Some(AuthorityState::PendingHandoff)) => p.entity_id == id,
            _ => false,
        };
        if pending {
            proof {
                lemma_first_pending_unique(v, id, i as int);
            }
            return Some(i);
        }
        i = i + 1;
    }
    proof {
        lemma_first_pending_bounds(v, id);
    }
    None
}

/// Completes or rejects pending handoffs. Accepts mark the request of the
/// first pending player they name. Rejects, and completions whose handoff
/// was accepted, hand that player back to local ownership once every queue
/// has been read; completions that find no accepted handoff stay queued.
pub fn complete_handoffs(bus: &mut AuthorityBus, world: &mut AuthorityWorld)
    ensures
        ({
            let w = accept_all(entities_view(old(world).entities@), old(bus).pending_accepts@);
            &&& entities_view(final(world).entities@).len() == w.len()
            &&& forall|i: int| 0 <= i < w.len() ==> #[trigger] entities_view(final(world).entities@)[i]
                == if restored_by(w, old(bus).pending_rejects@, old(bus).pending_completes@, i) {
                restored_view(w[i])
            } else {
                w[i]
            }
            &&& final(bus).pending_completes@ == unfinished(w, old(bus).pending_completes@)
        }),
        final(world).next_entity == old(world).next_entity,
        final(bus).pending_accepts@.len() == 0,
        final(bus).pending_rejects@.len() == 0,
        final(bus).inbound@ == old(bus).inbound@,
        final(bus).outbound@ == old(bus).outbound@,
        final(bus).pending_requests@ == old(bus).pending_requests@,
        final(bus).pending_ghost_updates@ == old(bus).pending_ghost_updates@,
{
    let ghost start = entities_view(world.entities@);
    let ghost accepts = bus.pending_accepts@;
    let ghost rejects = bus.pending_rejects@;
    let ghost completes = bus.pending_completes@;
    // Accepts take effect at once.
    let ghost mut k: int = 0;
    loop
        invariant
            0 <= k <= accepts.len(),
            bus.pending_accepts@ == accepts.subrange(k, accepts.len() as int),
            entities_view(world.entities@) == accept_all(start, accepts.take(k)),
            world.next_entity == old(world).next_entity,
            bus.pending_rejects@ == rejects,
            bus.pending_completes@ == completes,
            bus.inbound@ == old(bus).inbound@,
            bus.outbound@ == old(bus).outbound@,
            bus.pending_requests@ == old(bus).pending_requests@,
            bus.pending_ghost_updates@ == old(bus).pending_ghost_updates@,
        ensures
            bus.pending_accepts@.len() == 0,
            entities_view(world.entities@) == accept_all(start, accepts),
            world.next_entity == old(world).next_entity,
            bus.pending_rejects@ == rejects,
            bus.pending_completes@ == completes,
            bus.inbound@ == old(bus).inbound@,
            bus.outbound@ == old(bus).outbound@,
            bus.pending_requests@ == old(bus).pending_requests@,
            bus.pending_ghost_updates@ == old(bus).pending_ghost_updates@,
        decreases accepts.len() - k,
    {
        match bus.pending_accepts.pop_front() {
            None => {
                proof {
                    assert(accepts.take(k) =~= accepts);
                }
                break;
            },
            Some(accept) => {
                proof {
                    assert(accepts.take(k + 1).drop_last() =~= accepts.take(k));
                    assert(accepts.take(k + 1).last() == accept);
                }
                let ghost before = entities_view(world.entities@);
                proof {
                    lemma_first_pending_bounds(before, accept.entity_id);
                }
                match find_first_pending(&world.entities, accept.entity_id) {
                    Some(i) => {
                        match world.entities[i].request {
                            Some(rs) => {
                                let mut rs = rs;
                                accept_handoff(&mut rs);
                                world.entities[i].request = Some(rs);
                                proof {
                                    assert(entities_view(world.entities@) =~= before.update(
                                        i as int,
                                        accepted(before[i as int]),
                                    ));
                                }
                            },
                            None => {},
                        }
                    },
                    None => {},
                }
                proof {
                    k = k + 1;
                }
            },
        }
    }
    let ghost w = entities_view(world.entities@);
    proof {
        lemma_accept_all_shape(start, accepts);
    }
    let n = world.entities.len();
    let mut rejected: Vec<bool> = Vec::new();
    let mut finalized: Vec<bool> = Vec::new();
    let mut i: usize = 0;
    while i < n
        invariant
            i <= n,
            rejected@.len() == i,
            finalized@.len() == i,
            forall|j: int| 0 <= j < i ==> !rejected@[j] && !finalized@[j],
        decreases n - i,
    {
        rejected.push(false);
        finalized.push(false);
        i = i + 1;
    }
    // Rejects restore ownership once the queues are read.
    let ghost mut kr: int = 0;
    loop
        invariant
            0 <= kr <= rejects.len(),
            bus.pending_rejects@ == rejects.subrange(kr, rejects.len() as int),
            entities_view(world.entities@) == w,
            n == w.len(),
            rejected@.len() == n,
            forall|j: int| 0 <= j < n ==> (#[trigger] rejected@[j] <==> exists|m: int| 0 <= m < kr && first_pending(w, #[trigger] rejects[m].entity_id) == j),
            world.next_entity == old(world).next_entity,
            bus.pending_accepts@.len() == 0,
            bus.pending_completes@ == completes,
            bus.inbound@ == old(bus).inbound@,
            bus.outbound@ == old(bus).outbound@,
            bus.pending_requests@ == old(bus).pending_requests@,
            bus.pending_ghost_updates@ == old(bus).pending_ghost_updates@,
        ensures
            bus.pending_rejects@.len() == 0,
            entities_view(world.entities@) == w,
            rejected@.len() == n,
            forall|j: int| 0 <= j < n ==> (#[trigger] rejected@[j] <==> exists|m: int| 0 <= m < rejects.len() && first_pending(w, #[trigger] rejects[m].entity_id) == j),
            world.next_entity == old(world).next_entity,
            bus.pending_accepts@.len() == 0,
            bus.pending_completes@ == completes,
            bus.inbound@ == old(bus).inbound@,
            bus.outbound@ == old(bus).outbound@,
            bus.pending_requests@ == old(bus).pending_requests@,
            bus.pending_ghost_updates@ == old(bus).pending_ghost_updates@,
        decreases rejects.len() - kr,
    {
        match bus.pending_rejects.pop_front() {
            None => {
                proof {
                    assert(kr == rejects.len());
                }
                break;
            },
            Some(reject) => {
                proof {
                    assert(rejects[kr] == reject);
                    lemma_first_pending_bounds(w, reject.entity_id);
                }
                match find_first_pending(&world.entities, reject.entity_id) {
                    Some(idx) => {
                        rejected.set(idx, true);
                    },
                    None => {},
                }
                proof {
                    assert forall|j: int| 0 <= j < n implies (#[trigger] rejected@[j] <==> exists|m: int| 0 <= m < kr + 1 && first_pending(w, #[trigger] rejects[m].entity_id) == j) by {
                        if first_pending(w, rejects[kr].entity_id) == j {
                            assert(0 <= kr < kr + 1);
                        }
                    }
                    kr = kr + 1;
                }
            },
        }
    }
    // Completions of accepted handoffs restore ownership; the others wait.
    let mut remaining: VecDeque<HandoffComplete> = VecDeque::new();
    let ghost mut kc: int = 0;
    loop
        invariant
            0 <= kc <= completes.len(),
            bus.pending_completes@ == completes.subrange(kc, completes.len() as int),
            entities_view(world.entities@) == w,
            n == w.len(),
            finalized@.len() == n,
            forall|j: int| 0 <= j < n ==> (#[trigger] finalized@[j] <==> exists|m: int| 0 <= m < kc && first_pending(w, #[trigger] completes[m].entity_id) == j && completion_ready(w, completes[m].entity_id)),
            remaining@ == unfinished(w, completes.take(kc)),
            world.next_entity == old(world).next_entity,
            rejected@.len() == n,
            forall|j: int| 0 <= j < n ==> (#[trigger] rejected@[j] <==> exists|m: int| 0 <= m < rejects.len() && first_pending(w, #[trigger] rejects[m].entity_id) == j),
            bus.pending_accepts@.len() == 0,
            bus.pending_rejects@.len() == 0,
            bus.inbound@ == old(bus).inbound@,
            bus.outbound@ == old(bus).outbound@,
            bus.pending_requests@ == old(bus).pending_requests@,
            bus.pending_ghost_updates@ == old(bus).pending_ghost_updates@,
        ensures
            bus.pending_completes@.len() == 0,
            entities_view(world.entities@) == w,
            finalized@.len() == n,
            forall|j: int| 0 <= j < n ==> (#[trigger] finalized@[j] <==> exists|m: int| 0 <= m < completes.len() && first_pending(w, #[trigger] completes[m].entity_id) == j && completion_ready(w, completes[m].entity_id)),
            remaining@ == unfinished(w, completes),
            world.next_entity == old(world).next_entity,
            rejected@.len() == n,
            forall|j: int| 0 <= j < n ==> (#[trigger] rejected@[j] <==> exists|m: int| 0 <= m < rejects.len() && first_pending(w, #[trigger] rejects[m].entity_id) == j),
            bus.pending_accepts@.len() == 0,
            bus.pending_rejects@.len() == 0,
            bus.inbound@ == old(bus).inbound@,
            bus.outbound@ == old(bus).outbound@,
            bus.pending_requests@ == old(bus).pending_requests@,
            bus.pending_ghost_updates@ == old(bus).pending_ghost_updates@,
        decreases completes.len() - kc,
    {
        match bus.pending_completes.pop_front() {
            None => {
                proof {
                    assert(kc == completes.len());
                    assert(completes.take(kc) =~= completes);
                }
                break;
            },
            Some(complete) => {
                proof {
                    assert(completes[kc] == complete);
                    assert(completes.take(kc + 1).drop_last() =~= completes.take(kc));
                    assert(completes.take(kc + 1).last() == complete);
                    lemma_first_pending_bounds(w, complete.entity_id);
                }
                let mut done = false;
                match find_first_pending(&world.entities, complete.entity_id) {
                    Some(idx) => {
                        let ready = match world.entities[idx].request {
                            Some(rs) => rs.accepted,
                            None => false,
                        };
                        if ready {
                            finalized.set(idx, true);
                            done = true;
                        }
                    },
                    None => {},
                }
                if !done {
                    remaining.push_back(complete);
                }
                proof {
                    assert forall|j: int| 0 <= j < n implies (#[trigger] finalized@[j] <==> exists|m: int| 0 <= m < kc + 1 && first_pending(w, #[trigger] completes[m].entity_id) == j && completion_ready(w, completes[m].entity_id)) by {
                        if first_pending(w, completes[kc].entity_id) == j && completion_ready(w, completes[kc].entity_id) {
                            assert(0 <= kc < kc + 1);
                        }
                    }
                    kc = kc + 1;
                }
            },
        }
    }
    bus.pending_completes = remaining;
    // Deferred ownership changes are applied last.
    let mut j: usize = 0;
    while j < n
        invariant
            j <= n,
            n == w.len(),
            rejected@.len() == n,
            finalized@.len() == n,
            entities_view(world.entities@).len() == n,
            forall|m: int| 0 <= m < j ==> #[trigger] entities_view(world.entities@)[m] == if rejected@[m] || finalized@[m] { restored_view(w[m]) } else { w[m] },
            forall|m: int| j <= m < n ==> #[trigger] entities_view(world.entities@)[m] == w[m],
            world.next_entity == old(world).next_entity,
            forall|m: int| 0 <= m < n ==> (#[trigger] rejected@[m] <==> exists|q: int| 0 <= q < rejects.len() && first_pending(w, #[trigger] rejects[q].entity_id) == m),
            forall|m: int| 0 <= m < n ==> (#[trigger] finalized@[m] <==> exists|q: int| 0 <= q < completes.len() && first_pending(w, #[trigger] completes[q].entity_id) == m && completion_ready(w, completes[q].entity_id)),
            bus.pending_completes@ == unfinished(w, completes),
            bus.pending_accepts@.len() == 0,
            bus.pending_rejects@.len() == 0,
            bus.inbound@ == old(bus).inbound@,
            bus.outbound@ == old(bus).outbound@,
            bus.pending_requests@ == old(bus).pending_requests@,
            bus.pending_ghost_updates@ == old(bus).pending_ghost_updates@,
        decreases n - j,
    {
        let ghost before = entities_view(world.entities@);
        if rejected[j] {
            reject_handoff(&mut world.entities[j]);
        }
        if finalized[j] {
            finalize_handoff(&mut world.entities[j]);
        }
        proof {
            assert forall|m: int| 0 <= m < n && m != j implies #[trigger] entities_view(world.entities@)[m] == before[m] by {}
            assert(before[j as int] == w[j as int]);
            if rejected@[j as int] || finalized@[j as int] {
                assert(entities_view(world.entities@)[j as int] =~= restored_view(w[j as int]));
            } else {
                assert(entities_view(world.entities@)[j as int] == w[j as int]);
            }
        }
        j = j + 1;
    }
    proof {
        assert forall|i: int| 0 <= i < w.len() implies #[trigger] entities_view(world.entities@)[i]
            == if restored_by(w, rejects, completes, i) { restored_view(w[i]) } else { w[i] } by {
            assert(rejected@[i] || finalized@[i] <==> restored_by(w, rejects, completes, i));
        }
    }
}

} // verus!
