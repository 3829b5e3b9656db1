//! What holds of the hand-off protocol across calls.

use crate::authority::state::AuthorityState;
use crate::authority::messages::HandoffRequest;
use crate::authority::systems::{
    after_dispatch, dispatched_requests, ghost_batch, ghost_pass, has_ghost_of, is_ghost_of,
    latest_updates, lemma_latest_updates_shape, moved, request_due,
};
use crate::authority::messages::GhostUpdate;
use crate::authority::world::{
    restored, spawned_ghost, with_pending_request, AuthorityEntity, EntityView,
};
use crate::geometry::Vec2;
use vstd::prelude::*;

verus! {

/// A handoff request is sent once: after a dispatch pass no request is
/// due any more, so a second pass sends nothing.
pub proof fn law_request_sent_once(s: Seq<AuthorityEntity>, tick: u32)
    ensures
        forall|i: int| 0 <= i < s.len() ==> !request_due(#[trigger] after_dispatch(s[i], tick)),
        dispatched_requests(s.map_values(|e: AuthorityEntity| after_dispatch(e, tick))) == Seq::<
            crate::authority::messages::AuthorityEnvelope,
        >::empty(),
    decreases s.len(),
{
    let t = s.map_values(|e: AuthorityEntity| after_dispatch(e, tick));
    if s.len() > 0 {
        law_request_sent_once(s.drop_last(), tick);
        assert(t.drop_last() =~= s.drop_last().map_values(|e: AuthorityEntity| after_dispatch(e, tick)));
        assert(t.last() == after_dispatch(s.last(), tick));
    }
}

/// Beginning a handoff and then finalising or rejecting it gives back an
/// owned entity unchanged in every other component: an entity owned with
/// no request and no replica comes back as it was.
pub proof fn law_handoff_cycle_restores(
    e: AuthorityEntity,
    target_shard_uuid: u128,
    request: HandoffRequest,
    tick: u32,
)
    ensures
        restored(with_pending_request(e, target_shard_uuid, request, tick)) == restored(e),
        (e.state == Some(AuthorityState::Owned) && e.request is None && e.replica is None) ==> restored(
            with_pending_request(e, target_shard_uuid, request, tick),
        ) == e,
{
}

/// A moved ghost is still a ghost of the same entity, at the new position.
proof fn lemma_moved_ghost(e: EntityView, id: u32, pos: Vec2)
    requires
        is_ghost_of(e, id),
    ensures
        is_ghost_of(moved(e, pos), id),
        moved(e, pos).transform->0.x == pos.x,
        moved(e, pos).transform->0.y == pos.y,
{
}

/// A ghost update leaves exactly one ghost of its entity, at the updated
/// position: when the entities held a ghost of `id`, the result holds one,
/// every ghost of `id` in it stands at `pos`, and no two entities of the
/// result are ghosts of `id`. The entities that are no ghost of `id` are
/// left as they were.
pub proof fn law_ghost_update_leaves_one_ghost(s: Seq<EntityView>, id: u32, pos: Vec2)
    ensures
        has_ghost_of(s, id) ==> has_ghost_of(ghost_pass(s, id, pos), id),
        forall|i: int|
            0 <= i < ghost_pass(s, id, pos).len() && is_ghost_of(#[trigger] ghost_pass(s, id, pos)[i], id)
                ==> ghost_pass(s, id, pos)[i].transform->0.x == pos.x && ghost_pass(s, id, pos)[i].transform->0.y
                == pos.y,
        forall|i: int, j: int|
            0 <= i < j < ghost_pass(s, id, pos).len() && is_ghost_of(
                #[trigger] ghost_pass(s, id, pos)[i],
                id,
            ) ==> !is_ghost_of(#[trigger] ghost_pass(s, id, pos)[j], id),
        !has_ghost_of(s, id) ==> ghost_pass(s, id, pos) == s,
    decreases s.len(),
{
    let r = ghost_pass(s, id, pos);
    if s.len() == 0 {
        return;
    }
    let p = s.drop_last();
    let last = s.last();
    law_ghost_update_leaves_one_ghost(p, id, pos);
    let rp = ghost_pass(p, id, pos);
    if is_ghost_of(last, id) {
        if has_ghost_of(p, id) {
            assert(r == rp);
            assert(has_ghost_of(s, id));
        } else {
            assert(r == rp.push(moved(last, pos)));
            assert(rp == p);
            lemma_moved_ghost(last, id, pos);
            assert(is_ghost_of(r[r.len() - 1], id));
            assert forall|i: int, j: int|
                0 <= i < j < r.len() && is_ghost_of(#[trigger] r[i], id) implies !is_ghost_of(#[trigger] r[j], id) by {
                if j < r.len() - 1 {
                    assert(r[i] == p[i]);
                } else {
                    assert(r[i] == p[i]);
                    assert(!is_ghost_of(p[i], id));
                }
            }
            assert forall|i: int|
                0 <= i < r.len() && is_ghost_of(#[trigger] r[i], id) implies r[i].transform->0.x == pos.x
                && r[i].transform->0.y == pos.y by {
                if i < r.len() - 1 {
                    assert(r[i] == p[i]);
                    assert(!is_ghost_of(p[i], id));
                }
            }
        }
    } else {
        assert(r == rp.push(last));
        assert forall|i: int, j: int|
            0 <= i < j < r.len() && is_ghost_of(#[trigger] r[i], id) implies !is_ghost_of(#[trigger] r[j], id) by {
            if j < r.len() - 1 {
                assert(r[i] == rp[i]);
                assert(r[j] == rp[j]);
            }
        }
        assert forall|i: int|
            0 <= i < r.len() && is_ghost_of(#[trigger] r[i], id) implies r[i].transform->0.x == pos.x
            && r[i].transform->0.y == pos.y by {
            assert(i < r.len() - 1);
            assert(r[i] == rp[i]);
        }
        if has_ghost_of(s, id) {
            let k = choose|k: int| 0 <= k < s.len() && is_ghost_of(#[trigger] s[k], id);
            assert(k < s.len() - 1);
            assert(p[k] == s[k]);
            assert(has_ghost_of(p, id));
            let m = choose|m: int| 0 <= m < rp.len() && is_ghost_of(#[trigger] rp[m], id);
            assert(r[m] == rp[m]);
        }
        if !has_ghost_of(s, id) {
            assert forall|k: int| 0 <= k < p.len() implies !is_ghost_of(#[trigger] p[k], id) by {
                assert(p[k] == s[k]);
            }
            assert(rp == p);
            assert(r =~= s);
        }
    }
}

/// The ghosts of `id` among some entities, in order.
pub open spec fn ghosts_of(s: Seq<EntityView>, id: u32) -> Seq<EntityView> {
    s.filter(|e: EntityView| is_ghost_of(e, id))
}

/// A sole ghost of `id` among the entities, standing at `pos`.
pub open spec fn sole_ghost_at(s: Seq<EntityView>, id: u32, pos: Vec2) -> bool {
    &&& ghosts_of(s, id).len() == 1
    &&& ghosts_of(s, id)[0].transform->0.x == pos.x
    &&& ghosts_of(s, id)[0].transform->0.y == pos.y
}

proof fn lemma_ghosts_of_push(s: Seq<EntityView>, x: EntityView, id: u32)
    ensures
        ghosts_of(s.push(x), id) == if is_ghost_of(x, id) {
            ghosts_of(s, id).push(x)
        } else {
            ghosts_of(s, id)
        },
{
    reveal(Seq::filter);
    assert(s.push(x).drop_last() =~= s);
}

proof fn lemma_no_ghost_none_listed(s: Seq<EntityView>, id: u32)
    ensures
        !has_ghost_of(s, id) <==> ghosts_of(s, id).len() == 0,
    decreases s.len(),
{
    if s.len() > 0 {
        let p = s.drop_last();
        lemma_no_ghost_none_listed(p, id);
        assert(p.push(s.last()) =~= s);
        lemma_ghosts_of_push(p, s.last(), id);
        if has_ghost_of(p, id) {
            let k = choose|k: int| 0 <= k < p.len() && is_ghost_of(#[trigger] p[k], id);
            assert(s[k] == p[k]);
        }
        if has_ghost_of(s, id) && !is_ghost_of(s.last(), id) {
            let k = choose|k: int| 0 <= k < s.len() && is_ghost_of(#[trigger] s[k], id);
            assert(p[k] == s[k]);
        }
        if is_ghost_of(s.last(), id) {
            assert(is_ghost_of(s[s.len() - 1], id));
        }
    }
}

/// A ghost update for `id` leaves the ghosts of every other entity as they
/// were.
proof fn lemma_ghost_pass_keeps_others(s: Seq<EntityView>, id: u32, other: u32, pos: Vec2)
    requires
        id != other,
    ensures
        ghosts_of(ghost_pass(s, id, pos), other) == ghosts_of(s, other),
    decreases s.len(),
{
    if s.len() > 0 {
        let p = s.drop_last();
        let last = s.last();
        lemma_ghost_pass_keeps_others(p, id, other, pos);
        assert(p.push(last) =~= s);
        lemma_ghosts_of_push(p, last, other);
        let rp = ghost_pass(p, id, pos);
        if is_ghost_of(last, id) {
            assert(!is_ghost_of(last, other));
            if !has_ghost_of(p, id) {
                lemma_ghosts_of_push(rp, moved(last, pos), other);
            }
        } else {
            lemma_ghosts_of_push(rp, last, other);
        }
    }
}

/// A ghost update for `id` leaves a sole ghost of `id` at `pos` when there
/// was one to move.
proof fn lemma_ghost_pass_sole(s: Seq<EntityView>, id: u32, pos: Vec2)
    requires
        has_ghost_of(s, id),
    ensures
        sole_ghost_at(ghost_pass(s, id, pos), id, pos),
    decreases s.len(),
{
    let p = s.drop_last();
    let last = s.last();
    assert(p.push(last) =~= s);
    let rp = ghost_pass(p, id, pos);
    if is_ghost_of(last, id) {
        if has_ghost_of(p, id) {
            lemma_ghost_pass_sole(p, id, pos);
        } else {
            law_ghost_update_leaves_one_ghost(p, id, pos);
            lemma_no_ghost_none_listed(p, id);
            lemma_ghosts_of_push(rp, moved(last, pos), id);
            lemma_moved_ghost(last, id, pos);
        }
    } else {
        let k = choose|k: int| 0 <= k < s.len() && is_ghost_of(#[trigger] s[k], id);
        assert(k < s.len() - 1);
        assert(p[k] == s[k]);
        lemma_ghost_pass_sole(p, id, pos);
        lemma_ghosts_of_push(rp, last, id);
    }
}

/// The ids of a batch of updates are distinct.
pub open spec fn distinct_ids(batch: Seq<(u32, Vec2)>) -> bool {
    forall|i: int, j: int| 0 <= i < j < batch.len() ==> #[trigger] batch[i].0 != #[trigger] batch[j].0
}

/// A batch of ghost updates, one per entity, leaves each entity of the
/// batch with a sole ghost, at the position the batch gives it: its ghost
/// moved when it had one, a new ghost otherwise.
pub proof fn law_ghost_batch_one_ghost_each(s: Seq<EntityView>, next: nat, batch: Seq<(u32, Vec2)>)
    requires
        distinct_ids(batch),
    ensures
        forall|k: int|
            0 <= k < batch.len() ==> sole_ghost_at(
                ghost_batch(s, next, batch).0,
                #[trigger] batch[k].0,
                batch[k].1,
            ),
    decreases batch.len(),
{
    if batch.len() > 0 {
        let prefix = batch.drop_last();
        assert(distinct_ids(prefix)) by {
            assert forall|i: int, j: int| 0 <= i < j < prefix.len() implies #[trigger] prefix[i].0
                != #[trigger] prefix[j].0 by {
                assert(prefix[i] == batch[i]);
                assert(prefix[j] == batch[j]);
            }
        }
        law_ghost_batch_one_ghost_each(s, next, prefix);
        let (w, n) = ghost_batch(s, next, prefix);
        let (id, pos) = batch.last();
        assert forall|k: int| 0 <= k < batch.len() implies sole_ghost_at(
            ghost_batch(s, next, batch).0,
            #[trigger] batch[k].0,
            batch[k].1,
        ) by {
            if k == batch.len() - 1 {
                if has_ghost_of(w, id) {
                    lemma_ghost_pass_sole(w, id, pos);
                } else {
                    lemma_no_ghost_none_listed(w, id);
                    lemma_ghosts_of_push(w, spawned_ghost(n as u64, id, 0, pos), id);
                }
            } else {
                assert(prefix[k] == batch[k]);
                let other = batch[k].0;
                assert(other != id);
                if has_ghost_of(w, id) {
                    lemma_ghost_pass_keeps_others(w, id, other, pos);
                } else {
                    lemma_ghosts_of_push(w, spawned_ghost(n as u64, id, 0, pos), other);
                }
            }
        }
    }
}

/// Applying a queue of ghost updates leaves, for every entity the queue
/// mentions, a sole ghost standing at the position of the last update for
/// it.
pub proof fn law_ghost_updates_leave_latest_positions(s: Seq<EntityView>, next: nat, updates: Seq<GhostUpdate>)
    ensures
        forall|i: int|
            0 <= i < updates.len() && (forall|j: int|
                i < j < updates.len() ==> updates[j].entity_id != updates[i].entity_id) ==> sole_ghost_at(
                ghost_batch(s, next, latest_updates(updates)).0,
                #[trigger] updates[i].entity_id,
                updates[i].pos,
            ),
{
    let l = latest_updates(updates);
    lemma_latest_updates_shape(updates);
    law_ghost_batch_one_ghost_each(s, next, l);
    assert forall|i: int|
        0 <= i < updates.len() && (forall|j: int|
            i < j < updates.len() ==> updates[j].entity_id != updates[i].entity_id) implies sole_ghost_at(
        ghost_batch(s, next, l).0,
        #[trigger] updates[i].entity_id,
        updates[i].pos,
    ) by {
        assert(l.contains((updates[i].entity_id, updates[i].pos)));
        let k = choose|k: int| 0 <= k < l.len() && l[k] == (updates[i].entity_id, updates[i].pos);
        assert(sole_ghost_at(ghost_batch(s, next, l).0, l[k].0, l[k].1));
    }
}

} // verus!
