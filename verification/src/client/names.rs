//! Which players the client starts to show when their positions arrive,
//! and how it learns their names.

use crate::geometry::Vec2;
use std::collections::HashMap;
use vstd::prelude::*;
use vstd::string::StringExecFns;

verus! {

broadcast use vstd::std_specs::hash::group_hash_axioms;

/// A player the client starts to show.
pub struct RemoteSpawn {
    pub connection_id: u128,
    pub position: Vec2,
    /// Whether it is the client's own player.
    pub is_me: bool,
    pub name: String,
}

/// The abstract value of a spawn: the name as text.
pub struct RemoteSpawnView {
    pub connection_id: u128,
    pub position: Vec2,
    pub is_me: bool,
    pub name: Seq<char>,
}

/// A request to the name service for a player's name, as the client
/// `requestor_id`: first the subscription to the answer, then the request.
#[derive(Debug, Clone, Copy, PartialEq, Eq, Structural)]
pub enum NameRequest {
    SubscribeNameResponse { requestor_id: u128, player_id: u128 },
    PublishNameRequest { requestor_id: u128, player_id: u128 },
}

/// The names the client knows, by player.
pub struct DiscoveredEntities {
    pub names: HashMap<u128, String>,
}

/// What the client shows while a name is on its way.
pub open spec fn loading_name() -> Seq<char> {
    seq!['L', 'o', 'a', 'd', 'i', 'n', 'g', '.', '.', '.']
}

/// The known names, as text.
pub open spec fn names_view(m: Map<u128, String>) -> Map<u128, Seq<char>> {
    m.map_values(|s: String| s@)
}

/// The view of a list of spawns.
pub open spec fn spawns_view(s: Seq<RemoteSpawn>) -> Seq<RemoteSpawnView> {
    s.map_values(
        |r: RemoteSpawn|
            RemoteSpawnView { connection_id: r.connection_id, position: r.position, is_me: r.is_me, name: r.name@ },
    )
}

/// The players among a list of spawns.
pub open spec fn spawned_ids(s: Seq<RemoteSpawnView>) -> Seq<u128> {
    s.map_values(|r: RemoteSpawnView| r.connection_id)
}

/// The requests for a player's name, sent when the client knows its own id
/// and its control stream is open.
pub open spec fn name_requests(my_id: Option<u128>, stream_open: bool, player_id: u128) -> Seq<NameRequest> {
    match my_id {
        Some(m) => if stream_open {
            seq![
                NameRequest::SubscribeNameResponse { requestor_id: m, player_id },
                NameRequest::PublishNameRequest { requestor_id: m, player_id },
            ]
        } else {
            Seq::empty()
        },
        None => Seq::empty(),
    }
}

/// The spawns, name requests and known names that a frame's position
/// updates lead to. A player already shown, or already spawned in this
/// frame, is skipped; the client's own player takes the session's user
/// name; another player takes its known name, or a placeholder while its
/// name is requested.
pub open spec fn spawn_plan(
    updates: Seq<(u128, Vec2)>,
    existing: Seq<u128>,
    my_id: Option<u128>,
    stream_open: bool,
    username: Seq<char>,
    names: Map<u128, Seq<char>>,
) -> (Seq<RemoteSpawnView>, Seq<NameRequest>, Map<u128, Seq<char>>)
    decreases updates.len(),
{
    if updates.len() == 0 {
        (Seq::empty(), Seq::empty(), names)
    } else {
        let (sp, rq, nm) = spawn_plan(updates.drop_last(), existing, my_id, stream_open, username, names);
        let (id, pos) = updates.last();
        if existing.contains(id) || spawned_ids(sp).contains(id) {
            (sp, rq, nm)
        } else if my_id == Some(id) {
            (
                sp.push(RemoteSpawnView { connection_id: id, position: pos, is_me: true, name: username }),
                rq,
                nm.insert(id, username),
            )
        } else if !nm.contains_key(id) {
            (
                sp.push(RemoteSpawnView { connection_id: id, position: pos, is_me: false, name: loading_name() }),
                rq + name_requests(my_id, stream_open, id),
                nm.insert(id, loading_name()),
            )
        } else {
            (sp.push(RemoteSpawnView { connection_id: id, position: pos, is_me: false, name: nm[id] }), rq, nm)
        }
    }
}

/// The result of a frame's position updates.
pub struct SpawnFrame {
    pub spawns: Vec<RemoteSpawn>,
    pub requests: Vec<NameRequest>,
}

fn contains_id(v: &Vec<u128>, id: u128) -> (b: bool)
    ensures
        b == v@.contains(id),
{
    let mut i: usize = 0;
    while i < v.len()
        invariant
            i <= v@.len(),
            forall|j: int| 0 <= j < i ==> v@[j] != id,
        decreases v@.len() - i,
    {
        if v[i] == id {
            return true;
        }
        i = i + 1;
    }
    false
}

fn spawned_contains(spawns: &Vec<RemoteSpawn>, id: u128) -> (b: bool)
    ensures
        b == spawned_ids(spawns_view(spawns@)).contains(id),
{
    let mut i: usize = 0;
    while i < spawns.len()
        invariant
            i <= spawns@.len(),
            forall|j: int| 0 <= j < i ==> spawns@[j].connection_id != id,
        decreases spawns@.len() - i,
    {
        if spawns[i].connection_id == id {
            proof {
                assert(spawned_ids(spawns_view(spawns@))[i as int] == id);
            }
            return true;
        }
        i = i + 1;
    }
    proof {
        if spawned_ids(spawns_view(spawns@)).contains(id) {
            let j = choose|j: int| 0 <= j < spawns@.len() && spawned_ids(spawns_view(spawns@))[j] == id;
            assert(spawns@[j].connection_id == id);
        }
    }
    false
}

impl DiscoveredEntities {
    /// No name known yet.
    pub fn new() -> (d: DiscoveredEntities)
        ensures
            names_view(d.names@) == Map::<u128, Seq<char>>::empty(),
    {
        let d = DiscoveredEntities { names: HashMap::new() };
        proof {
            assert(names_view(d.names@) =~= Map::<u128, Seq<char>>::empty());
        }
        d
    }

    /// A player's name arrived from the name service.
    pub fn record(&mut self, player_id: u128, name: String)
        ensures
            names_view(final(self).names@) == names_view(old(self).names@).insert(player_id, name@),
    {
        let ghost n = name@;
        self.names.insert(player_id, name);
        proof {
            assert(names_view(self.names@) =~= names_view(old(self).names@).insert(player_id, n));
        }
    }
    /// The name a player's tag shows: the name known for it, or the tag's
    /// current name when none is known.
    pub fn resolved_name(&self, player_id: u128, current: &String) -> (n: String)
        ensures
            n@ == if names_view(self.names@).contains_key(player_id) {
                names_view(self.names@)[player_id]
            } else {
                current@
            },
    {
        match self.names.get(&player_id) {
            Some(name) => name.clone(),
            None => current.clone(),
        }
    }
}

/// Decides which players a frame's position updates make the client show,
/// with the names they are shown under, and which names it asks for.
/// `existing` are the players shown already, `my_id` the client's own id
/// once connected.
pub fn plan_spawns(
    updates: &Vec<(u128, Vec2)>,
    existing: &Vec<u128>,
    my_id: Option<u128>,
    stream_open: bool,
    username: &String,
    discovered: &mut DiscoveredEntities,
) -> (f: SpawnFrame)
    ensures
        (spawns_view(f.spawns@), f.requests@, names_view(final(discovered).names@)) == spawn_plan(
            updates@,
            existing@,
            my_id,
            stream_open,
            username@,
            names_view(old(discovered).names@),
        ),
{
    let mut spawns: Vec<RemoteSpawn> = Vec::new();
    let mut requests: Vec<NameRequest> = Vec::new();
    let mut i: usize = 0;
    while i < updates.len()
        invariant
            i <= updates@.len(),
            (spawns_view(spawns@), requests@, names_view(discovered.names@)) == spawn_plan(
                updates@.take(i as int),
                existing@,
                my_id,
                stream_open,
                username@,
                names_view(old(discovered).names@),
            ),
        decreases updates@.len() - i,
    {
        proof {
            assert(updates@.take(i + 1).drop_last() =~= updates@.take(i as int));
        }
        let (id, pos) = updates[i];
        let ghost sp = spawns_view(spawns@);
        let ghost rq = requests@;
        let ghost nm = names_view(discovered.names@);
        if contains_id(existing, id) || spawned_contains(&spawns, id) {
        } else if my_id == Some(id) {
            let name = username.clone();
            discovered.record(id, username.clone());
            spawns.push(RemoteSpawn { connection_id: id, position: pos, is_me: true, name });
            proof {
                assert(spawns_view(spawns@) =~= sp.push(
                    RemoteSpawnView { connection_id: id, position: pos, is_me: true, name: username@ },
                ));
            }
        } else {
            match discovered.names.get(&id) {
                Some(known) => {
                    let name = known.clone();
                    proof {
                        assert(nm.contains_key(id) && nm[id] == name@);
                    }
                    spawns.push(RemoteSpawn { connection_id: id, position: pos, is_me: false, name });
                    proof {
                        assert(spawns_view(spawns@) =~= sp.push(
                            RemoteSpawnView { connection_id: id, position: pos, is_me: false, name: nm[id] },
                        ));
                    }
                },
                None => {
                    proof {
                        assert(!nm.contains_key(id));
                    }
                    match my_id {
                        Some(m) => {
                            if stream_open {
                                requests.push(
                                    NameRequest::SubscribeNameResponse { requestor_id: m, player_id: id },
                                );
                                requests.push(
                                    NameRequest::PublishNameRequest { requestor_id: m, player_id: id },
                                );
                            }
                        },
                        None => {},
                    }
                    proof {
                        assert(requests@ =~= rq + name_requests(my_id, stream_open, id));
                    }
                    let placeholder = String::from_str("Loading...");
                    proof {
                        reveal_strlit("Loading...");
                        assert(placeholder@ =~= loading_name());
                    }
                    discovered.record(id, placeholder.clone());
                    spawns.push(RemoteSpawn { connection_id: id, position: pos, is_me: false, name: placeholder });
                    proof {
                        assert(spawns_view(spawns@) =~= sp.push(
                            RemoteSpawnView {
                                connection_id: id,
                                position: pos,
                                is_me: false,
                                name: loading_name(),
                            },
                        ));
                    }
                },
            }
        }
        i = i + 1;
    }
    proof {
        assert(updates@.take(updates@.len() as int) =~= updates@);
    }
    SpawnFrame { spawns, requests }
}

/// Each player of a frame is spawned once, where its first update of the
/// frame put it: every spawn is at the position of the first update for its
/// player and is of a player not shown already, marked as the client's own
/// exactly when it is; no player is spawned twice; and every updated player
/// is shown already or spawned.
pub proof fn law_spawns_at_first_update(
    updates: Seq<(u128, Vec2)>,
    existing: Seq<u128>,
    my_id: Option<u128>,
    stream_open: bool,
    username: Seq<char>,
    names: Map<u128, Seq<char>>,
)
    ensures
        ({
            let sp = spawn_plan(updates, existing, my_id, stream_open, username, names).0;
            &&& forall|k: int|
                #![trigger sp[k]]
                0 <= k < sp.len() ==> exists|j: int|
                    0 <= j < updates.len() && #[trigger] updates[j] == (sp[k].connection_id, sp[k].position)
                        && forall|j2: int| 0 <= j2 < j ==> (#[trigger] updates[j2]).0 != sp[k].connection_id
            &&& forall|k: int| 0 <= k < sp.len() ==> !existing.contains(#[trigger] sp[k].connection_id)
            &&& forall|k: int| 0 <= k < sp.len() ==> (#[trigger] sp[k]).is_me == (my_id == Some(sp[k].connection_id))
            &&& forall|k1: int, k2: int|
                0 <= k1 < k2 < sp.len() ==> (#[trigger] sp[k1]).connection_id != (#[trigger] sp[k2]).connection_id
            &&& forall|j: int|
                0 <= j < updates.len() ==> existing.contains((#[trigger] updates[j]).0) || exists|k: int|
                    0 <= k < sp.len() && #[trigger] sp[k].connection_id == updates[j].0
        }),
    decreases updates.len(),
{
    if updates.len() > 0 {
        let prev = updates.drop_last();
        law_spawns_at_first_update(prev, existing, my_id, stream_open, username, names);
        let psp = spawn_plan(prev, existing, my_id, stream_open, username, names).0;
        let sp = spawn_plan(updates, existing, my_id, stream_open, username, names).0;
        let (id, pos) = updates.last();
        let n = updates.len() - 1;
        assert forall|j: int| 0 <= j < n implies #[trigger] prev[j] == updates[j] by {}
        assert(spawned_ids(psp).contains(id) <==> exists|k: int| 0 <= k < psp.len() && psp[k].connection_id == id) by {
            if spawned_ids(psp).contains(id) {
                let k = choose|k: int| 0 <= k < spawned_ids(psp).len() && spawned_ids(psp)[k] == id;
                assert(psp[k].connection_id == id);
            }
            if exists|k: int| 0 <= k < psp.len() && psp[k].connection_id == id {
                let k = choose|k: int| 0 <= k < psp.len() && psp[k].connection_id == id;
                assert(spawned_ids(psp)[k] == id);
            }
        }
        if existing.contains(id) || spawned_ids(psp).contains(id) {
            assert(sp == psp);
            assert forall|k: int| #![trigger sp[k]] 0 <= k < sp.len() implies exists|j: int|
                0 <= j < updates.len() && #[trigger] updates[j] == (sp[k].connection_id, sp[k].position)
                    && forall|j2: int| 0 <= j2 < j ==> (#[trigger] updates[j2]).0 != sp[k].connection_id by {
                let j = choose|j: int|
                    0 <= j < prev.len() && #[trigger] prev[j] == (psp[k].connection_id, psp[k].position)
                        && forall|j2: int| 0 <= j2 < j ==> (#[trigger] prev[j2]).0 != psp[k].connection_id;
                assert(updates[j] == prev[j]);
                assert forall|j2: int| 0 <= j2 < j implies (#[trigger] updates[j2]).0 != sp[k].connection_id by {
                    assert(updates[j2] == prev[j2]);
                }
            }
            assert forall|j: int| 0 <= j < updates.len() implies existing.contains((#[trigger] updates[j]).0)
                || exists|k: int| 0 <= k < sp.len() && #[trigger] sp[k].connection_id == updates[j].0 by {
                if j < n {
                    assert(updates[j] == prev[j]);
                }
            }
        } else {
            assert(sp.len() == psp.len() + 1);
            assert(sp.drop_last() == psp);
            assert forall|k: int| 0 <= k < psp.len() implies #[trigger] sp[k] == psp[k] by {
                assert(sp.drop_last()[k] == sp[k]);
            }
            assert(sp[n - n + psp.len()].connection_id == id);
            assert(sp[psp.len() as int].position == pos);
            assert forall|j2: int| 0 <= j2 < n implies (#[trigger] updates[j2]).0 != id by {
                assert(updates[j2] == prev[j2]);
                if updates[j2].0 == id {
                    assert(!existing.contains(id));
                    let k = choose|k: int| 0 <= k < psp.len() && #[trigger] psp[k].connection_id == prev[j2].0;
                }
            }
            assert forall|k: int| #![trigger sp[k]] 0 <= k < sp.len() implies exists|j: int|
                0 <= j < updates.len() && #[trigger] updates[j] == (sp[k].connection_id, sp[k].position)
                    && forall|j2: int| 0 <= j2 < j ==> (#[trigger] updates[j2]).0 != sp[k].connection_id by {
                if k < psp.len() {
                    let j = choose|j: int|
                        0 <= j < prev.len() && #[trigger] prev[j] == (psp[k].connection_id, psp[k].position)
                            && forall|j2: int| 0 <= j2 < j ==> (#[trigger] prev[j2]).0 != psp[k].connection_id;
                    assert(updates[j] == prev[j]);
                    assert forall|j2: int| 0 <= j2 < j implies (#[trigger] updates[j2]).0 != sp[k].connection_id by {
                        assert(updates[j2] == prev[j2]);
                    }
                } else {
                    assert(updates[n] == (sp[k].connection_id, sp[k].position));
                }
            }
            assert forall|k1: int, k2: int|
                0 <= k1 < k2 < sp.len() implies (#[trigger] sp[k1]).connection_id != (#[trigger] sp[k2]).connection_id by {
                if k2 == psp.len() {
                    assert(sp[k1] == psp[k1]);
                } else {
                    assert(sp[k1] == psp[k1]);
                    assert(sp[k2] == psp[k2]);
                }
            }
            assert forall|j: int| 0 <= j < updates.len() implies existing.contains((#[trigger] updates[j]).0)
                || exists|k: int| 0 <= k < sp.len() && #[trigger] sp[k].connection_id == updates[j].0 by {
                if j < n {
                    assert(updates[j] == prev[j]);
                    if !existing.contains(prev[j].0) {
                        let k = choose|k: int| 0 <= k < psp.len() && #[trigger] psp[k].connection_id == prev[j].0;
                        assert(sp[k] == psp[k]);
                    }
                } else {
                    assert(sp[psp.len() as int].connection_id == updates[j].0);
                }
            }
            assert forall|k: int| 0 <= k < sp.len() implies !existing.contains(#[trigger] sp[k].connection_id) by {
                if k < psp.len() {
                    assert(sp[k] == psp[k]);
                }
            }
            assert forall|k: int| 0 <= k < sp.len() implies (#[trigger] sp[k]).is_me == (my_id == Some(sp[k].connection_id)) by {
                if k < psp.len() {
                    assert(sp[k] == psp[k]);
                }
            }
        }
    }
}

/// The names a frame's spawns are shown under, and what the client asks
/// for: the client's own player shows the session's user name; another
/// player shows the name known for it, or a placeholder while it is
/// unknown; the known names afterwards are the former ones together with
/// the name each spawned player is shown under; and every request asks,
/// as the client, for the name of a spawned player whose name was unknown,
/// sent only once the client knows its id and its stream is open.
pub proof fn law_spawn_names(
    updates: Seq<(u128, Vec2)>,
    existing: Seq<u128>,
    my_id: Option<u128>,
    stream_open: bool,
    username: Seq<char>,
    names: Map<u128, Seq<char>>,
)
    ensures
        ({
            let (sp, rq, nm) = spawn_plan(updates, existing, my_id, stream_open, username, names);
            &&& forall|k: int|
                0 <= k < sp.len() ==> (#[trigger] sp[k]).name == if sp[k].is_me {
                    username
                } else if names.contains_key(sp[k].connection_id) {
                    names[sp[k].connection_id]
                } else {
                    loading_name()
                }
            &&& forall|c: u128|
                #[trigger] nm.contains_key(c) <==> names.contains_key(c) || spawned_ids(sp).contains(c)
            &&& forall|k: int| 0 <= k < sp.len() ==> nm[(#[trigger] sp[k]).connection_id] == sp[k].name
            &&& forall|c: u128|
                names.contains_key(c) && !spawned_ids(sp).contains(c) ==> #[trigger] nm[c] == names[c]
            &&& rq.len() > 0 ==> my_id is Some && stream_open
            &&& forall|m: int|
                0 <= m < rq.len() ==> exists|k: int|
                    #![trigger sp[k]]
                    0 <= k < sp.len() && !sp[k].is_me && !names.contains_key(sp[k].connection_id) && (
                    #[trigger] rq[m] == (NameRequest::SubscribeNameResponse {
                        requestor_id: my_id->0,
                        player_id: sp[k].connection_id,
                    }) || rq[m] == (NameRequest::PublishNameRequest {
                        requestor_id: my_id->0,
                        player_id: sp[k].connection_id,
                    }))
        }),
    decreases updates.len(),
{
    if updates.len() > 0 {
        let prev = updates.drop_last();
        law_spawn_names(prev, existing, my_id, stream_open, username, names);
        law_spawns_at_first_update(prev, existing, my_id, stream_open, username, names);
        let (psp, prq, pnm) = spawn_plan(prev, existing, my_id, stream_open, username, names);
        let (sp, rq, nm) = spawn_plan(updates, existing, my_id, stream_open, username, names);
        let (id, pos) = updates.last();
        if existing.contains(id) || spawned_ids(psp).contains(id) {
            assert(sp == psp && rq == prq && nm == pnm);
        } else {
            assert(rq.len() > prq.len() ==> rq == prq + name_requests(my_id, stream_open, id) && !pnm.contains_key(id)
                && my_id != Some(id));
            assert(rq.len() <= prq.len() ==> rq == prq);
            assert(spawned_ids(sp) =~= spawned_ids(psp).push(id));
            assert forall|k: int| 0 <= k < psp.len() implies #[trigger] sp[k] == psp[k] by {}
            assert(sp[psp.len() as int].connection_id == id);
            assert(!spawned_ids(psp).contains(id));
            assert(nm.contains_key(id));
            assert forall|c: u128| #[trigger] nm.contains_key(c) <==> names.contains_key(c) || spawned_ids(sp).contains(c) by {
                if c != id {
                    assert(spawned_ids(sp).contains(c) <==> spawned_ids(psp).contains(c)) by {
                        if spawned_ids(sp).contains(c) {
                            let m = choose|m: int| 0 <= m < spawned_ids(sp).len() && spawned_ids(sp)[m] == c;
                            assert(spawned_ids(psp)[m] == c);
                        }
                        if spawned_ids(psp).contains(c) {
                            let m = choose|m: int| 0 <= m < spawned_ids(psp).len() && spawned_ids(psp)[m] == c;
                            assert(spawned_ids(sp)[m] == c);
                        }
                    }
                } else {
                    assert(spawned_ids(sp)[psp.len() as int] == id);
                }
            }
            assert forall|k: int| 0 <= k < psp.len() implies (#[trigger] psp[k]).connection_id != id by {
                assert(spawned_ids(psp)[k] == psp[k].connection_id);
            }
            assert forall|k: int| 0 <= k < sp.len() implies nm[(#[trigger] sp[k]).connection_id] == sp[k].name by {
                if k < psp.len() {
                    assert(sp[k] == psp[k]);
                    assert(psp[k].connection_id != id);
                }
            }
            assert forall|c: u128| names.contains_key(c) && !spawned_ids(sp).contains(c) implies #[trigger] nm[c] == names[c] by {
                assert(c != id) by {
                    assert(spawned_ids(sp)[psp.len() as int] == id);
                }
                assert(!spawned_ids(psp).contains(c)) by {
                    if spawned_ids(psp).contains(c) {
                        let m = choose|m: int| 0 <= m < spawned_ids(psp).len() && spawned_ids(psp)[m] == c;
                        assert(spawned_ids(sp)[m] == c);
                    }
                }
            }
            assert(pnm.contains_key(id) <==> names.contains_key(id));
            assert(names.contains_key(id) ==> pnm[id] == names[id]);
            assert(rq.len() > 0 ==> my_id is Some && stream_open);
            assert forall|m: int| 0 <= m < rq.len() implies exists|k: int|
                #![trigger sp[k]]
                0 <= k < sp.len() && !sp[k].is_me && !names.contains_key(sp[k].connection_id) && (
                #[trigger] rq[m] == (NameRequest::SubscribeNameResponse {
                    requestor_id: my_id->0,
                    player_id: sp[k].connection_id,
                }) || rq[m] == (NameRequest::PublishNameRequest {
                    requestor_id: my_id->0,
                    player_id: sp[k].connection_id,
                })) by {
                if m < prq.len() {
                    assert(rq[m] == prq[m]);
                    let k = choose|k: int|
                        #![trigger psp[k]]
                        0 <= k < psp.len() && !psp[k].is_me && !names.contains_key(psp[k].connection_id) && (
                        prq[m] == (NameRequest::SubscribeNameResponse {
                            requestor_id: my_id->0,
                            player_id: psp[k].connection_id,
                        }) || prq[m] == (NameRequest::PublishNameRequest {
                            requestor_id: my_id->0,
                            player_id: psp[k].connection_id,
                        }));
                    assert(sp[k] == psp[k]);
                } else {
                    let k = psp.len() as int;
                    assert(sp[k].connection_id == id);
                    assert(!sp[k].is_me);
                    assert(!names.contains_key(id));
                    assert(rq[m] == name_requests(my_id, stream_open, id)[m - prq.len()]);
                }
            }
        }
    }
}

} // verus!
