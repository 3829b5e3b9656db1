//! Following the quadtree's shard layout: one game server per shard,
//! identified by the bit patterns of the shard's centre.

use crate::orchestrator::scaler::{contains_port, opt_text};
use vstd::prelude::*;
use vstd::seq_lib::group_filter_ensures;

verus! {

/// A shard's centre, as the bit patterns of its two coordinates.
pub type CenterKey = (u64, u64);

/// The server that runs one shard, by its registry key.
pub struct ShardEntry {
    pub center: CenterKey,
    pub redis_key: String,
}

/// The shards the orchestrator runs a server for, each centre once.
pub struct ShardRegistry {
    entries: Vec<ShardEntry>,
}

/// What a new shard layout asks of the fleet.
pub struct ShardPlan {
    /// The centres whose servers stop.
    pub to_remove: Vec<CenterKey>,
    /// The positions, in the new layout, of the shards that need a server.
    pub to_add: Vec<usize>,
}

/// The centres of a registry's entries, in order.
pub open spec fn centers(entries: Seq<(CenterKey, Seq<char>)>) -> Seq<CenterKey> {
    entries.map_values(|e: (CenterKey, Seq<char>)| e.0)
}

/// A registry holds each centre at most once.
pub open spec fn registry_wf(entries: Seq<(CenterKey, Seq<char>)>) -> bool {
    centers(entries).no_duplicates()
}

/// The registered centres that the new layout no longer has.
pub open spec fn planned_removals(entries: Seq<(CenterKey, Seq<char>)>, incoming: Seq<CenterKey>) -> Seq<CenterKey> {
    centers(entries).filter(|c: CenterKey| !incoming.contains(c))
}

/// The positions of the new layout's shards whose centre is not known,
/// in order.
pub open spec fn new_center_indices(incoming: Seq<CenterKey>, known: Seq<CenterKey>) -> Seq<usize>
    decreases incoming.len(),
{
    if incoming.len() == 0 {
        Seq::empty()
    } else {
        let rest = new_center_indices(incoming.drop_last(), known);
        if known.contains(incoming.last()) {
            rest
        } else {
            rest.push((incoming.len() - 1) as usize)
        }
    }
}

/// The centres the new layout adds.
pub open spec fn planned_additions(entries: Seq<(CenterKey, Seq<char>)>, incoming: Seq<CenterKey>) -> Seq<CenterKey> {
    new_center_indices(incoming, centers(entries)).map_values(|i: usize| incoming[i as int])
}

impl View for ShardRegistry {
    type V = Seq<(CenterKey, Seq<char>)>;

    closed spec fn view(&self) -> Seq<(CenterKey, Seq<char>)> {
        entries_view(self.entries@)
    }
}

/// The registry key recorded for a centre, if any.
pub open spec fn lookup(entries: Seq<(CenterKey, Seq<char>)>, c: CenterKey) -> Option<Seq<char>>
    decreases entries.len(),
{
    if entries.len() == 0 {
        None
    } else if entries.last().0 == c {
        Some(entries.last().1)
    } else {
        lookup(entries.drop_last(), c)
    }
}

/// A centre has a key exactly when it is registered.
pub proof fn lemma_lookup_registered(entries: Seq<(CenterKey, Seq<char>)>, c: CenterKey)
    ensures
        lookup(entries, c) is Some <==> centers(entries).contains(c),
    decreases entries.len(),
{
    if entries.len() > 0 {
        let p = entries.drop_last();
        lemma_lookup_registered(p, c);
        assert(centers(entries) =~= centers(p).push(entries.last().0));
        crate::broker::router::lemma_push_contains(centers(p), entries.last().0);
    }
}

/// Dropping an entry forgets its centre and keeps every other key.
proof fn lemma_lookup_remove(entries: Seq<(CenterKey, Seq<char>)>, i: int, x: CenterKey)
    requires
        registry_wf(entries),
        0 <= i < entries.len(),
    ensures
        lookup(entries.remove(i), x) == if x == entries[i].0 {
            None
        } else {
            lookup(entries, x)
        },
    decreases entries.len(),
{
    let p = entries.drop_last();
    let last = entries.last();
    assert(centers(p) =~= centers(entries).drop_last());
    if i == entries.len() - 1 {
        assert(entries.remove(i) =~= p);
        if x == entries[i].0 {
            lemma_lookup_registered(p, x);
            if centers(p).contains(x) {
                let j = choose|j: int| 0 <= j < centers(p).len() && centers(p)[j] == x;
                assert(centers(entries)[j] == centers(entries)[i]);
            }
        }
    } else {
        assert(registry_wf(p)) by {
            assert forall|a: int, b: int|
                0 <= a < centers(p).len() && 0 <= b < centers(p).len() && a != b implies centers(p)[a]
                != centers(p)[b] by {
                assert(centers(p)[a] == centers(entries)[a]);
                assert(centers(p)[b] == centers(entries)[b]);
            }
        }
        lemma_lookup_remove(p, i, x);
        assert(entries.remove(i) =~= p.remove(i).push(last));
        assert(entries.remove(i).drop_last() =~= p.remove(i));
        assert(centers(entries)[i] != centers(entries)[entries.len() - 1]);
    }
}

/// Replacing the key of a registered centre changes that key only.
proof fn lemma_lookup_update(entries: Seq<(CenterKey, Seq<char>)>, i: int, key: Seq<char>, x: CenterKey)
    requires
        registry_wf(entries),
        0 <= i < entries.len(),
    ensures
        lookup(entries.update(i, (entries[i].0, key)), x) == if x == entries[i].0 {
            Some(key)
        } else {
            lookup(entries, x)
        },
    decreases entries.len(),
{
    let p = entries.drop_last();
    let last = entries.last();
    let c = entries[i].0;
    let u = entries.update(i, (c, key));
    if i == entries.len() - 1 {
        assert(u.drop_last() =~= p);
    } else {
        assert(registry_wf(p)) by {
            assert forall|a: int, b: int|
                0 <= a < centers(p).len() && 0 <= b < centers(p).len() && a != b implies centers(p)[a]
                != centers(p)[b] by {
                assert(centers(p)[a] == centers(entries)[a]);
                assert(centers(p)[b] == centers(entries)[b]);
            }
        }
        lemma_lookup_update(p, i, key, x);
        assert(u.drop_last() =~= p.update(i, (c, key)));
        assert(u.last() == last);
        assert(centers(entries)[i] != centers(entries)[entries.len() - 1]);
    }
}

/// The key the spawns of a layout update give a centre: that of the last
/// successful spawn for it, if any. `to_add` lists the positions in the new
/// layout spawned for, `spawned` the key each spawn gave (`None` when it
/// failed).
pub open spec fn spawned_key(
    incoming: Seq<CenterKey>,
    to_add: Seq<usize>,
    spawned: Seq<Option<Seq<char>>>,
    x: CenterKey,
) -> Option<Seq<char>>
    decreases to_add.len(),
{
    if to_add.len() == 0 || spawned.len() == 0 {
        None
    } else if incoming[to_add.last() as int] == x && spawned.last() is Some {
        spawned.last()
    } else {
        spawned_key(incoming, to_add.drop_last(), spawned.drop_last(), x)
    }
}

/// The key a centre has once a layout update has been carried out: a
/// successful spawn's key; otherwise its former key if the new layout keeps
/// it, and none if it dropped it (whether or not its container stopped).
pub open spec fn updated_key(
    entries: Seq<(CenterKey, Seq<char>)>,
    incoming: Seq<CenterKey>,
    spawned: Seq<Option<Seq<char>>>,
    x: CenterKey,
) -> Option<Seq<char>> {
    match spawned_key(incoming, new_center_indices(incoming, centers(entries)), spawned, x) {
        Some(k) => Some(k),
        None => if incoming.contains(x) {
            lookup(entries, x)
        } else {
            None
        },
    }
}

/// The view of a list of spawn outcomes.
pub open spec fn outcomes_view(v: Seq<Option<String>>) -> Seq<Option<Seq<char>>> {
    v.map_values(|o: Option<String>| opt_text(o))
}

/// The abstract value of a list of entries.
pub open spec fn entries_view(v: Seq<ShardEntry>) -> Seq<(CenterKey, Seq<char>)> {
    v.map_values(|e: ShardEntry| (e.center, e.redis_key@))
}

impl ShardRegistry {
    /// Each centre has one entry at most.
    #[verifier::type_invariant]
    spec fn inv(&self) -> bool {
        registry_wf(self@)
    }

    /// An empty registry.
    pub fn new() -> (r: ShardRegistry)
        ensures
            r@ == Seq::<(CenterKey, Seq<char>)>::empty(),
            registry_wf(r@),
    {
        let r = ShardRegistry { entries: Vec::new() };
        proof {
            assert(r@ =~= Seq::<(CenterKey, Seq<char>)>::empty());
        }
        r
    }

    /// The number of shards with a server.
    pub fn len(&self) -> (n: usize)
        ensures
            n == self@.len(),
    {
        self.entries.len()
    }

    /// The position of a centre's entry.
    fn position(&self, center: CenterKey) -> (i: Option<usize>)
        ensures
            i matches Some(k) ==> k < self@.len() && self@[k as int].0 == center,
            i is None ==> !centers(self@).contains(center),
    {
        let mut k: usize = 0;
        while k < self.entries.len()
            invariant
                k <= self@.len(),
                self@.len() == self.entries@.len(),
                forall|j: int| 0 <= j < k ==> self@[j].0 != center,
            decreases self@.len() - k,
        {
            if same_center(self.entries[k].center, center) {
                return Some(k);
            }
            k = k + 1;
        }
        proof {
            if centers(self@).contains(center) {
                let j = choose|j: int| 0 <= j < centers(self@).len() && centers(self@)[j] == center;
                assert(self@[j].0 == center);
            }
        }
        None
    }

    /// Forgets the server of a shard and returns its registry key; `None`,
    /// with nothing changed, when the centre has none.
    pub fn remove(&mut self, center: CenterKey) -> (r: Option<String>)
        ensures
            registry_wf(final(self)@),
            r is Some <==> centers(old(self)@).contains(center),
            r matches Some(k) ==> exists|i: int|
                0 <= i < old(self)@.len() && old(self)@[i].0 == center && k@ == old(self)@[i].1
                    && final(self)@ == old(self)@.remove(i),
            r is None ==> final(self)@ == old(self)@,
    {
        proof {
            use_type_invariant(&*self);
        }
        match self.position(center) {
            Some(i) => {
                let ghost before = self@;
                let mut entries: Vec<ShardEntry> = Vec::new();
                std::mem::swap(&mut entries, &mut self.entries);
                let e = entries.remove(i);
                proof {
                    assert(entries_view(entries@) =~= before.remove(i as int));
                    assert(centers(entries_view(entries@)) =~= centers(before).remove(i as int));
                    assert(centers(before)[i as int] == center);
                }
                self.entries = entries;
                proof {
                    use_type_invariant(&*self);
                }
                Some(e.redis_key)
            },
            None => None,
        }
    }

    /// Records the server of a shard, replacing the one it had.
    pub fn record(&mut self, center: CenterKey, redis_key: String)
        ensures
            registry_wf(final(self)@),
            centers(old(self)@).contains(center) ==> exists|i: int|
                0 <= i < old(self)@.len() && old(self)@[i].0 == center
                    && final(self)@ == old(self)@.update(i, (center, redis_key@)),
            !centers(old(self)@).contains(center) ==> final(self)@ == old(self)@.push(
                (center, redis_key@),
            ),
    {
        proof {
            use_type_invariant(&*self);
        }
        let ghost before = self@;
        let ghost key = redis_key@;
        let found = self.position(center);
        let mut entries: Vec<ShardEntry> = Vec::new();
        std::mem::swap(&mut entries, &mut self.entries);
        match found {
            Some(i) => {
                entries.set(i, ShardEntry { center, redis_key });
                proof {
                    assert(entries_view(entries@) =~= before.update(i as int, (center, key)));
                    assert(centers(before)[i as int] == center);
                    assert(centers(entries_view(entries@)) =~= centers(before));
                }
            },
            None => {
                entries.push(ShardEntry { center, redis_key });
                proof {
                    assert(entries_view(entries@) =~= before.push((center, key)));
                    assert(centers(entries_view(entries@)) =~= centers(before).push(center));
                }
            },
        }
        self.entries = entries;
        proof {
            use_type_invariant(&*self);
        }
    }

    /// Carries out a layout update in the registry once its servers have
    /// been started and stopped. Every registered centre that the layout
    /// `incoming` drops is forgotten, whether or not its container stopped;
    /// each shard of the layout that `plan_update` listed for a new server
    /// is recorded under the key its spawn gave, in `spawned` (in the order
    /// of that list), or left out when the spawn failed (`None`).
    pub fn apply_update(&mut self, incoming: &Vec<CenterKey>, spawned: &Vec<Option<String>>)
        requires
            spawned@.len() == new_center_indices(incoming@, centers(old(self)@)).len(),
        ensures
            registry_wf(final(self)@),
            forall|x: CenterKey|
                #[trigger] lookup(final(self)@, x) == updated_key(
                    old(self)@,
                    incoming@,
                    outcomes_view(spawned@),
                    x,
                ),
    {
        proof {
            use_type_invariant(&*self);
        }
        let ghost old_entries = self@;
        let plan = self.plan_update(incoming);
        let ghost removals = plan.to_remove@;
        let mut k: usize = 0;
        while k < plan.to_remove.len()
            invariant
                plan.to_remove@ == removals,
                removals == planned_removals(old_entries, incoming@),
                registry_wf(self@),
                k <= removals.len(),
                forall|x: CenterKey|
                    #[trigger] lookup(self@, x) == if removals.take(k as int).contains(x) {
                        None
                    } else {
                        lookup(old_entries, x)
                    },
            decreases removals.len() - k,
        {
            let c = plan.to_remove[k];
            let ghost before = self@;
            proof {
                assert(removals.take(k + 1) =~= removals.take(k as int).push(c));
                crate::broker::router::lemma_push_contains(removals.take(k as int), c);
                lemma_lookup_registered(before, c);
            }
            let removed = self.remove(c);
            proof {
                match removed {
                    Some(_) => {
                        let i = choose|i: int|
                            0 <= i < before.len() && before[i].0 == c && self@ == before.remove(i);
                        assert forall|x: CenterKey| #[trigger] lookup(self@, x) == if removals.take(
                            k + 1,
                        ).contains(x) {
                            None
                        } else {
                            lookup(old_entries, x)
                        } by {
                            lemma_lookup_remove(before, i, x);
                        }
                    },
                    None => {},
                }
            }
            k = k + 1;
        }
        proof {
            assert(removals.take(removals.len() as int) =~= removals);
            broadcast use group_filter_ensures;
            broadcast use Seq::lemma_filter_contains_rev;
            assert forall|x: CenterKey| #[trigger] lookup(self@, x) == if incoming@.contains(x) {
                lookup(old_entries, x)
            } else {
                None
            } by {
                lemma_lookup_registered(old_entries, x);
                let pred = |c: CenterKey| !incoming@.contains(c);
                if removals.contains(x) {
                    assert(centers(old_entries).filter(pred).contains(x));
                    assert(pred(x));
                } else if !incoming@.contains(x) && centers(old_entries).contains(x) {
                    let i = choose|i: int|
                        0 <= i < centers(old_entries).len() && centers(old_entries)[i] == x;
                    assert(pred(centers(old_entries)[i]));
                    assert(centers(old_entries).filter(pred).contains(centers(old_entries)[i]));
                }
            }
        }
        let ghost to_add = plan.to_add@;
        let ghost outs = outcomes_view(spawned@);
        let n_incoming = incoming.len();
        proof {
            assert(incoming@.len() == n_incoming);
            lemma_new_center_indices(incoming@, centers(old_entries));
        }
        let mut j: usize = 0;
        while j < plan.to_add.len()
            invariant
                plan.to_add@ == to_add,
                to_add == new_center_indices(incoming@, centers(old_entries)),
                outs == outcomes_view(spawned@),
                spawned@.len() == to_add.len(),
                forall|m: int| 0 <= m < to_add.len() ==> #[trigger] to_add[m] < incoming@.len(),
                registry_wf(self@),
                j <= to_add.len(),
                forall|x: CenterKey|
                    #[trigger] lookup(self@, x) == match spawned_key(
                        incoming@,
                        to_add.take(j as int),
                        outs.take(j as int),
                        x,
                    ) {
                        Some(key) => Some(key),
                        None => if incoming@.contains(x) {
                            lookup(old_entries, x)
                        } else {
                            None
                        },
                    },
            decreases to_add.len() - j,
        {
            proof {
                assert(to_add.take(j + 1).drop_last() =~= to_add.take(j as int));
                assert(outs.take(j + 1).drop_last() =~= outs.take(j as int));
            }
            let pos = plan.to_add[j];
            let c = incoming[pos];
            match &spawned[j] {
                Some(key) => {
                    let ghost before = self@;
                    let ghost kv = key@;
                    self.record(c, key.clone());
                    proof {
                        assert(outs[j as int] == Some(kv));
                        if centers(before).contains(c) {
                            let i = choose|i: int|
                                0 <= i < before.len() && before[i].0 == c && self@ == before.update(
                                    i,
                                    (c, kv),
                                );
                            assert forall|x: CenterKey| #[trigger] lookup(self@, x) == (if x == c {
                                Some(kv)
                            } else {
                                lookup(before, x)
                            }) by {
                                lemma_lookup_update(before, i, kv, x);
                            }
                        } else {
                            assert(self@.drop_last() =~= before);
                        }
                    }
                },
                None => {
                    proof {
                        assert(outs[j as int] is None);
                    }
                },
            }
            j = j + 1;
        }
        proof {
            assert(to_add.take(to_add.len() as int) =~= to_add);
            assert(outs.take(outs.len() as int) =~= outs);
        }
    }

    /// Compares the registry with a new layout: the registered centres the
    /// layout drops, and the layout's shards with no server yet. Both are
    /// empty when the layout's centres are the registered ones.
    pub fn plan_update(&self, incoming: &Vec<CenterKey>) -> (p: ShardPlan)
        ensures
            p.to_remove@ == planned_removals(self@, incoming@),
            p.to_add@ == new_center_indices(incoming@, centers(self@)),
    {
        let mut to_remove: Vec<CenterKey> = Vec::new();
        let mut k: usize = 0;
        while k < self.entries.len()
            invariant
                k <= self@.len(),
                self@.len() == self.entries@.len(),
                to_remove@ == centers(self@).take(k as int).filter(
                    |c: CenterKey| !incoming@.contains(c),
                ),
            decreases self@.len() - k,
        {
            let c = self.entries[k].center;
            proof {
                assert(centers(self@).take(k + 1).drop_last() =~= centers(self@).take(k as int));
                reveal(Seq::filter);
            }
            if !contains_center(incoming, c) {
                to_remove.push(c);
            }
            k = k + 1;
        }
        proof {
            assert(centers(self@).take(self@.len() as int) =~= centers(self@));
        }
        let mut to_add: Vec<usize> = Vec::new();
        let mut j: usize = 0;
        while j < incoming.len()
            invariant
                j <= incoming@.len(),
                to_add@ == new_center_indices(incoming@.take(j as int), centers(self@)),
            decreases incoming@.len() - j,
        {
            proof {
                assert(incoming@.take(j + 1).drop_last() =~= incoming@.take(j as int));
            }
            match self.position(incoming[j]) {
                None => to_add.push(j),
                Some(k) => {
                    proof {
                        assert(centers(self@)[k as int] == incoming@[j as int]);
                    }
                },
            }
            j = j + 1;
        }
        proof {
            assert(incoming@.take(incoming@.len() as int) =~= incoming@);
        }
        ShardPlan { to_remove, to_add }
    }
}

/// The positions `new_center_indices` lists are exactly those of the new
/// layout whose centre is not known.
pub proof fn lemma_new_center_indices(incoming: Seq<CenterKey>, known: Seq<CenterKey>)
    requires
        incoming.len() <= usize::MAX,
    ensures
        forall|k: int|
            0 <= k < new_center_indices(incoming, known).len() ==> {
                let i = #[trigger] new_center_indices(incoming, known)[k];
                &&& i < incoming.len()
                &&& !known.contains(incoming[i as int])
            },
        forall|i: int|
            0 <= i < incoming.len() && !known.contains(#[trigger] incoming[i])
                ==> new_center_indices(incoming, known).contains(i as usize),
    decreases incoming.len(),
{
    if incoming.len() > 0 {
        let rest = incoming.drop_last();
        lemma_new_center_indices(rest, known);
        let idx = new_center_indices(incoming, known);
        let ridx = new_center_indices(rest, known);
        assert forall|k: int| 0 <= k < ridx.len() implies idx[k] == ridx[k] && rest[ridx[k] as int]
            == incoming[ridx[k] as int] by {}
        assert forall|i: int|
            0 <= i < incoming.len() && !known.contains(#[trigger] incoming[i]) implies idx.contains(
            i as usize,
        ) by {
            if i < incoming.len() - 1 {
                assert(rest[i] == incoming[i]);
                let k = choose|k: int| 0 <= k < ridx.len() && ridx[k] == i as usize;
                assert(idx[k] == i as usize);
            } else {
                assert(idx[idx.len() - 1] == i as usize);
            }
        }
    }
}

/// Following a plan reaches the new layout: the registered centres, less
/// those the plan removes, together with those it adds, are exactly the
/// centres of the new layout.
pub proof fn law_plan_reaches_layout(entries: Seq<(CenterKey, Seq<char>)>, incoming: Seq<CenterKey>)
    requires
        incoming.len() <= usize::MAX,
    ensures
        centers(entries).to_set().difference(planned_removals(entries, incoming).to_set()).union(
            planned_additions(entries, incoming).to_set(),
        ) == incoming.to_set(),
{
    broadcast use group_filter_ensures;
    broadcast use Seq::lemma_filter_contains_rev;

    let known = centers(entries);
    let removals = planned_removals(entries, incoming);
    let idx = new_center_indices(incoming, known);
    let additions = planned_additions(entries, incoming);
    let pred = |c: CenterKey| !incoming.contains(c);
    lemma_new_center_indices(incoming, known);
    let result = known.to_set().difference(removals.to_set()).union(additions.to_set());
    assert forall|c: CenterKey| result.contains(c) implies incoming.contains(c) by {
        if known.contains(c) && !removals.contains(c) {
            if !incoming.contains(c) {
                let i = choose|i: int| 0 <= i < known.len() && known[i] == c;
                assert(pred(known[i]));
                assert(known.filter(pred).contains(known[i]));
            }
        } else {
            let k = choose|k: int| 0 <= k < additions.len() && additions[k] == c;
            assert(idx[k] < incoming.len());
            assert(incoming[idx[k] as int] == c);
        }
    }
    assert forall|c: CenterKey| incoming.contains(c) implies result.contains(c) by {
        let i = choose|i: int| 0 <= i < incoming.len() && incoming[i] == c;
        if known.contains(c) {
            if removals.contains(c) {
                assert(known.filter(pred).contains(c));
                assert(pred(c));
            }
        } else {
            assert(idx.contains(i as usize));
            let k = choose|k: int| 0 <= k < idx.len() && idx[k] == i as usize;
            assert(additions[k] == c);
        }
    }
    assert(result =~= incoming.to_set());
}

/// A spawn gives a centre a key exactly when one of its spawns succeeded.
proof fn lemma_spawned_key_some(
    incoming: Seq<CenterKey>,
    to_add: Seq<usize>,
    spawned: Seq<Option<Seq<char>>>,
    x: CenterKey,
)
    requires
        spawned.len() == to_add.len(),
    ensures
        spawned_key(incoming, to_add, spawned, x) is Some <==> exists|k: int|
            0 <= k < to_add.len() && incoming[to_add[k] as int] == x && #[trigger] spawned[k] is Some,
    decreases to_add.len(),
{
    if to_add.len() > 0 {
        let ta = to_add.drop_last();
        let sp = spawned.drop_last();
        lemma_spawned_key_some(incoming, ta, sp, x);
        let n = to_add.len() - 1;
        if exists|k: int| 0 <= k < to_add.len() && incoming[to_add[k] as int] == x && #[trigger] spawned[k] is Some {
            let k = choose|k: int| 0 <= k < to_add.len() && incoming[to_add[k] as int] == x && #[trigger] spawned[k] is Some;
            if k < n {
                assert(ta[k] == to_add[k] && sp[k] == spawned[k]);
            }
        }
        if exists|k: int| 0 <= k < ta.len() && incoming[ta[k] as int] == x && #[trigger] sp[k] is Some {
            let k = choose|k: int| 0 <= k < ta.len() && incoming[ta[k] as int] == x && #[trigger] sp[k] is Some;
            assert(to_add[k] == ta[k] && spawned[k] == sp[k]);
        }
    }
}

/// Carrying out a layout update keeps the registry within the new layout:
/// a centre has a server afterwards only if the layout has it; a centre of
/// the layout has one exactly when it had one before or one of its spawns
/// succeeded; a centre the layout dropped has none, even when stopping its
/// container failed. When the layout's centres are those registered,
/// nothing changes.
pub proof fn law_update_follows_outcomes(
    entries: Seq<(CenterKey, Seq<char>)>,
    incoming: Seq<CenterKey>,
    spawned: Seq<Option<Seq<char>>>,
)
    requires
        incoming.len() <= usize::MAX,
        spawned.len() == new_center_indices(incoming, centers(entries)).len(),
    ensures
        forall|x: CenterKey|
            #[trigger] updated_key(entries, incoming, spawned, x) is Some ==> incoming.contains(x),
        forall|x: CenterKey|
            incoming.contains(x) ==> (#[trigger] updated_key(entries, incoming, spawned, x) is Some <==> (
            centers(entries).contains(x) || exists|k: int|
                0 <= k < spawned.len() && incoming[new_center_indices(incoming, centers(entries))[k] as int]
                    == x && #[trigger] spawned[k] is Some)),
        centers(entries).to_set() == incoming.to_set() ==> forall|x: CenterKey|
            #[trigger] updated_key(entries, incoming, spawned, x) == lookup(entries, x),
{
    let known = centers(entries);
    let to_add = new_center_indices(incoming, known);
    lemma_new_center_indices(incoming, known);
    assert forall|x: CenterKey| #[trigger] updated_key(entries, incoming, spawned, x) is Some implies incoming.contains(
        x,
    ) by {
        lemma_spawned_key_some(incoming, to_add, spawned, x);
        if spawned_key(incoming, to_add, spawned, x) is Some {
            let k = choose|k: int| 0 <= k < to_add.len() && incoming[to_add[k] as int] == x && #[trigger] spawned[k] is Some;
            assert(to_add[k] < incoming.len());
        }
    }
    assert forall|x: CenterKey| incoming.contains(x) implies (#[trigger] updated_key(entries, incoming, spawned, x)
        is Some <==> (known.contains(x) || exists|k: int|
        0 <= k < spawned.len() && incoming[to_add[k] as int] == x && #[trigger] spawned[k] is Some)) by {
        lemma_spawned_key_some(incoming, to_add, spawned, x);
        lemma_lookup_registered(entries, x);
    }
    if known.to_set() == incoming.to_set() {
        if to_add.len() > 0 {
            let i = to_add[0] as int;
            assert(incoming.to_set().contains(incoming[i]));
            assert(known.to_set().contains(incoming[i]));
        }
        assert forall|x: CenterKey| #[trigger] updated_key(entries, incoming, spawned, x) == lookup(entries, x) by {
            lemma_lookup_registered(entries, x);
            if !incoming.contains(x) && known.contains(x) {
                assert(known.to_set().contains(x));
            }
        }
    }
}

/// A layout update, stated over the registered centres. Once the update is
/// carried out, every registered centre belongs to the new layout; a centre
/// of the new layout is registered exactly when it was before or one of its
/// spawns succeeded; and a layout whose centres are those registered plans
/// no stop and no spawn, and leaves the registered centres as they were.
pub proof fn law_update_centers(
    before: Seq<(CenterKey, Seq<char>)>,
    after: Seq<(CenterKey, Seq<char>)>,
    incoming: Seq<CenterKey>,
    spawned: Seq<Option<Seq<char>>>,
)
    requires
        incoming.len() <= usize::MAX,
        spawned.len() == new_center_indices(incoming, centers(before)).len(),
        forall|x: CenterKey| #[trigger] lookup(after, x) == updated_key(before, incoming, spawned, x),
    ensures
        forall|c: CenterKey| #[trigger] centers(after).contains(c) ==> incoming.contains(c),
        forall|c: CenterKey|
            incoming.contains(c) ==> (#[trigger] centers(after).contains(c) <==> (centers(before).contains(c)
                || exists|k: int|
                0 <= k < spawned.len() && incoming[new_center_indices(incoming, centers(before))[k] as int]
                    == c && #[trigger] spawned[k] is Some)),
        centers(before).to_set() == incoming.to_set() ==> {
            &&& planned_removals(before, incoming).len() == 0
            &&& new_center_indices(incoming, centers(before)).len() == 0
            &&& centers(after).to_set() == centers(before).to_set()
        },
{
    broadcast use group_filter_ensures;

    law_update_follows_outcomes(before, incoming, spawned);
    assert forall|c: CenterKey| #[trigger] centers(after).contains(c) implies incoming.contains(c) by {
        lemma_lookup_registered(after, c);
        assert(updated_key(before, incoming, spawned, c) is Some);
    }
    assert forall|c: CenterKey| incoming.contains(c) implies (#[trigger] centers(after).contains(c) <==> (
    centers(before).contains(c) || exists|k: int|
        0 <= k < spawned.len() && incoming[new_center_indices(incoming, centers(before))[k] as int] == c
            && #[trigger] spawned[k] is Some)) by {
        lemma_lookup_registered(after, c);
        assert(lookup(after, c) == updated_key(before, incoming, spawned, c));
    }
    let known = centers(before);
    if known.to_set() == incoming.to_set() {
        let removals = planned_removals(before, incoming);
        let pred = |c: CenterKey| !incoming.contains(c);
        if removals.len() > 0 {
            let r = removals[0];
            assert(removals == known.filter(pred));
            assert(removals.contains(r));
            assert(pred(r));
            known.lemma_filter_contains_rev(pred, r);
            assert(known.contains(r));
            assert(known.to_set().contains(r));
        }
        let to_add = new_center_indices(incoming, known);
        lemma_new_center_indices(incoming, known);
        if to_add.len() > 0 {
            let i = to_add[0] as int;
            assert(incoming.to_set().contains(incoming[i]));
            assert(known.to_set().contains(incoming[i]));
        }
        assert forall|c: CenterKey| centers(after).to_set().contains(c) <==> known.to_set().contains(c) by {
            lemma_lookup_registered(after, c);
            lemma_lookup_registered(before, c);
            assert(lookup(after, c) == updated_key(before, incoming, spawned, c));
            assert(updated_key(before, incoming, spawned, c) == lookup(before, c));
        }
        assert(centers(after).to_set() =~= known.to_set());
    }
}

/// Whether two centres are the same.
fn same_center(a: CenterKey, b: CenterKey) -> (r: bool)
    ensures
        r == (a == b),
{
    a.0 == b.0 && a.1 == b.1
}

/// Whether a centre is among the given ones.
fn contains_center(v: &Vec<CenterKey>, c: CenterKey) -> (b: bool)
    ensures
        b == v@.contains(c),
{
    let mut i: usize = 0;
    while i < v.len()
        invariant
            i <= v@.len(),
            forall|j: int| 0 <= j < i ==> v@[j] != c,
        decreases v@.len() - i,
    {
        if same_center(v[i], c) {
            return true;
        }
        i = i + 1;
    }
    false
}

/// Finds the port for a shard's new server: the lowest port of the
/// thousand from `base_port` up that no server holds, `None` when all are
/// held.
pub fn free_port_in_window(used: &Vec<u16>, base_port: u16) -> (p: Option<u16>)
    requires
        base_port <= u16::MAX - 1000,
    ensures
        p matches Some(q) ==> {
            &&& base_port <= q < base_port + 1000
            &&& !used@.contains(q)
            &&& forall|r: u16| base_port <= r < q ==> used@.contains(r)
        },
        p is None ==> forall|r: u16| base_port <= r < base_port + 1000 ==> used@.contains(r),
{
    let end: u16 = base_port + 1000;
    let mut port = base_port;
    while port < end
        invariant
            base_port <= port <= end,
            end == base_port + 1000,
            forall|r: u16| base_port <= r < port ==> used@.contains(r),
        decreases end - port,
    {
        if !contains_port(used, port) {
            return Some(port);
        }
        port = port + 1;
    }
    None
}

} // verus!
