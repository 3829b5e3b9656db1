//! The scaler's decisions: how many servers to start or stop to keep a
//! pool of empty servers, and which port a new server gets.

use crate::orchestrator::heartbeat::{status_label, ServerStatus};
use crate::parse::{parse_u16, parsed_unsigned};
use vstd::prelude::*;

verus! {

/// What one scaler tick does to the fleet.
#[derive(Debug, Clone, Copy, PartialEq, Eq, Structural)]
pub enum ScaleAction {
    /// Start this many new servers.
    Spawn { count: usize },
    /// Stop this many of the empty servers, the first ones listed.
    Remove { count: usize },
    /// The pool is at its size.
    Hold,
}

/// The action that brings `empty_count` empty servers to `hot_servers_min`.
pub open spec fn scale_action_spec(empty_count: nat, hot_servers_min: nat) -> ScaleAction {
    if empty_count < hot_servers_min {
        ScaleAction::Spawn { count: (hot_servers_min - empty_count) as usize }
    } else if empty_count > hot_servers_min {
        ScaleAction::Remove { count: (empty_count - hot_servers_min) as usize }
    } else {
        ScaleAction::Hold
    }
}

/// Decides one scaler tick: spawn the missing empty servers, or remove the
/// excess ones, or do nothing.
pub fn scale_action(empty_count: usize, hot_servers_min: usize) -> (a: ScaleAction)
    ensures
        a == scale_action_spec(empty_count as nat, hot_servers_min as nat),
{
    if empty_count < hot_servers_min {
        ScaleAction::Spawn { count: hot_servers_min - empty_count }
    } else if empty_count > hot_servers_min {
        ScaleAction::Remove { count: empty_count - hot_servers_min }
    } else {
        ScaleAction::Hold
    }
}

/// A scaler tick brings the pool of empty servers to its size: spawning
/// the servers it asks for, or removing those it names, leaves exactly
/// `hot_servers_min` empty servers.
pub proof fn law_scale_action_reaches_pool(empty_count: usize, hot_servers_min: usize)
    ensures
        match scale_action_spec(empty_count as nat, hot_servers_min as nat) {
            ScaleAction::Spawn { count } => empty_count + count == hot_servers_min,
            ScaleAction::Remove { count } => empty_count - count == hot_servers_min && count <= empty_count,
            ScaleAction::Hold => empty_count == hot_servers_min,
        },
{
}

/// A server as the registry records it, read for the scaler: its key, its
/// status word and its container id, each `None` when it could not be read.
pub struct ServerRecord {
    pub redis_key: String,
    pub status: Option<String>,
    pub container_id: Option<String>,
}

/// A recorded server the orchestrator may stop: its registry key and, when
/// known, its container.
pub struct RecordedServer {
    pub redis_key: String,
    pub container_id: Option<String>,
}

/// The view of an optional text.
pub open spec fn opt_text(t: Option<String>) -> Option<Seq<char>> {
    match t {
        Some(s) => Some(s@),
        None => None,
    }
}

/// The view of a list of recorded servers: key and container id.
pub open spec fn servers_view(v: Seq<RecordedServer>) -> Seq<(Seq<char>, Option<Seq<char>>)> {
    v.map_values(|r: RecordedServer| (r.redis_key@, opt_text(r.container_id)))
}

/// The empty servers among the records, in order: those whose status reads
/// `empty`.
pub open spec fn empty_servers(records: Seq<ServerRecord>) -> Seq<(Seq<char>, Option<Seq<char>>)>
    decreases records.len(),
{
    if records.len() == 0 {
        Seq::empty()
    } else {
        let rest = empty_servers(records.drop_last());
        let r = records.last();
        if opt_text(r.status) == Some(status_label(ServerStatus::Empty)) {
            rest.push((r.redis_key@, opt_text(r.container_id)))
        } else {
            rest
        }
    }
}

fn copy_text(t: &Option<String>) -> (c: Option<String>)
    ensures
        opt_text(c) == opt_text(*t),
{
    match t {
        Some(s) => Some(s.clone()),
        None => None,
    }
}

/// The servers recorded as empty, in the order they were read.
pub fn select_empty_servers(records: &Vec<ServerRecord>) -> (e: Vec<RecordedServer>)
    ensures
        servers_view(e@) == empty_servers(records@),
{
    let mut e: Vec<RecordedServer> = Vec::new();
    let mut i: usize = 0;
    while i < records.len()
        invariant
            i <= records@.len(),
            servers_view(e@) == empty_servers(records@.take(i as int)),
        decreases records@.len() - i,
    {
        proof {
            assert(records@.take(i + 1).drop_last() =~= records@.take(i as int));
        }
        let r = &records[i];
        let is_empty = match &r.status {
            Some(t) => match ServerStatus::from_label(t) {
                Some(ServerStatus::Empty) => true,
                _ => false,
            },
            None => false,
        };
        if is_empty {
            let ghost before = servers_view(e@);
            e.push(RecordedServer { redis_key: r.redis_key.clone(), container_id: copy_text(&r.container_id) });
            proof {
                assert(servers_view(e@) =~= before.push((r.redis_key@, opt_text(r.container_id))));
            }
        }
        i = i + 1;
    }
    proof {
        assert(records@.take(records@.len() as int) =~= records@);
    }
    e
}

/// The empty servers a scale-down stops: the first ones listed, as many as
/// exceed the pool's size; none when there is no excess.
pub fn servers_to_remove(servers: Vec<RecordedServer>, hot_servers_min: usize) -> (r: Vec<RecordedServer>)
    ensures
        servers_view(r@) == if servers@.len() > hot_servers_min {
            servers_view(servers@).take(servers@.len() - hot_servers_min)
        } else {
            Seq::empty()
        },
{
    let mut r = servers;
    let n = r.len();
    let keep = if n > hot_servers_min {
        n - hot_servers_min
    } else {
        0
    };
    let ghost before = r@;
    r.truncate(keep);
    proof {
        assert(servers_view(r@) =~= servers_view(before).take(keep as int));
    }
    r
}

/// The next step in removing a recorded server.
pub enum RemovalStep {
    /// Stop and remove its container.
    StopContainer { container_id: String },
    /// Delete its registry entry.
    DeleteKey { redis_key: String },
    /// Leave its registry entry in place.
    KeepKey,
}

/// The abstract value of a removal step: texts as character sequences.
pub enum RemovalStepView {
    StopContainer { container_id: Seq<char> },
    DeleteKey { redis_key: Seq<char> },
    KeepKey,
}

impl View for RemovalStep {
    type V = RemovalStepView;

    open spec fn view(&self) -> RemovalStepView {
        match self {
            RemovalStep::StopContainer { container_id } => RemovalStepView::StopContainer {
                container_id: container_id@,
            },
            RemovalStep::DeleteKey { redis_key } => RemovalStepView::DeleteKey { redis_key: redis_key@ },
            RemovalStep::KeepKey => RemovalStepView::KeepKey,
        }
    }
}

/// The first step in removing a server (key, container id): stop its
/// container when it has one, delete its registry entry otherwise.
pub open spec fn first_step(server: (Seq<char>, Option<Seq<char>>)) -> RemovalStepView {
    match server.1 {
        Some(c) => RemovalStepView::StopContainer { container_id: c },
        None => RemovalStepView::DeleteKey { redis_key: server.0 },
    }
}

/// The step after the server's container was asked to stop: delete its
/// registry entry when it stopped, keep the entry otherwise.
pub open spec fn step_after_stop(server: (Seq<char>, Option<Seq<char>>), stopped: bool) -> RemovalStepView {
    if stopped {
        RemovalStepView::DeleteKey { redis_key: server.0 }
    } else {
        RemovalStepView::KeepKey
    }
}

/// The first step in removing a server.
pub fn first_removal_step(server: &RecordedServer) -> (s: RemovalStep)
    ensures
        s@ == first_step((server.redis_key@, opt_text(server.container_id))),
{
    match &server.container_id {
        Some(c) => RemovalStep::StopContainer { container_id: c.clone() },
        None => RemovalStep::DeleteKey { redis_key: server.redis_key.clone() },
    }
}

/// The step after the server's container was asked to stop.
pub fn removal_step_after_stop(server: &RecordedServer, stopped: bool) -> (s: RemovalStep)
    ensures
        s@ == step_after_stop((server.redis_key@, opt_text(server.container_id)), stopped),
{
    if stopped {
        RemovalStep::DeleteKey { redis_key: server.redis_key.clone() }
    } else {
        RemovalStep::KeepKey
    }
}

/// A registry entry is deleted only once its server's container stopped,
/// or at once when the server has no container: following the steps of a
/// removal, the server's own key is deleted exactly in those cases, and no
/// other key.
pub proof fn law_entry_deleted_only_after_stop(server: (Seq<char>, Option<Seq<char>>), stopped: bool)
    ensures
        ({
            let last = match first_step(server) {
                RemovalStepView::StopContainer { .. } => step_after_stop(server, stopped),
                other => other,
            };
            &&& (last is DeleteKey <==> (server.1 is None || stopped))
            &&& (last matches RemovalStepView::DeleteKey { redis_key } ==> redis_key == server.0)
        }),
{
}

/// The ports among recorded port texts: those that parse as a `u16`, in
/// order.
pub open spec fn parsed_ports(texts: Seq<Seq<char>>) -> Seq<u16>
    decreases texts.len(),
{
    if texts.len() == 0 {
        Seq::empty()
    } else {
        let rest = parsed_ports(texts.drop_last());
        match parsed_unsigned(texts.last(), u16::MAX as nat) {
            Some(p) => rest.push(p as u16),
            None => rest,
        }
    }
}

/// The view of a list of texts.
pub open spec fn texts_view(v: Seq<String>) -> Seq<Seq<char>> {
    v.map_values(|s: String| s@)
}

/// The ports recorded for the servers: each text that parses as a port,
/// others skipped.
pub fn occupied_ports(port_texts: &Vec<String>) -> (ports: Vec<u16>)
    ensures
        ports@ == parsed_ports(texts_view(port_texts@)),
{
    let mut ports: Vec<u16> = Vec::new();
    let mut i: usize = 0;
    while i < port_texts.len()
        invariant
            i <= port_texts@.len(),
            ports@ == parsed_ports(texts_view(port_texts@).take(i as int)),
        decreases port_texts@.len() - i,
    {
        let ghost before = texts_view(port_texts@).take(i as int);
        let ghost after = texts_view(port_texts@).take(i + 1);
        proof {
            assert(after.drop_last() =~= before);
            assert(after.last() == port_texts@[i as int]@);
        }
        match parse_u16(port_texts[i].as_str()) {
            Some(p) => ports.push(p),
            None => {},
        }
        i = i + 1;
    }
    proof {
        assert(texts_view(port_texts@).take(port_texts@.len() as int) =~= texts_view(port_texts@));
    }
    ports
}

/// Finds the port for a new server: the lowest port at or above
/// `base_port` that no server holds; `None` when every one of them is held.
pub fn next_free_port(occupied: &Vec<u16>, base_port: u16) -> (p: Option<u16>)
    ensures
        p matches Some(q) ==> {
            &&& base_port <= q
            &&& !occupied@.contains(q)
            &&& forall|r: u16| base_port <= r < q ==> occupied@.contains(r)
        },
        p is None ==> forall|r: u16| base_port <= r ==> occupied@.contains(r),
{
    let mut candidate = base_port;
    loop
        invariant
            base_port <= candidate,
            forall|r: u16| base_port <= r < candidate ==> occupied@.contains(r),
        decreases u16::MAX - candidate,
    {
        if !contains_port(occupied, candidate) {
            return Some(candidate);
        }
        if candidate == u16::MAX {
            return None;
        }
        candidate = candidate + 1;
    }
}

/// Whether a port is among the occupied ones.
pub(crate) fn contains_port(occupied: &Vec<u16>, port: u16) -> (b: bool)
    ensures
        b == occupied@.contains(port),
{
    let mut i: usize = 0;
    while i < occupied.len()
        invariant
            i <= occupied@.len(),
            forall|j: int| 0 <= j < i ==> occupied@[j] != port,
        decreases occupied@.len() - i,
    {
        if occupied[i] == port {
            return true;
        }
        i = i + 1;
    }
    false
}

} // verus!
