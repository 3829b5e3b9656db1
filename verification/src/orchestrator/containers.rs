//! What the orchestrator gives a new game-server container: its name, its
//! environment and port binding, and the registry entry it starts with.

use crate::orchestrator::heartbeat::server_key;
use crate::text::{decimal, u64_to_string};
use vstd::prelude::*;
use vstd::string::StringExecFns;

verus! {

/// The settings a new game server is started with.
pub struct ContainerSettings {
    pub server_id: String,
    pub port: u16,
    pub zone: String,
    pub max_players: String,
    pub orch_host: String,
    pub rust_log: String,
}

/// `NAME=value`.
pub open spec fn assignment(name: Seq<char>, value: Seq<char>) -> Seq<char> {
    name + seq!['='] + value
}

/// The environment of a new game server, in order: its id, port, zone,
/// player limit, orchestrator address and log filter.
pub open spec fn container_env_spec(s: ContainerSettings) -> Seq<Seq<char>> {
    seq![
        assignment("DS_ID"@, s.server_id@),
        assignment("DS_PORT"@, decimal(s.port as nat)),
        assignment("DS_ZONE"@, s.zone@),
        assignment("MAX_PLAYERS"@, s.max_players@),
        assignment("ORCH_HOST"@, s.orch_host@),
        assignment("RUST_LOG"@, s.rust_log@),
    ]
}

/// The view of a list of texts.
pub open spec fn strings_view(v: Seq<String>) -> Seq<Seq<char>> {
    v.map_values(|s: String| s@)
}

/// The view of a list of named text fields.
pub open spec fn pairs_view(v: Seq<(String, String)>) -> Seq<(Seq<char>, Seq<char>)> {
    v.map_values(|f: (String, String)| (f.0@, f.1@))
}

fn assign(name: &str, value: &str) -> (t: String)
    ensures
        t@ == assignment(name@, value@),
{
    let mut t = String::from_str(name);
    t.append("=");
    t.append(value);
    proof {
        reveal_strlit("=");
        assert(t@ =~= assignment(name@, value@));
    }
    t
}

impl ContainerSettings {
    /// The environment of the new game server.
    pub fn env(&self) -> (e: Vec<String>)
        ensures
            strings_view(e@) == container_env_spec(*self),
    {
        let mut e: Vec<String> = Vec::new();
        e.push(assign("DS_ID", self.server_id.as_str()));
        let port = u64_to_string(self.port as u64);
        e.push(assign("DS_PORT", port.as_str()));
        e.push(assign("DS_ZONE", self.zone.as_str()));
        e.push(assign("MAX_PLAYERS", self.max_players.as_str()));
        e.push(assign("ORCH_HOST", self.orch_host.as_str()));
        e.push(assign("RUST_LOG", self.rust_log.as_str()));
        proof {
            assert(strings_view(e@) =~= container_env_spec(*self));
        }
        e
    }

    /// The container's name: `game-` and the server id.
    pub fn container_name(&self) -> (n: String)
        ensures
            n@ == "game-"@ + self.server_id@,
    {
        let mut n = String::from_str("game-");
        n.append(self.server_id.as_str());
        n
    }

    /// The port binding key: the port and `/udp`.
    pub fn port_key(&self) -> (k: String)
        ensures
            k@ == decimal(self.port as nat) + "/udp"@,
    {
        let mut k = u64_to_string(self.port as u64);
        k.append("/udp");
        k
    }

    /// The registry key of the new server.
    pub fn registry_key(&self) -> (k: String)
        ensures
            k@ == server_key(self.server_id@),
    {
        let mut k = String::from_str("server:");
        k.append(self.server_id.as_str());
        proof {
            reveal_strlit("server:");
            assert(k@ =~= server_key(self.server_id@));
        }
        k
    }
}

/// The registry fields a started container is recorded with until its
/// first heartbeat: its container id, public address, port and zone, the
/// status `starting`, and no player.
pub open spec fn preregistration_spec(
    container_id: Seq<char>,
    public_addr: Seq<char>,
    port: u16,
    zone: Seq<char>,
) -> Seq<(Seq<char>, Seq<char>)> {
    seq![
        ("container_id"@, container_id),
        ("ip"@, public_addr),
        ("port"@, decimal(port as nat)),
        ("zone"@, zone),
        ("status"@, "starting"@),
        ("players"@, "0"@),
    ]
}

/// The registry fields a started container is recorded with.
pub fn preregistration_fields(container_id: &str, public_addr: &str, port: u16, zone: &str) -> (f: Vec<
    (String, String),
>)
    ensures
        pairs_view(f@) == preregistration_spec(container_id@, public_addr@, port, zone@),
{
    let mut f: Vec<(String, String)> = Vec::new();
    f.push((String::from_str("container_id"), String::from_str(container_id)));
    f.push((String::from_str("ip"), String::from_str(public_addr)));
    f.push((String::from_str("port"), u64_to_string(port as u64)));
    f.push((String::from_str("zone"), String::from_str(zone)));
    f.push((String::from_str("status"), String::from_str("starting")));
    f.push((String::from_str("players"), String::from_str("0")));
    proof {
        assert(pairs_view(f@) =~= preregistration_spec(container_id@, public_addr@, port, zone@));
    }
    f
}

/// Each field of the pre-registration record holds the argument of its own
/// name: the record has the six fields once each, `container_id`, `ip`,
/// `port` and `zone` hold the container id, the public address, the port in
/// decimal and the zone passed in, `status` is `starting` and `players` is
/// `0`.
pub proof fn law_preregistration_fields_hold_their_arguments(
    container_id: Seq<char>,
    public_addr: Seq<char>,
    port: u16,
    zone: Seq<char>,
)
    ensures
        ({
            let rec = preregistration_spec(container_id, public_addr, port, zone);
            &&& rec.len() == 6
            &&& forall|i: int, j: int| 0 <= i < j < rec.len() ==> rec[i].0 != rec[j].0
            &&& exists|j: int| 0 <= j < rec.len() && rec[j].0 == "ip"@
            &&& exists|j: int| 0 <= j < rec.len() && rec[j].0 == "zone"@
            &&& exists|j: int| 0 <= j < rec.len() && rec[j].0 == "container_id"@
            &&& exists|j: int| 0 <= j < rec.len() && rec[j].0 == "port"@
            &&& forall|j: int| 0 <= j < rec.len() && rec[j].0 == "ip"@ ==> rec[j].1 == public_addr
            &&& forall|j: int| 0 <= j < rec.len() && rec[j].0 == "zone"@ ==> rec[j].1 == zone
            &&& forall|j: int| 0 <= j < rec.len() && rec[j].0 == "container_id"@ ==> rec[j].1 == container_id
            &&& forall|j: int| 0 <= j < rec.len() && rec[j].0 == "port"@ ==> rec[j].1 == decimal(port as nat)
            &&& forall|j: int| 0 <= j < rec.len() && rec[j].0 == "status"@ ==> rec[j].1 == "starting"@
            &&& forall|j: int| 0 <= j < rec.len() && rec[j].0 == "players"@ ==> rec[j].1 == "0"@
        }),
{
    reveal_strlit("container_id");
    reveal_strlit("ip");
    reveal_strlit("port");
    reveal_strlit("zone");
    reveal_strlit("status");
    reveal_strlit("players");
    reveal_strlit("starting");
    reveal_strlit("0");
    let rec = preregistration_spec(container_id, public_addr, port, zone);
    assert(rec[1].0 == "ip"@);
    assert(rec[3].0 == "zone"@);
    assert(rec[0].0 == "container_id"@);
    assert(rec[2].0 == "port"@);
    assert("ip"@ != "zone"@ && "ip"@ != "port"@ && "ip"@ != "status"@ && "ip"@ != "players"@);
    assert("zone"@[0] != "port"@[0]);
    assert("zone"@ != "container_id"@ && "zone"@ != "port"@ && "zone"@ != "status"@ && "zone"@ != "players"@);
    assert("ip"@ != "container_id"@);
    assert("container_id"@ != "port"@ && "container_id"@ != "status"@ && "container_id"@ != "players"@);
    assert("port"@.len() == 4 && "status"@.len() == 6 && "players"@.len() == 7);
    assert("port"@ != "status"@ && "port"@ != "players"@ && "status"@ != "players"@);
}

} // verus!
