//! The status record a game server's heartbeat becomes in the registry.

use crate::text::{decimal, u64_to_string};
use vstd::prelude::*;
use vstd::string::StringExecFns;

verus! {

/// Server status update sent by a game server to the orchestrator.
pub struct Heartbeat {
    pub id: String,
    pub ip: String,
    pub port: u16,
    pub zone: String,
    pub player_count: usize,
    pub max_players: usize,
}

/// Where a player connection for a zone is directed.
pub struct ServerInfo {
    pub ip: String,
    pub port: u16,
    pub zone: String,
}

/// How full a server is, as recorded in the registry.
#[derive(Debug, Clone, Copy, PartialEq, Eq, Structural)]
pub enum ServerStatus {
    Empty,
    Full,
    Available,
}

/// The status of a server with `player_count` of `max_players` players:
/// empty with no player, full at or above its capacity, available otherwise.
pub open spec fn status_of(player_count: nat, max_players: nat) -> ServerStatus {
    if player_count == 0 {
        ServerStatus::Empty
    } else if player_count >= max_players {
        ServerStatus::Full
    } else {
        ServerStatus::Available
    }
}

/// The word a status is recorded under.
pub open spec fn status_label(s: ServerStatus) -> Seq<char> {
    match s {
        ServerStatus::Empty => seq!['e', 'm', 'p', 't', 'y'],
        ServerStatus::Full => seq!['f', 'u', 'l', 'l'],
        ServerStatus::Available => seq!['a', 'v', 'a', 'i', 'l', 'a', 'b', 'l', 'e'],
    }
}

/// The registry key of a server: `server:` and its id.
pub open spec fn server_key(id: Seq<char>) -> Seq<char> {
    seq!['s', 'e', 'r', 'v', 'e', 'r', ':'] + id
}

/// The hash fields recorded for a heartbeat, by name, in a fixed order.
pub open spec fn heartbeat_fields(hb: Heartbeat) -> Seq<(Seq<char>, Seq<char>)> {
    seq![
        (seq!['i', 'p'], hb.ip@),
        (seq!['p', 'o', 'r', 't'], decimal(hb.port as nat)),
        (seq!['z', 'o', 'n', 'e'], hb.zone@),
        (seq!['p', 'l', 'a', 'y', 'e', 'r', '_', 'c', 'o', 'u', 'n', 't'], decimal(hb.player_count as nat)),
        (seq!['m', 'a', 'x', '_', 'p', 'l', 'a', 'y', 'e', 'r', 's'], decimal(hb.max_players as nat)),
        (seq!['s', 't', 'a', 't', 'u', 's'], status_label(status_of(hb.player_count as nat, hb.max_players as nat))),
    ]
}

/// The view of a list of named text fields.
pub open spec fn fields_view(v: Seq<(String, String)>) -> Seq<(Seq<char>, Seq<char>)> {
    v.map_values(|f: (String, String)| (f.0@, f.1@))
}

impl ServerStatus {
    /// The status of a server with `player_count` of `max_players` players.
    pub fn of(player_count: usize, max_players: usize) -> (s: ServerStatus)
        ensures
            s == status_of(player_count as nat, max_players as nat),
    {
        if player_count == 0 {
            ServerStatus::Empty
        } else if player_count >= max_players {
            ServerStatus::Full
        } else {
            ServerStatus::Available
        }
    }

    /// The word this status is recorded under.
    pub fn label(&self) -> (t: String)
        ensures
            t@ == status_label(*self),
    {
        match self {
            ServerStatus::Empty => {
                let t = String::from_str("empty");
                proof {
                    reveal_strlit("empty");
                }
                t
            },
            ServerStatus::Full => {
                let t = String::from_str("full");
                proof {
                    reveal_strlit("full");
                }
                t
            },
            ServerStatus::Available => {
                let t = String::from_str("available");
                proof {
                    reveal_strlit("available");
                }
                t
            },
        }
    }

    /// Reads a recorded status word back; `None` for any other text.
    pub fn from_label(text: &String) -> (s: Option<ServerStatus>)
        ensures
            s matches Some(st) ==> status_label(st) == text@,
            s is None ==> forall|st: ServerStatus| status_label(st) != text@,
    {
        let empty = ServerStatus::Empty.label();
        let full = ServerStatus::Full.label();
        let available = ServerStatus::Available.label();
        if *text == empty {
            Some(ServerStatus::Empty)
        } else if *text == full {
            Some(ServerStatus::Full)
        } else if *text == available {
            Some(ServerStatus::Available)
        } else {
            proof {
                assert forall|st: ServerStatus| status_label(st) != text@ by {
                    match st {
                        ServerStatus::Empty => {},
                        ServerStatus::Full => {},
                        ServerStatus::Available => {},
                    }
                }
            }
            None
        }
    }
}

fn text_of(s: &str) -> (t: String)
    ensures
        t@ == s@,
{
    String::from_str(s)
}

impl Heartbeat {
    /// The status the heartbeat's player counts give.
    pub fn status(&self) -> (s: ServerStatus)
        ensures
            s == status_of(self.player_count as nat, self.max_players as nat),
    {
        ServerStatus::of(self.player_count, self.max_players)
    }

    /// The registry key the server is recorded under.
    pub fn server_key(&self) -> (k: String)
        ensures
            k@ == server_key(self.id@),
    {
        let mut k = String::from_str("server:");
        k.append(self.id.as_str());
        proof {
            reveal_strlit("server:");
            assert(k@ =~= server_key(self.id@));
        }
        k
    }

    /// The hash fields recorded for the server: its address, zone, player
    /// counts and status.
    pub fn server_fields(&self) -> (f: Vec<(String, String)>)
        ensures
            fields_view(f@) == heartbeat_fields(*self),
    {
        let mut f: Vec<(String, String)> = Vec::new();
        let ip_name = text_of("ip");
        f.push((ip_name, self.ip.clone()));
        let port_name = text_of("port");
        f.push((port_name, u64_to_string(self.port as u64)));
        let zone_name = text_of("zone");
        f.push((zone_name, self.zone.clone()));
        let count_name = text_of("player_count");
        f.push((count_name, u64_to_string(self.player_count as u64)));
        let max_name = text_of("max_players");
        f.push((max_name, u64_to_string(self.max_players as u64)));
        let status_name = text_of("status");
        f.push((status_name, self.status().label()));
        proof {
            reveal_strlit("ip");
            reveal_strlit("port");
            reveal_strlit("zone");
            reveal_strlit("player_count");
            reveal_strlit("max_players");
            reveal_strlit("status");
            let hf = heartbeat_fields(*self);
            assert(f@.len() == 6);
            assert(fields_view(f@)[0] == hf[0]);
            assert(fields_view(f@)[1] == hf[1]);
            assert(fields_view(f@)[2] == hf[2]);
            assert(fields_view(f@)[3] == hf[3]);
            assert(fields_view(f@)[4] == hf[4]);
            assert(fields_view(f@)[5] == hf[5]);
            assert(fields_view(f@) =~= hf);
        }
        f
    }
}

/// The offset of the JSON object in a heartbeat datagram: the index of its
/// first `{` byte, or zero when it holds none.
pub fn json_start(payload: &[u8]) -> (i: usize)
    ensures
        (exists|k: int| 0 <= k < payload@.len() && payload@[k] == 0x7Bu8) ==> {
            &&& i < payload@.len()
            &&& payload@[i as int] == 0x7Bu8
            &&& forall|j: int| 0 <= j < i ==> payload@[j] != 0x7Bu8
        },
        (forall|k: int| 0 <= k < payload@.len() ==> payload@[k] != 0x7Bu8) ==> i == 0,
{
    let mut i: usize = 0;
    while i < payload.len()
        invariant
            i <= payload@.len(),
            forall|j: int| 0 <= j < i ==> payload@[j] != 0x7Bu8,
        decreases payload@.len() - i,
    {
        if payload[i] == 0x7Bu8 {
            return i;
        }
        i = i + 1;
    }
    0
}

/// Each status is recorded under its own word, so reading a recorded word
/// back gives the status it was written for.
pub proof fn law_status_labels_distinct(s1: ServerStatus, s2: ServerStatus)
    ensures
        status_label(s1) == status_label(s2) ==> s1 == s2,
{
    if s1 != s2 {
        match (s1, s2) {
            (ServerStatus::Empty, ServerStatus::Full) => assert(status_label(s1)[0] != status_label(s2)[0]),
            (ServerStatus::Empty, ServerStatus::Available) => assert(status_label(s1)[0] != status_label(s2)[0]),
            (ServerStatus::Full, ServerStatus::Empty) => assert(status_label(s1)[0] != status_label(s2)[0]),
            (ServerStatus::Full, ServerStatus::Available) => assert(status_label(s1)[0] != status_label(s2)[0]),
            (ServerStatus::Available, ServerStatus::Empty) => assert(status_label(s1)[0] != status_label(s2)[0]),
            (ServerStatus::Available, ServerStatus::Full) => assert(status_label(s1)[0] != status_label(s2)[0]),
            _ => {},
        }
    }
}

} // verus!
