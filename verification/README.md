# mmo_backend

The verified core of a sharded multiplayer game backend, written in Verus.

- `src/authority`: the hand-off of entities between game-server shards:
  the authority states, the binary codec of the hand-off messages, the
  entity world, the per-tick processing of the queued messages, and the
  laws that hold across calls (a request is sent once, a hand-off cycle
  restores ownership, ghost updates leave one ghost per entity at its
  latest position).
- `src/broker`: the broker's frame format, its configuration, and its
  publish/subscribe routing.
- `src/ability`: the ability service's rules: attributes, casting, hits,
  kills, experience and mana regeneration.
- `src/orchestrator`: configuration, the status record made of heartbeats,
  the scaler's decisions (the pool's size, which empty servers go, when
  their registry entries are deleted, free ports), the shard-layout
  planner with the registry update that follows the spawn outcomes, and
  the container settings of new game servers.
- `src/game_server`: a game server's player registry, its reaction to
  broker broadcasts, its configuration and heartbeat, and its simulation
  commands.
- `src/ai`, `src/client`: the AI characters' and the game client's
  decisions.
- `src/wire.rs`, `src/text.rs`, `src/parse.rs`, `src/ids.rs`: the calls into
  `bytes`, `uuid` and the standard library that the logic makes, with their
  contracts.

Positions are carried as the bit patterns of their `f32` coordinates; the
floating-point tests on them live in `app/float_rules.rs`. `app/` holds the
orchestrator process: environment settings, the Redis client and the UDP
heartbeat listener.
