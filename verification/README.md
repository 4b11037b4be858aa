# guild_forge

The rules of Guild Forge, a guild-management game in which heroes are hired,
trained, equipped and sent into procedurally generated dungeons, written as a
Verus library: every function in `src/` carries a contract that Verus proves.

## Layout

- `src/mission/`: dungeon generation (rooms, corridors, doors, room roles,
  with proofs that every room is reachable and every door is usable),
  path finding, the turn queue and combat rules of a mission, the step that
  plays one token's turn (`turn.rs`), hero and enemy decisions, room events,
  and how a finished mission pays out or leaves its heroes missing.
- `src/hero/`: hero data, growth and levelling, perks, epithets, status
  ticks, portraits, generation, and the history each hero accumulates.
- `src/recruiting.rs`, `src/buildings.rs`, `src/equipment.rs`,
  `src/materials.rs`, `src/economy.rs`, `src/reputation.rs`: the guild's
  applicant board, buildings, gear, materials and resources.
- `src/localization.rs`, `src/text.rs`: the string table and the text helpers
  its lookups and interpolation use.
- `src/crash_reporting.rs`: the ring of recent log lines and the crash report
  built from it.
- `src/music.rs`, `src/colors.rs`: which music plays and colour channels.
- `src/rng.rs`: the calls into `rand`, each with the contract its callers rely on.
- `tests/`: tests of the library on concrete values.
- `app/`: what stays outside the library: reading data files, the panic hook,
  serde copies of the data types, and the floating-point helpers of the
  renderer and the mixer.
