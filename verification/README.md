# mist

A small Minecraft (Java edition, protocol 770) server. The game's rules, the wire
format and the world's storage are a library verified with Verus. Around it stands an
ordinary Rust program with what the library leaves out: files (regions, players, the
world's clock), world generation's floating-point noise, the tick loop, and the first
steps of a connection (the handshake, the disconnects for a wrong version or a full
server, and the login's key exchange and authentication). It builds its players'
packet handling on the library's handlers, but does not yet run the later login,
configuration and play exchanges.

## Layout

- `src/` — the verified library (`mist`):
  - `net/codec.rs`, `net/packets.rs`: VarInts, big-endian numbers, strings, item
    slots and every packet body the server reads, each reader tied to a spec
    function of the bytes.
  - `server/`: authentication hashes, the command parser and dispatcher, the
    decisions of block and inventory interaction, the handlers that apply a player's
    packets to its inventory, windows and chunk, and the steps of the login,
    configuration, leave and autosave state machines.
  - `types/`: blocks and their states, items, recipes and crafting, block entities
    (chests and furnaces, with the furnace's tick), item entities, players'
    inventories.
  - `world/`: paletted block storage (bit packing, palettes, resizing), sections,
    chunks and regions, the compression of region files, the wire form of a section,
    chunk loading order, and the
    parts of world generation that work on integers (surface, fluids, ores' layout,
    plants).
- `tests/`: tests of the library on concrete values.
- `app/`: the server program, built on the library.
