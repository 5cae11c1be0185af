# adjourn

Untimed correspondence chess without a server, over Freenet.

A game is a set of signed records. Two peers that hold the same records see the
same game, in whatever order the records arrived. Nobody can make a game
unreadable by signing nonsense, and nobody can sign two moves at one ply without
forfeiting.

- `src/` is the library. Every function states what it does, and Verus proves it;
  of the calls into outside crates, what stands above each is taken on trust. The
  laws that hold across functions stand in the modules as proof functions.
- `tests/` runs the library on concrete games, bytes and screens.
- `app/` is the program around it: the command line, the two transports, the
  adapters for a Freenet node, and the graphical client.

Where to look in `src/`:

| module | what it holds |
|---|---|
| `types`, `state` | records, their ids and signatures, and the set they form |
| `algebra` | the laws of merging, evicting and exchanging |
| `project`, `chain` | the game that a set of records shows, and what is final about it |
| `contract` | the contract: what it accepts, stores and sends |
| `delegate_api`, `delegate_policy`, `secrets`, `delegate` | the keeper of the keys |
| `invite`, `session`, `flow` | how two players meet, play, migrate and watch |
| `transport` | which frame answers which request |
| `command`, `output` | the command line |
| `board`, `screen`, `panel` | the graphical client |
| `cbor`, `crypto`, `chess` | what is taken from ciborium, sha2, ed25519-dalek and shakmaty |
| `bytes`, `text`, `bytemap` | helpers |
