# starling_server

The roost server of Starling: a persistent bird that stores a community's
chat history in a sled database and serves it to birds that join later.

The library under `src/` is verified with Verus. It holds what the server
decides and computes: valid roost and channel names, the key layout of the
message store and of the event history, bounded history backfill, the
channel list and moderation verdicts, console and command-line parsing, the
lifecycle checks (`destroy`, `close`, `doctor`, `members`), the setup
wizard's state machine and the chat screen's state. The store keeps its
messages in sled and encodes them with postcard; those calls stand behind
small trusted wrappers in `backend.rs` and `codec.rs` whose contracts say
what the crates do. A store owns the only handle to its database's default
tree; the event history opens its own trees through the store.

Keys come from `iroh-base`, the crate in which iroh defines `SecretKey` and
`PublicKey` (iroh re-exports them); the library needs the key types only, not
iroh's networking.

`app/` is the `starling-server` program around the library: files,
processes, the network endpoint and its protocol handlers, and the
terminal screens. `tests/` runs the library against the real sled, postcard,
iroh-base and lru crates.
