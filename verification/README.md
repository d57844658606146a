# offline_messenger

A client-server messenger whose protocol logic is verified with Verus.

The library (`src/`) holds what the programs decide and compute:

- `frame`: length-prefixed frames (big-endian `u32` length, then payload);
- `criptare`: the x25519 exchange, the SHA-256 channel key and the
  AES-256-GCM channels that number their packets;
- `handshake`: the key messages and the channels each side opens;
- `transport`: a payload sealed and framed for the wire;
- `protocol`: the messages;
- `login`, `session`, `online`, `records`: the server's rules for accounts,
  for each connection, for who is online on which connection, and for
  handing out stored texts (oldest first) and marking them delivered;
- `chat`, `command`, `text`: the window client's state, the text client's
  command line, and trimming and splitting of text.

`app/` holds the programs: sockets, threads, SQLite, JSON and the window.
Run `server`, `client` or `gui` as the first argument.

## Wire format

A packet is an 8-byte big-endian packet number followed by the AES-256-GCM
ciphertext and tag. The 96-bit nonce is the packet number, then one byte for
the direction (0 from client to server, 1 from server to client), then three
zero bytes, so the two directions of a connection, which share one key, never
use the same nonce. `ChannelSecure::new` therefore takes the direction with
the key. Earlier builds used a zero byte in both directions; packets from the
server to the client are not compatible with them.
