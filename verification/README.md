# hyperblow

A BitTorrent client for the terminal. The library in `src/` holds the client's logic with
its contracts proved by Verus; `app/` is the program around it (command line, terminal
interface, sockets, files), and `tests/` exercises the library.

## Library modules

- `wire`, `messages`, `codec`: peer wire messages, their bytes and the framing of a receive
  buffer.
- `torrent`, `hash`, `magnet`, `metadata`, `metadata_fetch`: torrent metadata, info hashes,
  magnet URIs and BTIH decoding, and the steps of fetching metadata from a peer (BEP 9/10).
- `tracker`, `udp_tracker`, `udp_announce`, `net`: tracker URLs and tiers (BEP 12), HTTP
  announce URLs and responses, UDP tracker requests and responses (BEP 15) and the steps of an
  exchange with a UDP tracker, peer addresses.
- `piece_picker`, `piece_assembler`, `peer`, `piece_storage`: choosing pieces (rarest first),
  the steps of a session with a peer, collecting and checking the blocks of a piece, and
  placing pieces in the output files.
- `file_tree`, `sized_tree`: the tree of a torrent's files.
- `arguments`, `command`, `completion`, `text`: the command line, the `:` commands and their
  completions.
- `tui`, `engine`, `download_directory`: the selection state of the interface, what it shows of
  each torrent, and where downloads go.

## Layout

- `src/`: the verified library.
- `tests/`: tests of the library.
- `app/`: the `hyperblow` program. Where a task alternates waiting and deciding (a session
  with a peer, an exchange with a UDP tracker, a metadata fetch), the library's step function decides and the
  program carries out each action and reports back what happened.
