# crabcore

The core of a radio automation station: the library and its rotations,
playlists, cart walls, schedules and advert windows, licensing, settings and
reports, the player's transport, and streaming to Icecast and Shoutcast servers.

The logic is in `src/`, with contracts that Verus proves. Promises that relate
several calls stand there as public proof functions next to the functions that
they speak of.

- `src/text.rs`, `rank.rs`, `table.rs`, `days.rs`, `clock.rs`: text, stable
  ranking, keyed tables, weekdays and moments.
- `src/library/`, `playlist/`, `scheduler.rs`, `cart.rs`, `ads.rs`, `voice/`:
  what the station plays and when.
- `src/audio/`: decks, blends, the transport, the microphone, loudness and
  silence. Numbers with fractions are kept in millionths.
- `src/stream/`: configuration, handshakes, framing, and the life of a stream.
- `src/db.rs`, `paths.rs`, `settings.rs`, `license.rs`, `report.rs`,
  `workbook.rs`: what is kept and what is handed out.

`app/` is ordinary Rust around it: SQLite, files, the network, codecs, audio
devices and floating point signal processing. `tests/` holds the tests of the
library.
