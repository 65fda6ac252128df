# astro_plugins

A Verus library with the logic of four pieces of a watch companion, and the
ordinary Rust around it.

- `src/bridge`: a fetch bridge. HTTP responses travel to a watch over a message
  link, whole, in acknowledged chunks or as a stream.
- `src/mifit`: a reader of device keys, out of log texts and SQLite manifests.
- `src/lyra_import`: a music import. Songs, images and lyrics are sent to the
  watch in checked chunks; a cloud service can be searched for them.
- `src/player`: the player on the watch. Lyrics, the stored library, its pages, and
  what the audio device, the storage and the screen ask for.
- `src/json.rs`, `src/text.rs`, `src/element.rs`: JSON values, texts and page
  elements, with the views that the contracts speak of.

Every function under `src` states what it does in its contract, and Verus proves
it. Public proof functions state what holds across functions. Calls into other
crates that only compute stand in small wrappers whose contracts are trusted.

`app` holds what is not verified: host calls, files, the network, the clock, the
forms that serde gives to values, the length of MP3 files, the decoding of damaged
device lists, and computations in floating point. `tests` runs the library.
