# music_index

A music library index: bands, albums and tracks found under a root directory,
searched by name and genre, played through a system player or written out as
an M3U playlist.

## Layout

- `src/` is the library, verified with Verus:
  - `text.rs`: how names are prepared for search (lower case, alphanumeric
    words joined by single spaces) and the string helpers around it;
  - `paths.rs`: the path operations the library needs, each one call into
    `std::path`;
  - `music/`: the model (`Band`, `Album`, `Track`, `MusicCache`), the rescan
    (which directories to forget and read again, how read files are filed into
    bands and albums and put in order), the search plan and the choice of what
    to play, and the M3U text of a playlist;
  - `music/laws.rs`: properties that hold across operations.
- `app/` is the part that touches the world: reading tags from files, walking
  directories, the cache file, fuzzy scoring, launching the player.
- `tests/` exercises the library on concrete values.
