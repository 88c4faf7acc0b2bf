# torrent-vlc

A command-line client that streams a media file out of a BitTorrent torrent into VLC. It resolves
and downloads torrent pieces, serves the chosen file as a byte-range stream on localhost, starts
VLC, and cleans up the temporary session afterwards. Use it only for torrents that you are
authorized to access.

## Layout

- `src/` is a library of everything that is decided or computed. Its contracts are
  proved by Verus; public proof functions state what holds across functions.
- `app/` is the program around it: the command line, the torrent engine, the HTTP server, files and
  processes.
- `tests/` runs the library on concrete values.

The library, by module:

- `text`, `numbers`, `paths`, `natural`: text, decimal numerals, paths, natural order of names
- `bignum`, `binary64`, `size`: sizes and durations with the rounding of 64-bit floating point
- `torrent`: the layout of files and pieces, the storage quota, what the engine reports
- `file_select`: which files are playable, their listing, the choice of one, the report on all
- `stream`: byte ranges, responses to requests, reading in chunks, the startup buffer
- `session`: names, life cycle and recovery of temporary sessions
- `player`: where VLC is found
- `cli`, `runtime`, `messages`, `token`, `platform`: configuration, the end of a run, error texts,
  identifiers, what differs between systems

Paths in a torrent are read with `/` between their parts; the program writes them so on every
system.

## Trust

The proofs rest on the stated contracts of a few calls: `mime_guess::from_ext`, `url::Url::parse`,
`uuid::Uuid::new_v4`, and from the standard library `String::push` and `SystemTime::elapsed`.
