# cat_dev

Host-side tooling for cat-dev units, with its core proved correct by Verus.

`src/` is the verified library:

- `wire` — big endian fields and NUL terminated strings, the building
  blocks of every packet.
- `fsemul::pcfs::sata::proto` — the PCFS SATA request and answer bodies,
  each with an exact parser, a serializer and a proof that one undoes the
  other.
- `fsemul::pcfs::sata::server` — per connection flags and what a server
  decides while answering: return codes, open options, the steps of
  removals, renames, mode changes and folder creation, fast file replies,
  the answers to info queries, and the write-ahead log of a connection,
  which reads each request from its body, pairs each response with the
  request it answers and reads it for that request, and writes the line
  the log holds for each.
- `fsemul::pcfs::sata::client` — how a client splits a large read.
- `fsemul::dlf`, `fsemul::bsf` — the disk layout file and boot system file
  formats, with round trip proofs and the laws of the layout's updates.
- `fsemul::config` — `fsemul.ini`, read and written through `configparser`.
- `fsemul::host_filesystem` — where a requested path leads on the host,
  when it may be served, which paths may be written, where system titles
  live, and where removed and copied paths go; `fsemul::folder_cursor`
  keeps an open folder's entries in order and how far they were read, and
  `fsemul::file_handles` how opened files are numbered.
- `fsemul::atapi` — framing of the ATAPI emulation stream and its reads.
- `cli` — the `setbridgeconfig` command line.

`app/` holds what talks to the host: reading and writing files, listing
and walking folders, making paths canonical, preparing an SDK directory,
and the thread that writes the write-ahead log to its file. `tests/` runs
the library on concrete values.
