# keeplin-core

The core of Keeplin, a self-hostable notes backend, as a library whose logic is proved
with Verus: the domain models, the version vectors and line-based collaborative editing,
note links and aliases, ordering, encryption at rest, vCard and iCalendar interchange,
the change journal and database rows, cursor pagination, and the decisions around storage and sync.

- `src/` is the verified library. Each module states its functions' behaviour in
  `requires`/`ensures` over spec functions and views; the laws that span functions
  (version-vector joins, diff-then-apply, alias uniqueness, vCard and iCalendar round
  trips, the page walk) are public proof functions. Calls into `uuid`, `chrono`,
  `base64`, `aes-gcm`, `argon2` and `serde_json` go through small trusted wrappers whose
  contracts say what those crates document.
- `tests/` runs the library on concrete values.
- `app/` is the I/O around it: the HTTP handshake with the sync server, the conversions
  to `chrono` and `uuid` types, and the store reads that preparing a note's links needs.
