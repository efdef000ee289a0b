# locked_calendar

An encrypted day journal: one note per day, encrypted field by field with
AES-256-GCM under a key derived from the master password with Argon2id, and
two-way sync of the encrypted notes through a single file in Google Drive.

The library in `src/` holds the journal's logic with its contracts, proved by
Verus:

- `store`, `meta`: the notes table and the metadata table, in memory.
- `crypto`, `auth_service`, `session`: key derivation, password setup,
  unlock and change, and the idle lock of the session.
- `note_service`, `search_service`, `timeline_service`, `tag_service`,
  `on_this_day_service`, `export_service`: what the user reads and writes.
- `sync`, `sync_service`, `sync_laws`: the sync bundle, the last-write-wins
  merge with tombstones, and the laws proved of it.
- `oauth`, `drive`: the rules of Google sign-in and of the Drive file (the
  addresses, the callback, the answers' statuses).
- `calendar`, `text`, `decimal`, `encoding`, `ids`, `sorting`: days, texts,
  numbers, base64, UUIDs and ordering.

`app/` is a terminal front end around the library: the SQLite file, the JSON
forms of the bundle and the export, and the network work of sign-in and
Drive. Each line it reads is one command (`setup`, `unlock`, `save`, `get`,
`search`, `timeline`, `sync`, ...).

Cloud sync needs `GOOGLE_OAUTH_CLIENT_ID` in the environment.
