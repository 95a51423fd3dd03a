# etopa

Etopa keeps time-based one-time password (TOTP) secrets for its users: the
web and mobile clients encrypt each secret with a key derived from the
user's password, and the API server stores the encrypted storage file of
each user, handles accounts and logins, and rate-limits failed logins.

This crate is the logic of all three, with contracts proved by Verus:

- `src/` is the library. `totp` generates tokens (RFC 6238), `crypto` hashes
  and encrypts, `hex` and `data` read and write the storage file format,
  `web` and `android` are the operations of the two clients, `url` decodes
  the escapes in URLs the mobile client receives, `logins`, `security`,
  `api` and `utils` are the decisions of the API server, `json_api` those
  of its account API with JSON bodies, `config` reads the configuration
  file of the TLS server, and `map` is the ordered string map they share.
- `tests/` runs the library on concrete values.
- `app/` is the API server program and the native and WebAssembly glue of
  the clients: file and network I/O, locks, and the foreign interfaces.
