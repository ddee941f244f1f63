# heimdall

A small secrets service: projects, environments, and tokens scoped to one
environment and, optionally, to a list of key names. Values are sealed one by
one with XChaCha20-Poly1305 under a subkey that blake3 derives from the master
key and the environment; tokens are stored hashed; the audit log records who
touched what, never a value.

## Layout

- `src/` is the library, verified with Verus:
  - `text.rs`: strings as character sequences (trimming, splitting, numbers).
  - `crypto.rs`: the master key, subkeys, sealing, hashing, hexadecimal.
  - `json.rs`: JSON values as the library reads and writes them.
  - `secrets.rs`: an environment's secrets, sorted by name.
  - `store.rs`: names, sealed values, tokens and audit rows, as the store
    checks and reads them.
  - `http.rs`: request heads, query strings, cookies, response heads.
  - `server.rs`: who is asking, what each API route may do, and the answers.
  - `web.rs`: the web pages, sign-in links and the session cookie.
  - `mail.rs`: the sign-in mail.
  - `cli.rs`: the command-line client's commands and what it prints.
- `app/` is the program around it: the socket, the SQLite file, the mail and
  API requests, files, the environment and the child process.
- `tests/` runs the library on concrete values.

The program serves when run with no arguments or with `serve`; with any other
first argument it is the client (`heimdall help`). The web pages are read from
the directory named by `HEIMDALL_WEB` (default `web`).
