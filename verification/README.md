# navis

The verified core of Navis, a cross-platform connection manager (SSH, SFTP,
RDP). The library in `src/` is written in Verus, and Verus proves the
contract of each of its functions, with one exception: the thin wrappers
around outside crates (Argon2id, AES-GCM, Base64, UUIDs, SHA-256, chrono,
serde_json, zeroize, the OS random source, and a few std functions) are marked
`#[verifier::external_body]`. Their contracts are trusted, not proved, and
each wrapper's doc comment says what it claims of the crate it calls.

What the library decides:

- `registry`, `policy`, `records`: folders, saved connections and credential
  profiles with their relational rules (unique ids, references, cascading
  deletes, import/export), credential inheritance along the folder tree, and
  the stored row format.
- `vault`, `crypto`, `keychain`: the encrypted credential vault (Argon2id key
  stretching, AES-256-GCM with associated data binding each entry to its
  reference and kind) and the keychain entry of its wrapping key.
- `hostkeys`: the SSH `known_hosts` store (parser, renderer, trust on first
  use) and the RDP certificate pin store.
- `rdp`, `ssh`, `sftp`, `session`: option validation, the plan for launching
  the native RDP client, the steps of an SSH session, path checks.
- `autolock`, `paths`, `commands`: idle locking, the data-directory layout, and
  the operations the UI invokes.
- `text`, `encoding`, `keyed`, `table`: text handling, encodings and keyed
  tables the rest is built on.

Laws of the library are public proof functions named `law_*`.

`app/` holds what runs around the library: files, the SQLite store, the OS
keychain, the SSH transport, process launching and the backend state.
