# seguro

A password-protected vault on the desktop. Closing the vault zips its
directory and seals the archive; opening it checks the password, opens the
sealed file and unzips it again.

- `src/` is the verified library (Verus):
  - `kdf.rs`: Argon2id key derivation, the stored password record (salt, then
    hash) and the password check.
  - `stream.rs`: XChaCha20-Poly1305 in STREAM mode (32-bit big-endian counter,
    last-chunk flag), one chunk at a time.
  - `vault_file.rs`: the sealed file: a 32-byte salt, a 19-byte stream nonce,
    then the plaintext in 500-byte chunks, each sealed with a 16-byte tag; the
    last (possibly empty) chunk is flagged as last. Sealing is proved to be
    undone by opening with the same password.
  - `paths.rs`: where the vault, its archive, its sealed file and the
    configuration live.
  - `commands.rs`: the steps of creating, closing and opening the vault as a
    state machine, with the status codes, and the order in which the steps
    may happen.
- `app/` is the program around it: files, directories, zip archives and the
  command line.
- `tests/` runs the library on concrete values.
