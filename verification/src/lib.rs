//! A password-protected vault: the directory is zipped, then sealed with
//! XChaCha20-Poly1305 in STREAM mode under a key that Argon2id derives from
//! the password and a random salt.
//!
//! - `kdf`: Argon2 parameters, the stored password record and its check.
//! - `stream`: the STREAM primitive, one chunk at a time.
//! - `vault_file`: the sealed file format, sealing and opening whole files.
//! - `paths`: where the vault, its archive and its sealed file live.
//! - `commands`: the decisions of the vault commands and their status codes.

pub mod kdf;
pub mod stream;
pub mod vault_file;
pub mod paths;
pub mod commands;
