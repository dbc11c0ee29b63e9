use vstd::prelude::*;
use vstd::string::StringExecFns;

verus! {

/// The path that `PathBuf::push` makes of `base` and `segment` (on the
/// platform the library is built for), as text.
pub uninterp spec fn pushed_path(base: Seq<char>, segment: Seq<char>) -> Seq<char>;

/// The path that `PathBuf::set_extension` makes of `path` and `extension`
/// (on the platform the library is built for), as text.
pub uninterp spec fn extension_set(path: Seq<char>, extension: Seq<char>) -> Seq<char>;

/// The path that `PathBuf::pop` leaves of `path` (on the platform the
/// library is built for), as text.
pub uninterp spec fn popped_path(path: Seq<char>) -> Seq<char>;

/// `PathBuf::push` of `segment` onto `base`, read back as text.
/// Trusted: the result is `pushed_path` of the two. Both inputs are UTF-8,
/// so the lossless branch of `to_string_lossy` is the one taken.
#[verifier::external_body]
fn path_push(base: &str, segment: &str) -> (res: String)
    ensures
        res@ == pushed_path(base@, segment@),
{
    let mut p = std::path::PathBuf::from(base);
    p.push(segment);
    p.to_string_lossy().into_owned()
}

/// `PathBuf::set_extension` of `extension` on `path`, read back as text.
/// Trusted: the result is `extension_set` of the two; `set_extension`
/// panics on an extension that holds a path separator, which `requires`
/// leaves out.
#[verifier::external_body]
fn path_set_extension(path: &str, extension: &str) -> (res: String)
    requires
        !extension@.contains('/'),
        !extension@.contains('\\'),
    ensures
        res@ == extension_set(path@, extension@),
{
    let mut p = std::path::PathBuf::from(path);
    p.set_extension(extension);
    p.to_string_lossy().into_owned()
}

/// `PathBuf::pop` on `path`, read back as text.
/// Trusted: the result is `popped_path` of it.
#[verifier::external_body]
fn path_pop(path: &str) -> (res: String)
    ensures
        res@ == popped_path(path@),
{
    let mut p = std::path::PathBuf::from(path);
    p.pop();
    p.to_string_lossy().into_owned()
}

/// The files of a vault: its directory, its zip archive and its sealed file.
pub struct Filenames {
    pub vault_path: String,
    pub zipped: String,
    pub encrypted: String,
}

/// The directory of the application's own files under the configuration root.
pub fn config_dir(config_root: &str) -> (res: String)
    ensures
        res@ == pushed_path(config_root@, "Seguro"@),
{
    path_push(config_root, "Seguro")
}

/// Where the password record lives.
pub fn hash_path(config_root: &str) -> (res: String)
    ensures
        res@ == pushed_path(pushed_path(config_root@, "Seguro"@), "hash.txt"@),
{
    let dir = config_dir(config_root);
    path_push(dir.as_str(), "hash.txt")
}

/// Where the name of the vault is kept.
pub fn init_path(config_root: &str) -> (res: String)
    ensures
        res@ == pushed_path(pushed_path(config_root@, "Seguro"@), "init.txt"@),
{
    let dir = config_dir(config_root);
    path_push(dir.as_str(), "init.txt")
}

/// The files of the vault named `vault_name` on the desktop `desktop`: the
/// directory is the name pushed onto the desktop, the archive is that path
/// with the extension `zip`, the sealed file is that path's text followed by
/// `.encrypted`.
pub fn get_filenames(desktop: &str, vault_name: &str) -> (f: Filenames)
    ensures
        f.vault_path@ == pushed_path(desktop@, vault_name@),
        f.zipped@ == extension_set(pushed_path(desktop@, vault_name@), "zip"@),
        f.encrypted@ == pushed_path(desktop@, vault_name@) + ".encrypted"@,
{
    let vault_path = path_push(desktop, vault_name);
    proof {
        reveal_strlit("zip");
        assert("zip"@[0] != '/' && "zip"@[1] != '/' && "zip"@[2] != '/');
    }
    let zipped = path_set_extension(vault_path.as_str(), "zip");
    let encrypted = vault_path.clone().concat(".encrypted");
    Filenames { vault_path, zipped, encrypted }
}

/// The sealed file whose presence tells that the vault is closed: the name
/// followed by `.encrypted`, pushed onto the desktop.
pub fn sealed_vault_path(desktop: &str, vault_name: &str) -> (res: String)
    ensures
        res@ == pushed_path(desktop@, vault_name@ + ".encrypted"@),
{
    let name = vault_name.to_owned().concat(".encrypted");
    path_push(desktop, name.as_str())
}

/// Where the archive of a vault is copied before it is sealed: `.backup.zip`
/// beside the vault's directory.
pub fn backup_path(vault_path: &str) -> (res: String)
    ensures
        res@ == pushed_path(popped_path(vault_path@), ".backup.zip"@),
{
    let parent = path_pop(vault_path);
    path_push(parent.as_str(), ".backup.zip")
}

} // verus!
