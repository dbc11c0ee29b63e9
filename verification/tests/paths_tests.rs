use seguro::paths::{backup_path, config_dir, get_filenames, hash_path, init_path, sealed_vault_path};

#[test]
fn filenames_on_desktop() {
    let f = get_filenames("/home/u/Desktop", "vault");
    assert_eq!(f.vault_path, "/home/u/Desktop/vault");
    assert_eq!(f.zipped, "/home/u/Desktop/vault.zip");
    assert_eq!(f.encrypted, "/home/u/Desktop/vault.encrypted");
}

#[test]
fn filenames_replace_an_extension_for_the_archive() {
    let f = get_filenames("/d", "my.box");
    assert_eq!(f.vault_path, "/d/my.box");
    assert_eq!(f.zipped, "/d/my.zip");
    assert_eq!(f.encrypted, "/d/my.box.encrypted");
}

#[test]
fn configuration_paths() {
    assert_eq!(config_dir("/cfg"), "/cfg/Seguro");
    assert_eq!(hash_path("/cfg"), "/cfg/Seguro/hash.txt");
    assert_eq!(init_path("/cfg"), "/cfg/Seguro/init.txt");
}

#[test]
fn sealed_vault_path_and_backup() {
    assert_eq!(sealed_vault_path("/home/u/Desktop", "vault"), "/home/u/Desktop/vault.encrypted");
    assert_eq!(backup_path("/home/u/Desktop/vault"), "/home/u/Desktop/.backup.zip");
}
