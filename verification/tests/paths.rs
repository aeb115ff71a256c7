use axiom_core::digest::spec_digest_of;
use axiom_core::drivers::resolve_workspace_path;
use axiom_core::naming::{hex_id, path_join};
use axiom_core::FileSnapshotArchive;

#[test]
fn hex_id_spells_utf8_bytes_in_lowercase_hex() {
    assert_eq!(hex_id("ab"), "6162");
    assert_eq!(hex_id(""), "");
    assert_eq!(hex_id("run/1"), "72756e2f31");
    assert_eq!(hex_id("é"), "c3a9");
}

#[test]
fn hex_ids_of_different_run_ids_differ() {
    assert_ne!(hex_id("a/b"), hex_id("a_b"));
    assert_ne!(hex_id("ab"), hex_id("ba"));
}

#[test]
fn path_join_follows_unix_rules() {
    assert_eq!(path_join("/tmp", "x"), "/tmp/x");
    assert_eq!(path_join("/tmp/", "x"), "/tmp/x");
    assert_eq!(path_join("", "x"), "x");
    assert_eq!(path_join("/tmp", "/etc"), "/etc");
}

#[test]
fn spec_digest_is_hex_sha256() {
    assert_eq!(
        spec_digest_of(b"abc"),
        "ba7816bf8f01cfea414140de5dae2223b00361a396177a9cb410ff61f20015ad"
    );
    assert_eq!(
        spec_digest_of(b""),
        "e3b0c44298fc1c149afbf4c8996fb92427ae41e4649b934ca495991b7852b855"
    );
    assert_eq!(spec_digest_of(b"run").len(), 64);
}

#[test]
fn workspace_paths_stay_under_the_root() {
    assert_eq!(resolve_workspace_path("/ws", "notes.txt"), Ok("/ws/notes.txt".to_string()));
    assert_eq!(resolve_workspace_path("/ws", "a/b.txt"), Ok("/ws/a/b.txt".to_string()));
    assert_eq!(resolve_workspace_path("/ws", "a..b/c"), Ok("/ws/a..b/c".to_string()));
    assert_eq!(
        resolve_workspace_path("/ws", "/etc/passwd"),
        Err("filesystem_path_denied:/etc/passwd".to_string())
    );
    assert_eq!(resolve_workspace_path("/ws", "../x"), Err("filesystem_path_denied:../x".to_string()));
    assert_eq!(resolve_workspace_path("/ws", "a/../x"), Err("filesystem_path_denied:a/../x".to_string()));
    assert_eq!(resolve_workspace_path("/ws", "a/.."), Err("filesystem_path_denied:a/..".to_string()));
}

#[test]
fn snapshot_paths_use_hex_run_ids_and_padded_sequences() {
    let archive = FileSnapshotArchive::new("/snap");
    assert_eq!(archive.root(), "/snap");
    assert_eq!(archive.run_root("ab"), "/snap/6162");
    assert_eq!(archive.snapshot_path("ab", 42), "/snap/6162/00000000000000000042.json");
    assert_eq!(archive.snapshot_path("ab", u64::MAX), "/snap/6162/18446744073709551615.json");
}
