use netsandbox::clock::Timestamp;
use netsandbox::identity::EnvironmentId;
use netsandbox::model::{Environment, EnvironmentPolicy};
use netsandbox::path::FsPath;
use netsandbox::store::{is_safe_identifier, validate_name, Store};

fn environment(name: &str) -> Environment {
    Environment::with_identity(
        EnvironmentId { bytes: [7; 16] },
        Timestamp { seconds: 100, nanoseconds: 0 },
        name.to_owned(),
        None,
        FsPath::new("/"),
        EnvironmentPolicy::default(),
        Vec::new(),
    )
}

#[test]
fn accepts_safe_names() {
    for name in ["ssh-test", "proxy_2", "edge.cn", "A1"] {
        validate_name(name).unwrap();
    }
}

#[test]
fn rejects_traversal_names() {
    for name in ["", "../host", ".hidden", "a/b", "with space"] {
        assert!(validate_name(name).is_err(), "{name}");
    }
}

#[test]
fn invalid_names_are_rejected() {
    let store = Store::new(FsPath::new("/state"));
    let error = store.create_environment(&environment("../escape"), false).err().unwrap();
    assert!(error.contains("invalid environment name"));
    assert!(store.load_environment("../escape").is_err());
    assert!(store.delete_environment("../escape", true).is_err());
}

#[test]
fn names_have_at_most_forty_eight_characters() {
    let longest = "a".repeat(48);
    validate_name(&longest).unwrap();
    let too_long = "a".repeat(49);
    assert_eq!(
        validate_name(&too_long).unwrap_err(),
        "invalid environment name; use 1-48 letters, numbers, '.', '-' or '_', and do not start with '.'"
    );
    assert!(validate_name("caf\u{e9}").is_err());
}

#[test]
fn identifiers_are_plain() {
    assert!(is_safe_identifier("apply-20250102-030405-0a0b0c0d"));
    assert!(!is_safe_identifier(""));
    assert!(!is_safe_identifier("a.b"));
    assert!(!is_safe_identifier("../x"));
    assert!(!is_safe_identifier(&"a".repeat(97)));
    assert!(is_safe_identifier(&"a".repeat(96)));
}

#[test]
fn a_new_environment_has_its_directories_below_the_store() {
    let store = Store::new(FsPath::new("/state"));
    let list = store.create_environment(&environment("demo"), false).ok().unwrap();
    let shown: Vec<String> = list.iter().map(|path| path.display()).collect();
    assert_eq!(
        shown,
        [
            "/state/environments/demo/upper",
            "/state/environments/demo/work",
            "/state/environments/demo/merged",
        ]
    );
    assert_eq!(
        store.create_environment(&environment("demo"), true).err().unwrap(),
        "environment 'demo' already exists"
    );
    assert_eq!(
        store.delete_environment("demo", false).err().unwrap(),
        "environment 'demo' does not exist"
    );
    assert_eq!(
        store.load_environment("demo").ok().unwrap().display(),
        "/state/environments/demo/environment.json"
    );
}

#[test]
fn environments_are_listed_by_name() {
    let store = Store::new(FsPath::new("/state"));
    let listed = store.list_environments(vec![
        environment("beta"),
        environment("alpha"),
        environment("Gamma"),
    ]);
    let names: Vec<&str> = listed.iter().map(|e| e.name.as_str()).collect();
    assert_eq!(names, ["Gamma", "alpha", "beta"]);
}

#[test]
fn transactions_are_looked_up_below_the_store() {
    let store = Store::new(FsPath::new("/state"));
    assert_eq!(
        store.load_transaction("apply-1").ok().unwrap().display(),
        "/state/transactions/apply-1/transaction.json"
    );
    assert!(store.load_transaction("../x").is_err());
    assert!(store.transaction_lease_path("../x").is_err());
    assert!(store.commit_marker("a/b").is_err());
}

#[test]
fn new_environments_differ_and_carry_version_four_identifiers() {
    let first = Environment::new(
        "a".to_owned(),
        Some("first".to_owned()),
        FsPath::new("/base"),
        EnvironmentPolicy::default(),
        Vec::new(),
    );
    let second = Environment::new(
        "a".to_owned(),
        None,
        FsPath::new("/base"),
        EnvironmentPolicy::default(),
        Vec::new(),
    );
    assert_ne!(first.id.bytes, second.id.bytes);
    assert_eq!(first.id.bytes[6] / 16, 4);
    assert_eq!(first.id.bytes[8] / 64, 2);
    assert_eq!(first.version, 1);
    assert_eq!(first.base_root.display(), "/base");
    assert!(first.created_at == first.updated_at);
    let ignored: Vec<String> = first.ignored_paths.iter().map(|p| p.display()).collect();
    assert_eq!(ignored, ["proc", "sys", "dev", "run", "tmp"]);
}

#[test]
fn backups_lie_outside_the_directory_of_an_environment() {
    let store = Store::new(FsPath::new("/state"));
    let environment = store.environment_dir("transactions");
    let transaction = store.transaction_dir("apply-20240102-030405-0a1b2c3d");
    let backup = store.backup_dir("apply-20240102-030405-0a1b2c3d");
    assert!(backup.starts_with(&transaction));
    assert!(!backup.starts_with(&environment));
    assert!(!transaction.starts_with(&environment));
    assert!(!environment.starts_with(&transaction));
}

#[test]
fn paths_keep_their_bytes() {
    let text = |bytes: &[u8]| FsPath::from_bytes(&bytes.to_vec()).display();
    assert_eq!(text(b"etc/proxy.conf"), "etc/proxy.conf");
    assert_eq!(text("etc/caf\u{e9}".as_bytes()), "etc/caf\u{e9}");
    assert_eq!(text(b"etc/caf\xe9"), "etc/caf\u{10ffff}\u{e9}");
    for bytes in [
        b"".to_vec(),
        b"etc/proxy.conf".to_vec(),
        "etc/caf\u{e9}".as_bytes().to_vec(),
        b"etc/caf\xe9".to_vec(),
        b"\xff\x80/\xc3\xa9".to_vec(),
        "a\u{10ffff}b".as_bytes().to_vec(),
    ] {
        assert_eq!(FsPath::from_bytes(&bytes).bytes(), bytes);
    }
    let joined = FsPath::new("/caf\u{e9}").join(&text(b"x\xe9"));
    assert_eq!(joined.bytes(), b"/caf\xc3\xa9/x\xe9".to_vec());
}
