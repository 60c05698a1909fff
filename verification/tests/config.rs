use scg_core::config::{
    bind_address, database_name, read_count, EnvConfig, FileConfig, NodeConfig,
};
use scg_core::RealmId;
use std::path::PathBuf;

fn no_env() -> EnvConfig {
    EnvConfig {
        bind: None,
        data_dir: None,
        realm: None,
        event_retention: None,
        snapshot_retention: None,
    }
}

fn no_file() -> FileConfig {
    FileConfig {
        bind: None,
        data_dir: None,
        realm: None,
        event_retention: None,
        snapshot_retention: None,
    }
}

#[test]
fn defaults_hold_where_nothing_is_set() {
    assert_eq!(bind_address(&no_env(), &no_file()), "127.0.0.1:8080");
    let config = NodeConfig::load(no_env(), no_file()).unwrap();
    assert_eq!(config.bind, "127.0.0.1:8080");
    assert_eq!(config.database_path, PathBuf::from("./var/scg/live.db"));
    assert_eq!(config.realm, RealmId::Live);
    assert_eq!(config.event_retention, 1000);
    assert_eq!(config.snapshot_retention, 20);
}

#[test]
fn the_file_goes_before_the_defaults() {
    let file = FileConfig {
        bind: Some("0.0.0.0:1".to_owned()),
        data_dir: Some(PathBuf::from("file")),
        realm: Some("lab:file".to_owned()),
        event_retention: Some(5),
        snapshot_retention: Some(0),
    };
    let config = NodeConfig::load(no_env(), file).unwrap();
    assert_eq!(config.bind, "0.0.0.0:1");
    assert_eq!(config.database_path, PathBuf::from("file/lab-file.db"));
    assert_eq!(config.realm, RealmId::Lab("file".to_owned()));
    assert_eq!(config.event_retention, 5);
    assert_eq!(config.snapshot_retention, 1);
}

#[test]
fn the_environment_goes_before_the_file() {
    let env = EnvConfig {
        bind: Some("[::1]:2".to_owned()),
        data_dir: Some(PathBuf::from("/env")),
        realm: Some("live".to_owned()),
        event_retention: Some("7".to_owned()),
        snapshot_retention: Some("seven".to_owned()),
    };
    let file = FileConfig {
        bind: Some("0.0.0.0:1".to_owned()),
        data_dir: Some(PathBuf::from("file")),
        realm: Some("lab:file".to_owned()),
        event_retention: Some(5),
        snapshot_retention: Some(6),
    };
    assert_eq!(bind_address(&env, &file), "[::1]:2");
    let config = NodeConfig::load(env, file).unwrap();
    assert_eq!(config.bind, "[::1]:2");
    assert_eq!(config.database_path, PathBuf::from("/env/live.db"));
    assert_eq!(config.realm, RealmId::Live);
    assert_eq!(config.event_retention, 7);
    assert_eq!(config.snapshot_retention, 6);
}

#[test]
fn a_realm_without_a_name_is_refused() {
    let env = EnvConfig { realm: Some("prod".to_owned()), ..no_env() };
    assert_eq!(
        NodeConfig::load(env, no_file()).unwrap_err().to_string(),
        "invalid realm: use 'live' or 'lab:<identifier>'"
    );
}

#[test]
fn counts_are_read_as_std_reads_them() {
    let texts = [
        "", "+", "-", "0", "-0", "+0", "7", "+7", "007", "1_000", " 1", "1 ", "12a", "\u{661}",
        "18446744073709551615", "18446744073709551616", "184467440737095516150", "99999999999999999999999",
        "++1", "000000000000000000000000000001",
    ];
    for text in texts {
        assert_eq!(read_count(text), text.parse::<usize>().ok(), "{}", text);
    }
}

#[test]
fn realms_have_their_own_files() {
    assert_eq!(database_name(&RealmId::Live), "live.db");
    assert_eq!(database_name(&RealmId::Lab("live".to_owned())), "lab-live.db");
    assert_eq!(database_name(&RealmId::Lab("a-b".to_owned())), "lab-a-b.db");
}

#[test]
fn settings_are_copied_whole() {
    let config = NodeConfig::load(no_env(), no_file()).unwrap();
    let copy = config.clone();
    assert_eq!(copy.bind, config.bind);
    assert_eq!(copy.database_path, config.database_path);
    assert_eq!(copy.realm, config.realm);
    assert_eq!(copy.event_retention, config.event_retention);
    assert_eq!(copy.snapshot_retention, config.snapshot_retention);
}
