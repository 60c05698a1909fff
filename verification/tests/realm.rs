use scg_core::RealmId;

#[test]
fn accepts_live_and_sanitized_lab_realms() {
    assert_eq!(RealmId::from_str("live").unwrap(), RealmId::Live);
    assert_eq!(
        RealmId::from_str("lab:failure-injection").unwrap(),
        RealmId::Lab("failure-injection".to_owned())
    );
}

#[test]
fn rejects_path_like_lab_identifiers() {
    assert!(RealmId::from_str("lab:../live").is_err());
    assert!(RealmId::from_str("lab:MixedCase").is_err());
    assert!(RealmId::from_str("sandbox").is_err());
}

#[test]
fn realms_have_names_and_storage_keys() {
    let lab = RealmId::Lab("a-1".to_owned());
    assert_eq!(RealmId::Live.storage_key(), "live");
    assert_eq!(lab.storage_key(), "lab:a-1");
    assert_eq!(RealmId::Live.to_string(), "live");
    assert_eq!(lab.to_string(), "lab:a-1");
    assert!(RealmId::Live.is_live());
    assert!(!lab.is_live());
    assert_eq!(lab.clone(), lab);
}

#[test]
fn realm_names_read_back() {
    for name in ["live", "lab:a", "lab:0-9", "lab:-"] {
        assert_eq!(RealmId::from_str(name).unwrap().to_string(), name);
        assert_eq!(name.parse::<RealmId>().unwrap().to_string(), name);
    }
}

#[test]
fn lab_identifiers_have_1_to_32_characters() {
    let longest = format!("lab:{}", "x".repeat(32));
    assert_eq!(RealmId::from_str(&longest).unwrap(), RealmId::Lab("x".repeat(32)));
    let longer = format!("lab:{}", "x".repeat(33));
    for name in ["lab:", "lab:a b", "lab:\u{e9}", "lab:a:b", longer.as_str()] {
        assert_eq!(
            RealmId::from_str(name).unwrap_err().to_string(),
            "invalid realm: lab identifiers must contain 1-32 lowercase letters, digits, or hyphens"
        );
    }
    for name in ["", "Live", "live ", "lab", "la\u{e9}:x"] {
        assert_eq!(
            RealmId::from_str(name).unwrap_err().to_string(),
            "invalid realm: use 'live' or 'lab:<identifier>'"
        );
    }
}
