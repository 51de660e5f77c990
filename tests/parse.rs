use ldap_bridge::parse::{comma_separated_key_value, key_value, path};

#[test]
fn path_accepts_absolute() {
    assert_eq!(path("/auth"), Ok("/auth".to_string()));
}

#[test]
fn path_rejects_relative_and_empty() {
    assert_eq!(path("auth"), Err("path must start with `/`".to_string()));
    assert_eq!(path(""), Err("path must start with `/`".to_string()));
}

#[test]
fn file_reports_each_case() {
    assert_eq!(ldap_bridge::parse::file("cert.pem", true, true), Ok("cert.pem".to_string()));
    assert_eq!(
        ldap_bridge::parse::file("cert.pem", false, false),
        Err("no such file or directory: 'cert.pem'".to_string())
    );
    assert_eq!(ldap_bridge::parse::file("/etc", true, false), Err("not a file: /etc".to_string()));
}

#[test]
fn key_value_splits_at_first_colon() {
    assert_eq!(key_value("cn:name"), Ok(("cn".to_string(), "name".to_string())));
    assert_eq!(key_value("a:b:c"), Ok(("a".to_string(), "b:c".to_string())));
    assert_eq!(key_value(":x"), Ok(("".to_string(), "x".to_string())));
}

#[test]
fn key_value_rejects_missing_colon() {
    assert_eq!(key_value("cn"), Err("invalid key:val format in: cn".to_string()));
}

#[test]
fn comma_separated_builds_map() {
    let m = comma_separated_key_value("cn:name,sn:family_name,,mail:email").unwrap();
    assert_eq!(m.get("cn"), Some(&"name".to_string()));
    assert_eq!(m.get("sn"), Some(&"family_name".to_string()));
    assert_eq!(m.get("mail"), Some(&"email".to_string()));
    assert_eq!(m.get("uid"), None);
}

#[test]
fn comma_separated_later_key_wins() {
    let m = comma_separated_key_value("a:1,a:2").unwrap();
    assert_eq!(m.get("a"), Some(&"2".to_string()));
}

#[test]
fn comma_separated_empty_is_empty_map() {
    let m = comma_separated_key_value("").unwrap();
    assert_eq!(m.get(""), None);
    assert_eq!(m.entries().len(), 0);
}

#[test]
fn comma_separated_reports_first_bad_piece() {
    let r = comma_separated_key_value("a:1,bad,worse");
    assert!(matches!(r, Err(ref e) if e == "invalid key:val format in: bad"));
}
