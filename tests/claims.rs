use ldap_bridge::claims::{map_claims, ClaimValue, UserRecord};
use ldap_bridge::keymap::KeyMap;

fn table(pairs: &[(&str, &str)]) -> KeyMap<String> {
    let mut m = KeyMap::new();
    for (k, v) in pairs {
        m.insert(k.to_string(), v.to_string());
    }
    m
}

fn alice(groups: Vec<String>) -> UserRecord {
    UserRecord {
        dn: "uid=alice,ou=people,dc=x,dc=org".to_string(),
        attrs: vec![
            ("cn".to_string(), "Alice".to_string()),
            ("mail".to_string(), "alice@x.org".to_string()),
        ],
        groups,
    }
}

fn text(v: Option<&ClaimValue>) -> Option<String> {
    match v {
        Some(ClaimValue::Text(s)) => Some(s.clone()),
        _ => None,
    }
}

fn list(v: Option<&ClaimValue>) -> Option<Vec<String>> {
    match v {
        Some(ClaimValue::List(l)) => Some(l.clone()),
        _ => None,
    }
}

#[test]
fn map_claims_releases_only_requested_scopes() {
    let attrs_map = table(&[("cn", "name"), ("mail", "email")]);
    let claims_map = table(&[("name", "profile"), ("email", "email")]);
    let c = map_claims(&alice(vec![]), &attrs_map, &claims_map, &vec!["email".to_string()]);
    assert_eq!(list(c.get("groups")), Some(vec![]));
    assert_eq!(text(c.get("email")), Some("alice@x.org".to_string()));
    assert!(c.get("name").is_none());
    let mut keys: Vec<String> = c.entries().iter().map(|(k, _)| k.clone()).collect();
    keys.sort();
    keys.dedup();
    assert_eq!(keys, vec!["email".to_string(), "groups".to_string()]);
}

#[test]
fn map_claims_groups_without_scopes() {
    let attrs_map = table(&[("cn", "name"), ("mail", "email")]);
    let claims_map = table(&[("name", "profile"), ("email", "email")]);
    let groups = vec!["ops".to_string(), "dev".to_string()];
    let c = map_claims(&alice(groups.clone()), &attrs_map, &claims_map, &vec![]);
    assert_eq!(list(c.get("groups")), Some(groups));
    assert!(c.get("name").is_none());
    assert!(c.get("email").is_none());
}

#[test]
fn map_claims_skips_unmapped_and_unscoped() {
    let attrs_map = table(&[("cn", "name")]);
    let claims_map = table(&[]);
    let c = map_claims(&alice(vec![]), &attrs_map, &claims_map, &vec!["profile".to_string()]);
    assert!(c.get("name").is_none());
    assert!(c.get("mail").is_none());
}

#[test]
fn map_claims_later_attribute_wins() {
    let attrs_map = table(&[("cn", "name"), ("displayName", "name")]);
    let claims_map = table(&[("name", "profile")]);
    let mut user = alice(vec![]);
    user.attrs.push(("displayName".to_string(), "Al".to_string()));
    let c = map_claims(&user, &attrs_map, &claims_map, &vec!["profile".to_string()]);
    assert_eq!(text(c.get("name")), Some("Al".to_string()));
}

#[test]
fn map_claims_ignores_dn_attribute() {
    let attrs_map = table(&[("dn", "sub")]);
    let claims_map = table(&[("sub", "openid")]);
    let mut user = alice(vec![]);
    user.attrs.push(("dn".to_string(), "uid=alice".to_string()));
    let c = map_claims(&user, &attrs_map, &claims_map, &vec!["openid".to_string()]);
    assert!(c.get("sub").is_none());
}
