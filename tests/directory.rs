use ldap_bridge::directory::{
    group_names, join_values, normalize_entry, user_from_entries, validation_from_bind, DirEntry,
    Error, Opts, LDAP,
};

fn s(x: &str) -> String {
    x.to_string()
}

fn entry(dn: &str, attrs: &[(&str, &[&str])]) -> DirEntry {
    DirEntry {
        dn: s(dn),
        attrs: attrs.iter().map(|(k, vs)| (s(k), vs.iter().map(|v| s(v)).collect())).collect(),
    }
}

fn opts(url: &str) -> Opts {
    Opts {
        url: s(url),
        bind_dn: s("cn=admin,dc=x,dc=org"),
        bind_pw: s("secret"),
        users_dn: s("ou=people,dc=x,dc=org"),
        users_filter: s("(uid={login})"),
        groups_dn: None,
        groups_filter: s("(member={user_dn})"),
        reject_ambiguous: false,
    }
}

#[test]
fn multi_valued_attribute_is_joined() {
    assert_eq!(join_values(&vec![s("ops"), s("dev")]), "ops,dev");
    assert_eq!(join_values(&vec![s("ops")]), "ops");
    assert_eq!(join_values(&vec![]), "");
}

#[test]
fn normalize_entry_joins_each_attribute() {
    let u = normalize_entry(&entry("uid=a,dc=x", &[("memberOf", &["ops", "dev"]), ("cn", &["A"])]));
    assert_eq!(u.dn, "uid=a,dc=x");
    assert_eq!(u.attrs, vec![(s("memberOf"), s("ops,dev")), (s("cn"), s("A"))]);
    assert!(u.groups.is_empty());
}

#[test]
fn user_from_entries_not_found() {
    let r = user_from_entries("bob", vec![], false);
    assert!(matches!(r, Err(Error::UserNotFound(ref l)) if l == "bob"));
}

#[test]
fn user_from_entries_takes_first_or_rejects() {
    let two = || vec![entry("uid=a1", &[("cn", &["A1"])]), entry("uid=a2", &[("cn", &["A2"])])];
    let u = user_from_entries("a", two(), false).ok().unwrap();
    assert_eq!(u.dn, "uid=a1");
    let r = user_from_entries("a", two(), true);
    assert!(matches!(r, Err(Error::AmbiguousUser(ref l)) if l == "a"));
}

#[test]
fn group_names_takes_first_cn_of_each_entry() {
    let es = vec![
        entry("cn=ops,ou=groups", &[("cn", &["ops", "operations"])]),
        entry("cn=dev,ou=groups", &[("description", &["x"]), ("cn", &["dev"])]),
        entry("cn=none,ou=groups", &[("cn", &[])]),
    ];
    assert_eq!(group_names(&es), vec![s("ops"), s("dev")]);
}

#[test]
fn wrong_password_and_unknown_user_are_false() {
    // The server answers both with the invalid-credentials result code.
    assert!(matches!(validation_from_bind(Ok(49)), Ok(false)));
    assert!(matches!(validation_from_bind(Ok(0)), Ok(true)));
    assert!(matches!(validation_from_bind(Ok(50)), Err(Error::BindFailed(50))));
}

#[test]
fn unreachable_directory_is_an_error() {
    let ldap = LDAP::new(opts("ldap://127.0.0.1:1"));
    let r = ldap.validate_credentials("uid=alice,dc=x,dc=org", "pw");
    assert!(matches!(r, Err(Error::LdapError(_))));
}

#[test]
fn unreachable_directory_lookup_is_an_error() {
    let ldap = LDAP::new(opts("ldap://127.0.0.1:1"));
    let r = ldap.get_user_attrs("alice", vec![s("cn")]);
    assert!(matches!(r, Err(Error::LdapError(_))));
}

#[test]
fn url_without_host_is_refused_before_connecting() {
    for url in ["ldap:///", "ldap:x", "not a url"] {
        let ldap = LDAP::new(opts(url));
        assert!(matches!(ldap.validate_credentials("uid=a", "pw"), Err(Error::UrlWithoutHost)));
        assert!(matches!(ldap.get_user_attrs("a", vec![]), Err(Error::UrlWithoutHost)));
    }
}

#[test]
fn filters_escape_their_values() {
    let mut o = opts("ldap://127.0.0.1:1");
    o.users_filter = s("(|(uid={login})(mail={login}))");
    o.groups_filter = s("(member={user_dn})");
    let ldap = LDAP::new(o);
    assert_eq!(ldap.user_filter("*"), "(|(uid=\\2a)(mail=\\2a))");
    assert_eq!(ldap.user_filter("alice"), "(|(uid=alice)(mail=alice))");
    assert_eq!(ldap.group_filter("cn=a (x),dc=org"), "(member=cn=a \\28x\\29,dc=org)");
}

#[test]
fn search_requests_are_fully_built() {
    let mut o = opts("ldap://127.0.0.1:1");
    o.users_filter = s("(uid={login})");
    let ldap = LDAP::new(o);
    let q = ldap.user_search("a*", vec![s("cn"), s("+")]);
    assert_eq!(q.base, "ou=people,dc=x,dc=org");
    assert_eq!(q.filter, "(uid=a\\2a)");
    assert_eq!(q.attrs, vec![s("cn"), s("+")]);
    assert!(ldap.group_search("uid=a").is_none());

    let mut o = opts("ldap://127.0.0.1:1");
    o.groups_dn = Some(s("ou=groups,dc=x,dc=org"));
    let ldap = LDAP::new(o);
    let q = ldap.group_search("uid=a(b)").unwrap();
    assert_eq!(q.base, "ou=groups,dc=x,dc=org");
    assert_eq!(q.filter, "(member=uid=a\\28b\\29)");
    assert_eq!(q.attrs, vec![s("cn")]);
}
