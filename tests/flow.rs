use ldap_bridge::claims::{ClaimValue, UserRecord};
use ldap_bridge::flow::{consent_acceptance, OauthOpts};
use ldap_bridge::keymap::KeyMap;
use ldap_bridge::directory::Error;
use ldap_bridge::flow::{
    check_challenge, credentials_outcome, login_subject, lookup_failure, on_login_request,
    remote_outcome, LoginStep, Response,
};

fn user(attrs: Vec<(&str, &str)>) -> UserRecord {
    UserRecord {
        dn: "uid=alice".to_string(),
        attrs: attrs.into_iter().map(|(k, v)| (k.to_string(), v.to_string())).collect(),
        groups: vec![],
    }
}

#[test]
fn skipped_login_is_accepted_for_its_subject() {
    match on_login_request(true, "user-42") {
        LoginStep::Accept(a) => {
            assert_eq!(a.subject, "user-42");
            assert_eq!(a.remember, None);
            assert_eq!(a.remember_for, None);
        }
        LoginStep::Respond(_) => panic!("a skipped login must not show the form"),
    }
    assert!(matches!(on_login_request(false, "user-42"), LoginStep::Respond(Response::LoginForm(None))));
}

#[test]
fn empty_challenge_is_not_found() {
    assert!(matches!(check_challenge(""), Some(Response::NotFound)));
    assert!(check_challenge("abc").is_none());
}

#[test]
fn remote_outcome_redirects_or_fails() {
    assert!(matches!(remote_outcome(Some("https://x/cb".to_string())), Response::Redirect(ref u) if u == "https://x/cb"));
    assert!(matches!(remote_outcome(None), Response::InternalError));
}

#[test]
fn credential_failures_look_alike() {
    let msg = "Invalid login or password.";
    let nf = lookup_failure(&Error::UserNotFound("bob".to_string()));
    assert!(matches!(nf, Response::LoginForm(Some(ref m)) if m == msg));
    let wrong = credentials_outcome(&Ok(false));
    assert!(matches!(wrong, Some(Response::LoginForm(Some(ref m))) if m == msg));
    assert!(credentials_outcome(&Ok(true)).is_none());
    assert!(matches!(credentials_outcome(&Err(Error::BindFailed(80))), Some(Response::InternalError)));
    assert!(matches!(lookup_failure(&Error::BindFailed(49)), Response::InternalError));
}

#[test]
fn subject_is_unique_id_or_login() {
    assert_eq!(login_subject(&user(vec![("cn", "A"), ("entryUUID", "1234-ab")]), "alice"), "1234-ab");
    assert_eq!(login_subject(&user(vec![("cn", "A")]), "alice"), "alice");
}

#[test]
fn consent_is_remembered_for_good_with_mapped_claims() {
    let mut attrs_map = KeyMap::new();
    attrs_map.insert("mail".to_string(), "email".to_string());
    let mut claims_map = KeyMap::new();
    claims_map.insert("email".to_string(), "email".to_string());
    let opts = OauthOpts { login_remember_for: 0, attrs_map, claims_map };
    let u = user(vec![("mail", "alice@x.org")]);
    let acc = consent_acceptance(Some(&u), &opts, &vec!["email".to_string()]).ok().unwrap();
    assert_eq!(acc.remember, Some(true));
    assert_eq!(acc.remember_for, Some(0));
    assert!(matches!(acc.claims.get("email"), Some(ClaimValue::Text(ref m)) if m == "alice@x.org"));
    assert!(matches!(consent_acceptance(None, &opts, &vec![]), Err(Response::InternalError)));
}
