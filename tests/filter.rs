use ldap_bridge::filter::{render, substitute};

#[test]
fn substitute_replaces_every_occurrence() {
    let r = substitute("(|(uid={login})(mail={login}))", "{login}", "alice");
    assert_eq!(r, "(|(uid=alice)(mail=alice))");
}

#[test]
fn substitute_keeps_template_without_placeholder() {
    let r = substitute("(objectClass=person)", "{login}", "alice");
    assert_eq!(r, "(objectClass=person)");
}

#[test]
fn substitute_does_not_rescan_replacement() {
    let r = substitute("a{x}b", "{x}", "{x}{x}");
    assert_eq!(r, "a{x}{x}b");
}

#[test]
fn substitute_with_empty_placeholder_keeps_template() {
    assert_eq!(substitute("abc", "", "x"), "abc");
}

#[test]
fn render_plain_login_is_unchanged() {
    let t = "(&(objectClass=inetOrgPerson)(|(uid={login})(mail={login})))";
    assert_eq!(render(t, "{login}", "alice"), substitute(t, "{login}", "alice"));
}

#[test]
fn render_escapes_filter_metacharacters() {
    let r = render("(uid={login})", "{login}", "*)(uid=*");
    assert_eq!(r, "(uid=\\2a\\29\\28uid=\\2a)");
    let r = render("(uid={login})", "{login}", "a\\b\0");
    assert_eq!(r, "(uid=a\\5cb\\00)");
}

#[test]
fn render_keeps_non_ascii_login() {
    assert_eq!(render("(cn={login})", "{login}", "Zoë"), "(cn=Zoë)");
}
