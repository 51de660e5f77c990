//! The decisions of the login, consent and logout flows. The calls to the
//! authorization server's admin API are made by the caller, between the
//! steps given here.

use vstd::prelude::*;
use vstd::string::StrSliceExecFns;
use vstd::string::StringExecFns;
use crate::claims::{map_claims, ClaimSet, UserRecord, claims_of};
use crate::directory::{Error, LDAP};
use crate::keymap::{KeyMap, keys_of, lemma_bound_iff_inserted};
use crate::text::str_eq;

verus! {

/// The settings of the OAuth2 side.
pub struct OauthOpts {
    /// How long, in seconds, a login is remembered; 0 for the browser
    /// session.
    pub login_remember_for: u64,
    /// Directory attribute name to claim name.
    pub attrs_map: KeyMap<String>,
    /// Claim name to the scope that releases it.
    pub claims_map: KeyMap<String>,
}

/// How a request is answered.
pub enum Response {
    /// The challenge is missing.
    NotFound,
    /// A remote or directory failure.
    InternalError,
    /// The login form, with an error message or none.
    LoginForm(Option<String>),
    /// A redirection to the given address.
    Redirect(String),
}

/// What to send to accept a login request.
pub struct LoginAcceptance {
    pub subject: String,
    pub remember: Option<bool>,
    pub remember_for: Option<u64>,
}

/// The next step of the login flow once the login request is known.
pub enum LoginStep {
    /// Accept the request at once; the stored context is forwarded as is.
    Accept(LoginAcceptance),
    /// Answer the request.
    Respond(Response),
}

/// The message shown for any credential failure, whatever its cause.
pub open spec fn invalid_login_message() -> Seq<char> {
    "Invalid login or password."@
}

/// The name of the attribute that identifies an entry for good.
pub open spec fn unique_id_attr() -> Seq<char> {
    "entryUUID"@
}

/// The value of the attribute `name`, the last one where it occurs twice.
pub open spec fn attr_value(attrs: Seq<(Seq<char>, Seq<char>)>, name: Seq<char>) -> Option<
    Seq<char>,
>
    decreases attrs.len(),
{
    if attrs.len() == 0 {
        None
    } else if attrs.last().0 == name {
        Some(attrs.last().1)
    } else {
        attr_value(attrs.drop_last(), name)
    }
}

/// The subject a login is accepted for: the entry's unique id, or the login
/// where the entry has none.
pub open spec fn subject_of(attrs: Seq<(Seq<char>, Seq<char>)>, login: Seq<char>) -> Seq<char> {
    match attr_value(attrs, unique_id_attr()) {
        Some(v) => v,
        None => login,
    }
}

/// A request without a challenge is not found; with one it goes on.
pub fn check_challenge(challenge: &str) -> (r: Option<Response>)
    ensures
        challenge@.len() == 0 ==> r matches Some(Response::NotFound),
        challenge@.len() > 0 ==> r is None,
{
    if challenge.unicode_len() == 0 {
        Some(Response::NotFound)
    } else {
        None
    }
}

/// The answer once the admin API has been called: a redirection to where
/// it sends the user, or an internal error when the call failed.
pub fn remote_outcome(redirect_to: Option<String>) -> (r: Response)
    ensures
        match redirect_to {
            Some(url) => r == Response::Redirect(url),
            None => r matches Response::InternalError,
        },
{
    match redirect_to {
        Some(url) => Response::Redirect(url),
        None => Response::InternalError,
    }
}

/// The step after the login request was fetched: a request that may skip
/// the login is accepted at once for the subject it already has, without
/// asking for credentials; any other gets the login form.
pub fn on_login_request(skip: bool, subject: &str) -> (r: LoginStep)
    ensures
        skip ==> (r matches LoginStep::Accept(a) && a.subject@ == subject@ && a.remember is None
            && a.remember_for is None),
        !skip ==> r matches LoginStep::Respond(Response::LoginForm(None)),
{
    if skip {
        LoginStep::Accept(
            LoginAcceptance { subject: String::from_str(subject), remember: None, remember_for: None },
        )
    } else {
        LoginStep::Respond(Response::LoginForm(None))
    }
}

/// The login form again, with the one message for any credential failure.
fn invalid_login() -> (r: Response)
    ensures
        r matches Response::LoginForm(Some(m)) && m@ == invalid_login_message(),
{
    Response::LoginForm(Some(String::from_str("Invalid login or password.")))
}

/// How a failed user lookup is answered: a user that cannot be found, or
/// cannot be told apart from another, gets the same answer as a wrong
/// password; a directory failure is an internal error.
pub fn lookup_failure(e: &Error) -> (r: Response)
    ensures
        match e {
            Error::UserNotFound(_) | Error::AmbiguousUser(_) | Error::InvalidCredentials => r matches Response::LoginForm(Some(m))
                && m@ == invalid_login_message(),
            _ => r matches Response::InternalError,
        },
{
    match e {
        Error::UserNotFound(_) | Error::AmbiguousUser(_) | Error::InvalidCredentials => invalid_login(),
        _ => Response::InternalError,
    }
}

/// How a credential check is answered: valid credentials go on, wrong ones
/// get the login form again, and a directory failure is an internal error.
pub fn credentials_outcome(valid: &Result<bool, Error>) -> (r: Option<Response>)
    ensures
        match valid {
            Ok(true) => r is None,
            Ok(false) => r matches Some(Response::LoginForm(Some(m))) && m@ == invalid_login_message(),
            Err(_) => r matches Some(Response::InternalError),
        },
{
    match valid {
        Ok(true) => None,
        Ok(false) => Some(invalid_login()),
        Err(_) => Some(Response::InternalError),
    }
}

/// The subject to accept a login for: the user's unique id if the entry
/// has one, else the login.
pub fn login_subject(user: &UserRecord, login: &str) -> (r: String)
    ensures
        r@ == subject_of(user@.attrs, login@),
{
    let ghost attrs = user@.attrs;
    let mut i: usize = user.attrs.len();
    proof { reveal_strlit("entryUUID"); }
    assert(attrs.take(i as int) == attrs);
    while i > 0
        invariant
            i <= attrs.len(),
            attrs == user@.attrs,
            attrs.len() == user.attrs@.len(),
            attr_value(attrs, unique_id_attr()) == attr_value(attrs.take(i as int), unique_id_attr()),
        decreases i,
    {
        assert(attrs.take(i as int).drop_last() == attrs.take(i - 1));
        assert(attrs[i - 1] == (user.attrs@[i - 1].0@, user.attrs@[i - 1].1@));
        if str_eq(user.attrs[i - 1].0.as_str(), "entryUUID") {
            return user.attrs[i - 1].1.clone();
        }
        i = i - 1;
    }
    assert(attrs.take(0).len() == 0);
    String::from_str(login)
}

/// The attributes to ask the directory for: every mapped attribute, and
/// `+` for the operational ones, among them the unique id.
pub fn search_attributes(opts: &OauthOpts) -> (r: Vec<String>)
    ensures
        forall|k: Seq<char>| #[trigger] opts.attrs_map@.contains_key(k) ==> r.deep_view().contains(k),
        r.deep_view().contains("+"@),
        forall|i: int| 0 <= i < r@.len() ==> opts.attrs_map@.contains_key(#[trigger] r.deep_view()[i])
            || r.deep_view()[i] == "+"@,
{
    let entries = opts.attrs_map.entries();
    let ghost keys = keys_of(opts.attrs_map.insertions());
    let mut r: Vec<String> = Vec::new();
    let mut i: usize = 0;
    while i < entries.len()
        invariant
            i <= entries@.len(),
            entries@ == opts.attrs_map.insertions(),
            keys == keys_of(entries@),
            r.deep_view() == keys.take(i as int),
        decreases entries@.len() - i,
    {
        let ghost before = r.deep_view();
        r.push(entries[i].0.clone());
        assert(r.deep_view() =~= before.push(entries@[i as int].0@));
        assert(keys.take(i + 1) =~= keys.take(i as int).push(keys[i as int]));
        i = i + 1;
    }
    assert(keys.take(i as int) == keys);
    let ghost before = r.deep_view();
    r.push(String::from_str("+"));
    assert(r.deep_view() =~= before.push("+"@));
    proof {
        assert(r.deep_view()[before.len() as int] == "+"@);
        assert forall|k: Seq<char>| #[trigger] opts.attrs_map@.contains_key(k) implies r.deep_view().contains(k) by {
            lemma_bound_iff_inserted(&opts.attrs_map, k);
            let j = choose|j: int| 0 <= j < keys.len() && keys[j] == k;
            assert(r.deep_view()[j] == before[j]);
            assert(r.deep_view()[j] == k);
        }
        assert forall|i: int| 0 <= i < r@.len() implies opts.attrs_map@.contains_key(#[trigger] r.deep_view()[i])
            || r.deep_view()[i] == "+"@ by {
            if i < keys.len() {
                lemma_bound_iff_inserted(&opts.attrs_map, keys[i]);
                assert(r.deep_view()[i] == keys[i]);
            }
        }
    }
    r
}

/// Checks a submitted login and password against the directory. On
/// success the user's record, and the acceptance to send: for the user's
/// unique id, remembered as the form asked and for as long as configured.
/// A failure is answered as [`lookup_failure`] and [`credentials_outcome`]
/// say.
pub fn submit_login(
    ldap: &LDAP,
    opts: &OauthOpts,
    login: &str,
    password: &str,
    remember: Option<bool>,
) -> (r: Result<(UserRecord, LoginAcceptance), Response>)
    ensures
        match r {
            Ok((user, acc)) => acc.subject@ == subject_of(user@.attrs, login@) && acc.remember
                == remember && acc.remember_for == Some(opts.login_remember_for),
            Err(resp) => (resp matches Response::LoginForm(Some(m)) && m@
                == invalid_login_message()) || resp matches Response::InternalError,
        },
{
    let user = match ldap.get_user_attrs(login, search_attributes(opts)) {
        Ok(u) => u,
        Err(e) => return Err(lookup_failure(&e)),
    };
    let valid = ldap.validate_credentials(user.dn.as_str(), password);
    match credentials_outcome(&valid) {
        Some(resp) => return Err(resp),
        None => {},
    }
    let subject = login_subject(&user, login);
    Ok((user, LoginAcceptance { subject, remember, remember_for: Some(opts.login_remember_for) }))
}

/// What to send to accept a consent request: the claims to release, and
/// how long to remember the consent.
pub struct ConsentAcceptance {
    pub claims: ClaimSet,
    pub remember: Option<bool>,
    pub remember_for: Option<u64>,
}

/// The acceptance of a consent request, from the user record that the login
/// step stored: the mapped claims, with the consent remembered for good (a
/// duration of 0). Without a stored record the request cannot be answered.
pub fn consent_acceptance(user: Option<&UserRecord>, opts: &OauthOpts, scopes: &Vec<String>) -> (r:
    Result<ConsentAcceptance, Response>)
    ensures
        match user {
            Some(u) => r matches Ok(acc) && acc.claims@ == claims_of(
                u@.attrs,
                u@.groups,
                opts.attrs_map@,
                opts.claims_map@,
                scopes.deep_view(),
            ) && acc.remember == Some(true) && acc.remember_for == Some(0u64),
            None => r matches Err(Response::InternalError),
        },
{
    match user {
        Some(u) => Ok(
            ConsentAcceptance {
                claims: map_claims(u, &opts.attrs_map, &opts.claims_map, scopes),
                remember: Some(true),
                remember_for: Some(0),
            },
        ),
        None => Err(Response::InternalError),
    }
}

} // verus!
