//! Directory sessions, user and group lookups, and credential checks.

use vstd::prelude::*;
use vstd::string::StringExecFns;
use vstd::string::StrSliceExecFns;
use ldap3::{LdapConn, LdapError, ResultEntry};
use ldap3::asn1::{StructureTag, PL};
use crate::claims::UserRecord;
use crate::entry::{entry_from_tag, BerTag};
use crate::filter::{render, replace_all, escaped};
use crate::text::str_eq;

verus! {

/// ldap3's synchronous connection; Verus sees nothing inside it.
#[verifier::external_type_specification]
#[verifier::external_body]
pub struct ExLdapConn(LdapConn);

/// ldap3's error for a failed connection or operation.
#[verifier::external_type_specification]
#[verifier::external_body]
pub struct ExLdapError(LdapError);

/// ldap3's raw search result entry, before it is parsed.
#[verifier::external_type_specification]
#[verifier::external_body]
pub struct ExResultEntry(ResultEntry);

/// lber's BER element, as ldap3 hands it on.
#[verifier::external_type_specification]
#[verifier::external_body]
pub struct ExStructureTag(StructureTag);

/// The result code by which a server refuses a bind for wrong credentials.
pub const INVALID_CREDENTIALS: u32 = 49;

/// Why a directory operation gave no answer.
pub enum Error {
    /// The connection or the protocol failed.
    LdapError(LdapError),
    /// A bind was refused with a result code other than for wrong
    /// credentials, or the service bind was refused.
    BindFailed(u32),
    /// No entry matched the login.
    UserNotFound(String),
    /// More than one entry matched the login, and that is refused.
    AmbiguousUser(String),
    /// The server refused the credentials.
    InvalidCredentials,
    /// The directory URL does not parse, or names no host.
    UrlWithoutHost,
    /// The directory sent an entry that is not well formed.
    MalformedEntry,
}

/// A directory entry as a search returns it.
pub struct DirEntry {
    pub dn: String,
    pub attrs: Vec<(String, Vec<String>)>,
}

/// The model of a [`DirEntry`].
pub struct DirEntryView {
    pub dn: Seq<char>,
    pub attrs: Seq<(Seq<char>, Seq<Seq<char>>)>,
}

impl View for DirEntry {
    type V = DirEntryView;

    open spec fn view(&self) -> DirEntryView {
        DirEntryView {
            dn: self.dn@,
            attrs: pairs_view(self.attrs@),
        }
    }
}

/// The model of a list of attributes with their values.
pub open spec fn pairs_view(s: Seq<(String, Vec<String>)>) -> Seq<(Seq<char>, Seq<Seq<char>>)> {
    s.map_values(|p: (String, Vec<String>)| (p.0@, p.1.deep_view()))
}

/// The host that a URL names, as the url crate parses it; none when the
/// text does not parse or names no host.
pub uninterp spec fn url_host(url: Seq<char>) -> Option<Seq<char>>;

/// Whether a URL names a host that is not empty.
pub open spec fn names_host(url: Seq<char>) -> bool {
    url_host(url) matches Some(h) && h.len() > 0
}

/// Relies on url::Url::parse and Url::host_str: the host that the URL
/// names, if it parses and names one.
#[verifier::external_body]
fn parsed_host(url: &str) -> (r: Option<String>)
    ensures
        match url_host(url@) {
            Some(h) => r matches Some(s) && s@ == h,
            None => r is None,
        },
{
    url::Url::parse(url).ok().and_then(|u| u.host_str().map(|h| h.to_string()))
}

/// Where the directory is and how to search it.
pub struct Opts {
    pub url: String,
    pub bind_dn: String,
    pub bind_pw: String,
    pub users_dn: String,
    pub users_filter: String,
    pub groups_dn: Option<String>,
    pub groups_filter: String,
    /// Refuse a login that matches more than one entry, rather than take
    /// the first.
    pub reject_ambiguous: bool,
}

/// A directory to authenticate users against.
#[allow(non_camel_case_types)]
pub struct LDAP {
    url: String,
    bind_dn: String,
    bind_pw: String,
    users_dn: String,
    users_filter: String,
    groups_dn: Option<String>,
    groups_filter: String,
    reject_ambiguous: bool,
}

/// Relies on ldap3::LdapConn::new: opens a connection to the server at `url`.
/// It parses the URL with Url::parse and panics on a URL without a host.
#[verifier::external_body]
fn connect(url: &str) -> (r: Result<LdapConn, LdapError>)
    requires
        names_host(url@),
{
    LdapConn::new(url)
}

/// Relies on ldap3::LdapConn::simple_bind: the result code of a simple bind.
#[verifier::external_body]
fn simple_bind(conn: &mut LdapConn, dn: &str, password: &str) -> (r: Result<u32, LdapError>) {
    conn.simple_bind(dn, password).map(|res| res.rc)
}

/// Relies on ldap3::LdapConn::search, over the subtree of `base`, with
/// SearchResult::success turning a result code other than success into an
/// error.
#[verifier::external_body]
fn search_entries(
    conn: &mut LdapConn,
    base: &str,
    filter: &str,
    attrs: &Vec<String>,
) -> (r: Result<Vec<ResultEntry>, LdapError>) {
    conn.search(base, ldap3::Scope::Subtree, filter, attrs.as_slice())
        .and_then(|res| res.success())
        .map(|(entries, _)| entries)
}

/// Relies on ldap3's ResultEntry, whose public first field is the entry's
/// BER element.
#[verifier::external_body]
fn entry_element(e: ResultEntry) -> (r: StructureTag) {
    e.0
}

/// Relies on lber's StructureTag and PL: copies a BER element, tag number
/// and payload, into a [`BerTag`], element by element.
#[verifier::external_body]
fn ber_of(t: StructureTag) -> (r: BerTag) {
    match t.payload {
        PL::P(bytes) => BerTag::Primitive { id: t.id, bytes },
        PL::C(children) => BerTag::Constructed {
            id: t.id,
            children: children.into_iter().map(ber_of).collect(),
        },
    }
}

/// The values of an attribute joined into one string, separated by commas.
pub open spec fn joined(vs: Seq<Seq<char>>) -> Seq<char>
    decreases vs.len(),
{
    if vs.len() == 0 {
        Seq::empty()
    } else if vs.len() == 1 {
        vs[0]
    } else {
        joined(vs.drop_last()) + seq![','] + vs.last()
    }
}

/// The attributes of an entry, each with its values joined.
pub open spec fn normalized(
    attrs: Seq<(Seq<char>, Seq<Seq<char>>)>,
) -> Seq<(Seq<char>, Seq<char>)> {
    attrs.map_values(|p: (Seq<char>, Seq<Seq<char>>)| (p.0, joined(p.1)))
}

/// The group names that one entry gives: the first value of each of its
/// `cn` attributes.
pub open spec fn cn_values(attrs: Seq<(Seq<char>, Seq<Seq<char>>)>) -> Seq<Seq<char>>
    decreases attrs.len(),
{
    if attrs.len() == 0 {
        Seq::empty()
    } else {
        let prev = cn_values(attrs.drop_last());
        let (name, values) = attrs.last();
        if name == "cn"@ && values.len() > 0 {
            prev.push(values[0])
        } else {
            prev
        }
    }
}

/// The group names that a list of group entries gives, entry by entry.
pub open spec fn group_names_of(entries: Seq<DirEntryView>) -> Seq<Seq<char>>
    decreases entries.len(),
{
    if entries.len() == 0 {
        Seq::empty()
    } else {
        group_names_of(entries.drop_last()) + cn_values(entries.last().attrs)
    }
}

/// Joins the values of a multi-valued attribute with commas.
pub fn join_values(values: &Vec<String>) -> (r: String)
    ensures
        r@ == joined(values.deep_view()),
{
    let mut out = String::new();
    let mut i: usize = 0;
    proof { reveal_strlit(","); }
    while i < values.len()
        invariant
            i <= values@.len(),
            out@ == joined(values.deep_view().take(i as int)),
        decreases values@.len() - i,
    {
        let ghost vs = values.deep_view();
        assert(vs.take(i + 1).drop_last() == vs.take(i as int));
        assert(vs[i as int] == values@[i as int]@);
        if i > 0 {
            out.append(",");
            proof { reveal_strlit(","); }
            assert(","@ =~= seq![',']);
        } else {
            assert(out@ + vs[0] =~= vs[0]);
        }
        out.append(values[i].as_str());
        i = i + 1;
    }
    assert(values.deep_view().take(i as int) == values.deep_view());
    out
}

/// The user record that a directory entry gives, with no groups yet.
pub fn normalize_entry(entry: &DirEntry) -> (r: UserRecord)
    ensures
        r@.dn == entry@.dn,
        r@.attrs == normalized(entry@.attrs),
        r@.groups.len() == 0,
{
    let mut attrs: Vec<(String, String)> = Vec::new();
    let mut i: usize = 0;
    while i < entry.attrs.len()
        invariant
            i <= entry.attrs@.len(),
            attrs@.len() == i,
            attrs@.map_values(|p: (String, String)| (p.0@, p.1@)) == normalized(
                entry@.attrs.take(i as int),
            ),
        decreases entry.attrs@.len() - i,
    {
        let name = entry.attrs[i].0.clone();
        let value = join_values(&entry.attrs[i].1);
        let ghost before = attrs@;
        assert(entry@.attrs[i as int] == (entry.attrs@[i as int].0@, entry.attrs@[
            i as int].1.deep_view()));
        assert(entry@.attrs.take(i + 1) =~= entry@.attrs.take(i as int).push(
            entry@.attrs[i as int],
        ));
        attrs.push((name, value));
        let ghost lhs = attrs@.map_values(|p: (String, String)| (p.0@, p.1@));
        let ghost rhs = normalized(entry@.attrs.take(i + 1));
        assert(lhs.len() == rhs.len());
        assert forall|j: int| 0 <= j < lhs.len() implies lhs[j] == rhs[j] by {
            if j < i {
                assert(attrs@[j] == before[j]);
                assert(before.map_values(|p: (String, String)| (p.0@, p.1@))[j] == lhs[j]);
                assert(normalized(entry@.attrs.take(i as int))[j] == rhs[j]);
            }
        }
        assert(attrs@.map_values(|p: (String, String)| (p.0@, p.1@)) =~= normalized(
            entry@.attrs.take(i + 1),
        ));
        i = i + 1;
    }
    assert(entry@.attrs.take(i as int) == entry@.attrs);
    UserRecord { dn: entry.dn.clone(), attrs, groups: Vec::new() }
}

/// The group names in a list of group entries: the first value of each
/// `cn` attribute, entry by entry.
pub fn group_names(entries: &Vec<DirEntry>) -> (r: Vec<String>)
    ensures
        r.deep_view() == group_names_of(entries@.map_values(|e: DirEntry| e@)),
{
    let ghost es = entries@.map_values(|e: DirEntry| e@);
    let mut names: Vec<String> = Vec::new();
    let mut i: usize = 0;
    proof { reveal_strlit("cn"); }
    while i < entries.len()
        invariant
            i <= entries@.len(),
            es == entries@.map_values(|e: DirEntry| e@),
            names.deep_view() == group_names_of(es.take(i as int)),
        decreases entries@.len() - i,
    {
        assert(es.take(i + 1).drop_last() == es.take(i as int));
        let entry = &entries[i];
        let ghost attrs = entry@.attrs;
        let ghost base = names.deep_view();
        let mut k: usize = 0;
        while k < entry.attrs.len()
            invariant
                k <= entry.attrs@.len(),
                attrs == entry@.attrs,
                names.deep_view() == base + cn_values(attrs.take(k as int)),
            decreases entry.attrs@.len() - k,
        {
            assert(attrs.take(k + 1).drop_last() == attrs.take(k as int));
            assert(attrs[k as int] == (entry.attrs@[k as int].0@, entry.attrs@[
                k as int].1.deep_view()));
            let values = &entry.attrs[k].1;
            if str_eq(entry.attrs[k].0.as_str(), "cn") && values.len() > 0 {
                let ghost before = names.deep_view();
                names.push(values[0].clone());
                assert(names.deep_view() =~= before.push(values@[0]@));
                assert(values.deep_view()[0] == values@[0]@);
            }
            k = k + 1;
        }
        assert(attrs.take(k as int) == attrs);
        i = i + 1;
    }
    assert(es.take(i as int) == es);
    names
}

/// The user record that a search for `login` gives: none when no entry
/// matched; none when several matched and `reject_ambiguous` is set; else
/// the first entry, normalized.
pub fn user_from_entries(login: &str, entries: Vec<DirEntry>, reject_ambiguous: bool) -> (r:
    Result<UserRecord, Error>)
    ensures
        entries@.len() == 0 ==> (r matches Err(Error::UserNotFound(l)) && l@ == login@),
        entries@.len() > 1 && reject_ambiguous ==> (r matches Err(Error::AmbiguousUser(l))
            && l@ == login@),
        entries@.len() == 1 || (entries@.len() > 1 && !reject_ambiguous) ==> (r matches Ok(u)
            && u@.dn == entries@[0]@.dn && u@.attrs == normalized(entries@[0]@.attrs)
            && u@.groups.len() == 0),
{
    if entries.len() == 0 {
        Err(Error::UserNotFound(String::from_str(login)))
    } else if entries.len() > 1 && reject_ambiguous {
        Err(Error::AmbiguousUser(String::from_str(login)))
    } else {
        Ok(normalize_entry(&entries[0]))
    }
}

/// What a bind's outcome means for a credential check: success is `true`,
/// wrong credentials are `false`, and anything else is an error.
pub fn validation_from_bind(bound: Result<u32, LdapError>) -> (r: Result<bool, Error>)
    ensures
        match bound {
            Ok(rc) => if rc == 0 {
                r == Ok::<bool, Error>(true)
            } else if rc == INVALID_CREDENTIALS {
                r == Ok::<bool, Error>(false)
            } else {
                r == Err::<bool, Error>(Error::BindFailed(rc))
            },
            Err(e) => r == Err::<bool, Error>(Error::LdapError(e)),
        },
{
    match bound {
        Ok(rc) => if rc == 0 {
            Ok(true)
        } else if rc == INVALID_CREDENTIALS {
            Ok(false)
        } else {
            Err(Error::BindFailed(rc))
        },
        Err(e) => Err(Error::LdapError(e)),
    }
}

/// What a bind's outcome means for a session: success opens it, wrong
/// credentials are `InvalidCredentials`, and anything else is an error.
pub fn session_from_bind(bound: Result<u32, LdapError>) -> (r: Result<(), Error>)
    ensures
        match bound {
            Ok(rc) => if rc == 0 {
                r is Ok
            } else if rc == INVALID_CREDENTIALS {
                r matches Err(Error::InvalidCredentials)
            } else {
                r == Err::<(), Error>(Error::BindFailed(rc))
            },
            Err(e) => r == Err::<(), Error>(Error::LdapError(e)),
        },
{
    match bound {
        Ok(rc) => if rc == 0 {
            Ok(())
        } else if rc == INVALID_CREDENTIALS {
            Err(Error::InvalidCredentials)
        } else {
            Err(Error::BindFailed(rc))
        },
        Err(e) => Err(Error::LdapError(e)),
    }
}

/// A subtree search to send: its base, its filter and the attributes to
/// return.
pub struct SearchRequest {
    pub base: String,
    pub filter: String,
    pub attrs: Vec<String>,
}

/// The model of an optional string.
pub open spec fn opt_view(o: Option<String>) -> Option<Seq<char>> {
    match o {
        Some(d) => Some(d@),
        None => None,
    }
}

impl LDAP {
    /// The URL of the directory.
    pub closed spec fn url(&self) -> Seq<char> {
        self.url@
    }

    /// The DN of the service identity.
    pub closed spec fn bind_dn(&self) -> Seq<char> {
        self.bind_dn@
    }

    /// The password of the service identity.
    pub closed spec fn bind_pw(&self) -> Seq<char> {
        self.bind_pw@
    }

    /// The base of the user search.
    pub closed spec fn users_dn(&self) -> Seq<char> {
        self.users_dn@
    }

    /// The configured user filter template.
    pub closed spec fn users_filter(&self) -> Seq<char> {
        self.users_filter@
    }

    /// The configured group search base, if any.
    pub closed spec fn groups_dn(&self) -> Option<Seq<char>> {
        opt_view(self.groups_dn)
    }

    /// The configured group filter template.
    pub closed spec fn groups_filter(&self) -> Seq<char> {
        self.groups_filter@
    }

    /// Whether a login matching several entries is refused.
    pub closed spec fn rejects_ambiguous(&self) -> bool {
        self.reject_ambiguous
    }

    /// A directory configured by `opts`.
    pub fn new(opts: Opts) -> (r: LDAP)
        ensures
            r.url() == opts.url@,
            r.bind_dn() == opts.bind_dn@,
            r.bind_pw() == opts.bind_pw@,
            r.users_dn() == opts.users_dn@,
            r.users_filter() == opts.users_filter@,
            r.groups_dn() == opt_view(opts.groups_dn),
            r.groups_filter() == opts.groups_filter@,
            r.rejects_ambiguous() == opts.reject_ambiguous,
    {
        LDAP {
            url: opts.url,
            bind_dn: opts.bind_dn,
            bind_pw: opts.bind_pw,
            users_dn: opts.users_dn,
            users_filter: opts.users_filter,
            groups_dn: opts.groups_dn,
            groups_filter: opts.groups_filter,
            reject_ambiguous: opts.reject_ambiguous,
        }
    }

    /// The filter that searches for the user `login`: the user filter
    /// template with `{login}` replaced by the escaped login.
    pub fn user_filter(&self, login: &str) -> (r: String)
        ensures
            r@ == replace_all(self.users_filter(), "{login}"@, escaped(login@)),
    {
        render(self.users_filter.as_str(), "{login}", login)
    }

    /// The filter that searches for the groups of `user_dn`: the group
    /// filter template with `{user_dn}` replaced by the escaped DN.
    pub fn group_filter(&self, user_dn: &str) -> (r: String)
        ensures
            r@ == replace_all(self.groups_filter(), "{user_dn}"@, escaped(user_dn@)),
    {
        render(self.groups_filter.as_str(), "{user_dn}", user_dn)
    }

    /// The search for the user `login`: under the user base, with
    /// [`LDAP::user_filter`], returning `attrs`.
    pub fn user_search(&self, login: &str, attrs: Vec<String>) -> (r: SearchRequest)
        ensures
            r.base@ == self.users_dn(),
            r.filter@ == replace_all(self.users_filter(), "{login}"@, escaped(login@)),
            r.attrs@ == attrs@,
    {
        SearchRequest {
            base: self.users_dn.clone(),
            filter: self.user_filter(login),
            attrs,
        }
    }

    /// The search for the groups of `user_dn`: under the group base, with
    /// [`LDAP::group_filter`], returning the group names only. There is
    /// none without a group base.
    pub fn group_search(&self, user_dn: &str) -> (r: Option<SearchRequest>)
        ensures
            match self.groups_dn() {
                None => r is None,
                Some(b) => r matches Some(q) && q.base@ == b && q.filter@ == replace_all(
                    self.groups_filter(),
                    "{user_dn}"@,
                    escaped(user_dn@),
                ) && q.attrs.deep_view() == seq!["cn"@],
            },
    {
        match &self.groups_dn {
            None => None,
            Some(base) => {
                let mut attrs: Vec<String> = Vec::new();
                attrs.push(String::from_str("cn"));
                assert(attrs.deep_view() =~= seq!["cn"@]);
                Some(SearchRequest { base: base.clone(), filter: self.group_filter(user_dn), attrs })
            },
        }
    }

    /// Opens a connection to the directory, once its URL is known to name
    /// a host.
    fn open(&self) -> (r: Result<LdapConn, Error>)
        ensures
            !names_host(self.url()) ==> r matches Err(Error::UrlWithoutHost),
            names_host(self.url()) ==> !(r matches Err(Error::UrlWithoutHost)),
            r is Ok || r matches Err(Error::LdapError(_)) || r matches Err(Error::UrlWithoutHost),
    {
        match parsed_host(self.url.as_str()) {
            Some(h) => {
                if h.as_str().unicode_len() == 0 {
                    return Err(Error::UrlWithoutHost);
                }
            },
            None => return Err(Error::UrlWithoutHost),
        }
        match connect(self.url.as_str()) {
            Ok(c) => Ok(c),
            Err(e) => Err(Error::LdapError(e)),
        }
    }

    /// Opens a session bound as `dn`. Wrong credentials are
    /// `InvalidCredentials`; a failed connection or another refusal is an
    /// error of its own.
    fn authenticate(&self, dn: &str, password: &str) -> (r: Result<LdapConn, Error>)
        ensures
            !names_host(self.url()) ==> r matches Err(Error::UrlWithoutHost),
            names_host(self.url()) ==> !(r matches Err(Error::UrlWithoutHost)),
            r is Ok || r matches Err(Error::LdapError(_)) || r matches Err(Error::UrlWithoutHost)
                || r matches Err(Error::InvalidCredentials) || (r matches Err(
                Error::BindFailed(rc),
            ) && rc != 0 && rc != INVALID_CREDENTIALS),
    {
        let mut conn = self.open()?;
        match session_from_bind(simple_bind(&mut conn, dn, password)) {
            Ok(()) => Ok(conn),
            Err(e) => Err(e),
        }
    }

    /// Opens a session bound as the service identity; a refusal of its
    /// credentials is an error like any other.
    fn service_session(&self) -> (r: Result<LdapConn, Error>)
        ensures
            !names_host(self.url()) ==> r matches Err(Error::UrlWithoutHost),
            names_host(self.url()) ==> !(r matches Err(Error::UrlWithoutHost)),
            r is Ok || r matches Err(Error::LdapError(_)) || r matches Err(Error::UrlWithoutHost)
                || (r matches Err(Error::BindFailed(rc)) && rc != 0),
    {
        match self.authenticate(self.bind_dn.as_str(), self.bind_pw.as_str()) {
            Ok(conn) => Ok(conn),
            Err(Error::InvalidCredentials) => Err(Error::BindFailed(INVALID_CREDENTIALS)),
            Err(e) => Err(e),
        }
    }

    /// Searches the subtree of `base` with `filter` on an open session; an
    /// entry that is not well formed makes the search fail.
    fn search(&self, conn: &mut LdapConn, req: &SearchRequest) -> (r: Result<Vec<DirEntry>, Error>)
        ensures
            r is Ok || r matches Err(Error::LdapError(_)) || r matches Err(Error::MalformedEntry),
    {
        let mut raw = match search_entries(
            conn,
            req.base.as_str(),
            req.filter.as_str(),
            &req.attrs,
        ) {
            Ok(v) => v,
            Err(e) => return Err(Error::LdapError(e)),
        };
        let mut entries: Vec<DirEntry> = Vec::new();
        while raw.len() > 0
            decreases raw@.len(),
        {
            let e = raw.remove(0);
            match entry_from_tag(&ber_of(entry_element(e))) {
                Some(d) => entries.push(d),
                None => return Err(Error::MalformedEntry),
            }
        }
        Ok(entries)
    }

    /// Checks a user's credentials: `false` when the server refuses them as
    /// wrong, an error when the server cannot be reached or answers
    /// otherwise.
    pub fn validate_credentials(&self, dn: &str, password: &str) -> (r: Result<bool, Error>)
        ensures
            !names_host(self.url()) ==> r matches Err(Error::UrlWithoutHost),
            names_host(self.url()) ==> !(r matches Err(Error::UrlWithoutHost)),
            r is Ok || r matches Err(Error::LdapError(_)) || r matches Err(Error::UrlWithoutHost)
                || (r matches Err(Error::BindFailed(rc)) && rc != 0 && rc != INVALID_CREDENTIALS),
    {
        Self::validate_on(self.open(), dn, password)
    }

    /// Checks credentials on the outcome of a connection attempt: when no
    /// connection was made the answer is that error, never `false`.
    pub fn validate_on(conn: Result<LdapConn, Error>, dn: &str, password: &str) -> (r: Result<
        bool,
        Error,
    >)
        ensures
            conn matches Err(e) ==> r == Err::<bool, Error>(e),
            conn is Ok ==> (r is Ok || r matches Err(Error::LdapError(_)) || (r matches Err(
                Error::BindFailed(rc),
            ) && rc != 0 && rc != INVALID_CREDENTIALS)),
    {
        match conn {
            Err(e) => Err(e),
            Ok(mut c) => validation_from_bind(simple_bind(&mut c, dn, password)),
        }
    }

    /// The names of the groups of the user `user_dn`, searched on an open
    /// session as [`LDAP::group_search`] gives. Without a group search base
    /// nothing is searched and the list is empty.
    pub fn get_user_groups(&self, conn: &mut LdapConn, user_dn: &str) -> (r: Result<
        Vec<String>,
        Error,
    >)
        ensures
            self.groups_dn() is None ==> (r matches Ok(g) && g@.len() == 0 && *final(conn)
                == *old(conn)),
            r is Ok || r matches Err(Error::LdapError(_)) || r matches Err(Error::MalformedEntry),
    {
        match self.group_search(user_dn) {
            None => Ok(Vec::new()),
            Some(req) => {
                let entries = self.search(conn, &req)?;
                Ok(group_names(&entries))
            },
        }
    }

    /// Looks up the user that `login` names, with the attributes `attrs`,
    /// and the groups the user belongs to. The search is the one that
    /// [`LDAP::user_search`] gives, so the login is escaped.
    pub fn get_user_attrs(&self, login: &str, attrs: Vec<String>) -> (r: Result<
        UserRecord,
        Error,
    >)
        ensures
            !names_host(self.url()) ==> r matches Err(Error::UrlWithoutHost),
            names_host(self.url()) ==> !(r matches Err(Error::UrlWithoutHost)),
            r matches Err(Error::UserNotFound(l)) ==> l@ == login@,
            r matches Err(Error::AmbiguousUser(l)) ==> l@ == login@ && self.rejects_ambiguous(),
            !(r matches Err(Error::InvalidCredentials)),
            self.groups_dn() is None ==> (r matches Ok(u) ==> u@.groups.len() == 0),
    {
        let req = self.user_search(login, attrs);
        let mut conn = self.service_session()?;
        let entries = self.search(&mut conn, &req)?;
        let mut user = user_from_entries(login, entries, self.reject_ambiguous)?;
        user.groups = self.get_user_groups(&mut conn, user.dn.as_str())?;
        Ok(user)
    }
}

} // verus!
