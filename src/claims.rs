//! Mapping of directory attributes onto OAuth2 claims, gated by the scopes
//! that a client requested.

use vstd::prelude::*;
use vstd::string::StringExecFns;
use crate::keymap::KeyMap;
use crate::text::{contains_str, copy_strings, str_eq};

verus! {

/// What a user lookup found: the entry's DN, its attributes with each value
/// list joined into one string, and the names of the user's groups.
pub struct UserRecord {
    pub dn: String,
    pub attrs: Vec<(String, String)>,
    pub groups: Vec<String>,
}

/// The model of a [`UserRecord`].
pub struct UserView {
    pub dn: Seq<char>,
    pub attrs: Seq<(Seq<char>, Seq<char>)>,
    pub groups: Seq<Seq<char>>,
}

impl View for UserRecord {
    type V = UserView;

    open spec fn view(&self) -> UserView {
        UserView {
            dn: self.dn@,
            attrs: self.attrs@.map_values(|p: (String, String)| (p.0@, p.1@)),
            groups: self.groups.deep_view(),
        }
    }
}

/// The value of a claim: one string, or a list of strings.
pub enum ClaimValue {
    Text(String),
    List(Vec<String>),
}

/// The model of a [`ClaimValue`].
pub enum ClaimView {
    Text(Seq<char>),
    List(Seq<Seq<char>>),
}

impl View for ClaimValue {
    type V = ClaimView;

    open spec fn view(&self) -> ClaimView {
        match self {
            ClaimValue::Text(s) => ClaimView::Text(s@),
            ClaimValue::List(v) => ClaimView::List(v.deep_view()),
        }
    }
}

/// The claims released to a client, by claim name.
pub type ClaimSet = KeyMap<ClaimValue>;

/// The name of the claim that lists the user's groups.
pub open spec fn groups_claim() -> Seq<char> {
    "groups"@
}

/// Whether the attribute `name` is released: it is a claim source, it maps
/// to a claim, that claim maps to a scope, and the client asked for that scope.
pub open spec fn released(
    name: Seq<char>,
    attrs_map: Map<Seq<char>, Seq<char>>,
    claims_map: Map<Seq<char>, Seq<char>>,
    scopes: Seq<Seq<char>>,
) -> bool {
    &&& name != "dn"@
    &&& name != "groups"@
    &&& attrs_map.contains_key(name)
    &&& claims_map.contains_key(attrs_map[name])
    &&& scopes.contains(claims_map[attrs_map[name]])
}

/// The claims for `attrs` and `groups`: the groups claim first, then each
/// released attribute in order under its claim name, a later one replacing
/// an earlier one with the same claim name.
pub open spec fn claims_of(
    attrs: Seq<(Seq<char>, Seq<char>)>,
    groups: Seq<Seq<char>>,
    attrs_map: Map<Seq<char>, Seq<char>>,
    claims_map: Map<Seq<char>, Seq<char>>,
    scopes: Seq<Seq<char>>,
) -> Map<Seq<char>, ClaimView>
    decreases attrs.len(),
{
    if attrs.len() == 0 {
        map![groups_claim() => ClaimView::List(groups)]
    } else {
        let prev = claims_of(attrs.drop_last(), groups, attrs_map, claims_map, scopes);
        let (name, value) = attrs.last();
        if released(name, attrs_map, claims_map, scopes) {
            prev.insert(attrs_map[name], ClaimView::Text(value))
        } else {
            prev
        }
    }
}

/// Builds the claims to release for `user`, given the attribute to claim
/// map, the claim to scope map and the scopes the client requested.
pub fn map_claims(
    user: &UserRecord,
    attrs_map: &KeyMap<String>,
    claims_map: &KeyMap<String>,
    scopes: &Vec<String>,
) -> (r: ClaimSet)
    ensures
        r@ == claims_of(user@.attrs, user@.groups, attrs_map@, claims_map@, scopes.deep_view()),
{
    let mut claims: ClaimSet = KeyMap::new();
    proof { reveal_strlit("groups"); }
    claims.insert(String::from_str("groups"), ClaimValue::List(copy_strings(&user.groups)));
    assert(claims@ =~= claims_of(
        user@.attrs.take(0), user@.groups, attrs_map@, claims_map@, scopes.deep_view()));
    let mut i: usize = 0;
    while i < user.attrs.len()
        invariant
            i <= user@.attrs.len(),
            user@.attrs.len() == user.attrs@.len(),
            claims@ == claims_of(
                user@.attrs.take(i as int), user@.groups, attrs_map@, claims_map@,
                scopes.deep_view()),
        decreases user.attrs@.len() - i,
    {
        let ghost prev = user@.attrs.take(i as int);
        assert(user@.attrs.take(i + 1).drop_last() == prev);
        assert(user@.attrs.take(i + 1).last() == user@.attrs[i as int]);
        let name = &user.attrs[i].0;
        let value = &user.attrs[i].1;
        proof { reveal_strlit("dn"); reveal_strlit("groups"); }
        if !str_eq(name.as_str(), "dn") && !str_eq(name.as_str(), "groups") {
            if let Some(claim) = attrs_map.get(name.as_str()) {
                if let Some(scope) = claims_map.get(claim.as_str()) {
                    if contains_str(scopes, scope.as_str()) {
                        claims.insert(claim.clone(), ClaimValue::Text(value.clone()));
                    }
                }
            }
        }
        i = i + 1;
    }
    assert(user@.attrs.take(i as int) == user@.attrs);
    claims
}

/// The groups claim is present in every claim set, whatever the scopes
/// requested.
pub proof fn lemma_groups_claim_present(
    attrs: Seq<(Seq<char>, Seq<char>)>,
    groups: Seq<Seq<char>>,
    attrs_map: Map<Seq<char>, Seq<char>>,
    claims_map: Map<Seq<char>, Seq<char>>,
    scopes: Seq<Seq<char>>,
)
    ensures
        claims_of(attrs, groups, attrs_map, claims_map, scopes).contains_key(groups_claim()),
    decreases attrs.len(),
{
    if attrs.len() > 0 {
        lemma_groups_claim_present(attrs.drop_last(), groups, attrs_map, claims_map, scopes);
    }
}

/// With no scope requested, the claim set holds the groups claim and
/// nothing else.
pub proof fn lemma_no_scopes_only_groups(
    attrs: Seq<(Seq<char>, Seq<char>)>,
    groups: Seq<Seq<char>>,
    attrs_map: Map<Seq<char>, Seq<char>>,
    claims_map: Map<Seq<char>, Seq<char>>,
)
    ensures
        claims_of(attrs, groups, attrs_map, claims_map, Seq::empty()) == map![
            groups_claim() => ClaimView::List(groups)
        ],
    decreases attrs.len(),
{
    if attrs.len() > 0 {
        lemma_no_scopes_only_groups(attrs.drop_last(), groups, attrs_map, claims_map);
    }
}

} // verus!
