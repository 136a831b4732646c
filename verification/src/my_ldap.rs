//! The mapping between node ids, distinguished names and membership URLs.
//! A node with id `x` is stored under `cn=x,<groups_dn>`; a direct
//! membership value is either the URL `ldap:///<dn>` of a subject or group,
//! or a remote query URL handled elsewhere.

use vstd::prelude::*;
use vstd::string::StrSliceExecFns;
use crate::my_types::{LdapConfig, Mright};
use crate::str_set::StrSet;
use crate::str_utils::{concat2, contains_char_from, ends_with_str, starts_with_str, substr};

verus! {

broadcast use vstd::string::group_string_axioms;

/// The DN behind a membership URL: the remainder after `ldap:///` when the
/// URL has that prefix and no query part, nothing otherwise.
pub open spec fn url_to_dn_spec(url: Seq<char>) -> Option<Seq<char>> {
    let p = "ldap:///"@;
    if p.is_prefix_of(url) && (forall|i: int| p.len() <= i < url.len() ==> url[i] != '?') {
        Some(url.subrange(p.len() as int, url.len() as int))
    } else {
        None
    }
}

/// The membership URL of a DN.
pub open spec fn dn_to_url_spec(dn: Seq<char>) -> Seq<char> {
    "ldap:///"@ + dn
}

/// The membership URL of a DN.
pub fn dn_to_url(dn: &str) -> (r: String)
    ensures
        r@ == dn_to_url_spec(dn@),
{
    concat2("ldap:///", dn)
}

/// The DN behind a membership URL, if it is a plain subject URL.
pub fn url_to_dn(url: &str) -> (r: Option<String>)
    ensures
        match r {
            Some(dn) => url_to_dn_spec(url@) == Some(dn@),
            None => url_to_dn_spec(url@) is None,
        },
{
    proof {
        reveal_strlit("ldap:///");
    }
    if !starts_with_str(url, "ldap:///") {
        return None;
    }
    if contains_char_from(url, '?', 8) {
        return None;
    }
    let n = url.unicode_len();
    Some(substr(url, 8, n))
}

/// The DN behind a membership URL, taking the URL by value.
pub fn url_to_dn_(url: String) -> (r: Option<String>)
    ensures
        match r {
            Some(dn) => url_to_dn_spec(url@) == Some(dn@),
            None => url_to_dn_spec(url@) is None,
        },
{
    url_to_dn(url.as_str())
}

/// Reading the DN back out of the URL it was wrapped into gives the DN
/// again, for any DN free of query characters.
pub proof fn lemma_url_dn_round_trip(dn: Seq<char>)
    requires
        forall|i: int| 0 <= i < dn.len() ==> dn[i] != '?',
    ensures
        url_to_dn_spec(dn_to_url_spec(dn)) == Some(dn),
{
    reveal_strlit("ldap:///");
    let p = "ldap:///"@;
    let url = p + dn;
    assert(url.subrange(0, p.len() as int) =~= p);
    assert(url.subrange(p.len() as int, url.len() as int) =~= dn);
}

/// The DN a node id is stored under.
pub open spec fn sgroup_dn_spec(id: Seq<char>, groups_dn: Seq<char>) -> Seq<char> {
    "cn="@ + id + ","@ + groups_dn
}

/// The node id stored under a DN, when the DN lies in the groups branch.
pub open spec fn dn_to_sgroup_id_spec(dn: Seq<char>, groups_dn: Seq<char>) -> Option<Seq<char>> {
    let p = "cn="@;
    let s = ","@ + groups_dn;
    if p.is_prefix_of(dn) && s.is_suffix_of(dn) && p.len() + s.len() <= dn.len() {
        Some(dn.subrange(p.len() as int, dn.len() - s.len()))
    } else {
        None
    }
}

/// A DN names an sgroup when it lies in the groups branch: it ends in a
/// comma followed by the groups DN.
pub open spec fn dn_is_sgroup_spec(dn: Seq<char>, groups_dn: Seq<char>) -> bool {
    (","@ + groups_dn).is_suffix_of(dn)
}

impl LdapConfig {
    /// The DN a node id is stored under.
    pub fn sgroup_id_to_dn(&self, id: &str) -> (r: String)
        ensures
            r@ == sgroup_dn_spec(id@, self.groups_dn@),
    {
        let r = concat2("cn=", id).concat(",").concat(self.groups_dn.as_str());
        proof {
            assert(r@ =~= sgroup_dn_spec(id@, self.groups_dn@));
        }
        r
    }

    /// The node id stored under a DN, when the DN lies in the groups
    /// branch.
    pub fn dn_to_sgroup_id(&self, dn: &str) -> (r: Option<String>)
        ensures
            match r {
                Some(id) => dn_to_sgroup_id_spec(dn@, self.groups_dn@) == Some(id@),
                None => dn_to_sgroup_id_spec(dn@, self.groups_dn@) is None,
            },
    {
        proof {
            reveal_strlit("cn=");
            reveal_strlit(",");
        }
        if !starts_with_str(dn, "cn=") {
            return None;
        }
        let suffix = concat2(",", self.groups_dn.as_str());
        if !ends_with_str(dn, suffix.as_str()) {
            return None;
        }
        let n = dn.unicode_len();
        let slen = suffix.unicode_len();
        if n < 3 || n - 3 < slen {
            return None;
        }
        Some(substr(dn, 3, n - slen))
    }

    /// Whether a DN lies in the groups branch, and so names an sgroup.
    pub fn dn_is_sgroup(&self, dn: &str) -> (r: bool)
        ensures
            r == dn_is_sgroup_spec(dn@, self.groups_dn@),
    {
        let suffix = concat2(",", self.groups_dn.as_str());
        ends_with_str(dn, suffix.as_str())
    }

    /// The store attribute holding the flattened DNs of `mright`.
    pub fn to_flattened_attr(&self, mright: Mright) -> (r: &String)
        ensures
            r@ == self.groups_flattened_attr.spec_attr(mright),
    {
        self.groups_flattened_attr.to_attr(mright)
    }
}

/// Wrapping an id into its DN and reading it back gives the id again.
pub proof fn lemma_id_dn_round_trip(id: Seq<char>, groups_dn: Seq<char>)
    ensures
        dn_to_sgroup_id_spec(sgroup_dn_spec(id, groups_dn), groups_dn) == Some(id),
{
    reveal_strlit("cn=");
    reveal_strlit(",");
    let p = "cn="@;
    let s = ","@ + groups_dn;
    let dn = sgroup_dn_spec(id, groups_dn);
    assert(dn =~= p + id + s);
    assert(dn.subrange(0, p.len() as int) =~= p);
    assert(dn.subrange(dn.len() - s.len(), dn.len() as int) =~= s);
    assert(dn.subrange(p.len() as int, dn.len() - s.len()) =~= id);
}

/// True when every URL of the list is a plain subject URL.
pub open spec fn urls_all_dns(urls: Seq<Seq<char>>) -> bool {
    forall|i: int| 0 <= i < urls.len() ==> url_to_dn_spec(#[trigger] urls[i]) is Some
}

/// The set of DNs behind a list of plain subject URLs.
pub open spec fn urls_dns_set(urls: Seq<Seq<char>>) -> Set<Seq<char>> {
    urls.map_values(|u: Seq<char>| url_to_dn_spec(u).unwrap()).to_set()
}

/// Resolves a list of direct URLs to the set of DNs they name, or nothing
/// when one of them is not a plain subject URL.
pub fn urls_to_dns(urls: &Vec<String>) -> (r: Option<StrSet>)
    ensures
        match r {
            Some(dns) => urls_all_dns(urls.deep_view()) && dns@ == urls_dns_set(
                urls.deep_view(),
            ),
            None => !urls_all_dns(urls.deep_view()),
        },
{
    let ghost dv = urls.deep_view();
    let mut dns = StrSet::new();
    let mut i: usize = 0;
    while i < urls.len()
        invariant
            i <= urls@.len(),
            dv == urls.deep_view(),
            forall|j: int| 0 <= j < i ==> url_to_dn_spec(#[trigger] dv[j]) is Some,
            forall|y: Seq<char>|
                dns@.contains(y) ==> exists|j: int|
                    0 <= j < i && url_to_dn_spec(#[trigger] dv[j]) == Some(y),
            forall|j: int|
                0 <= j < i ==> dns@.contains(url_to_dn_spec(#[trigger] dv[j]).unwrap()),
        decreases urls@.len() - i,
    {
        proof {
            assert(dv[i as int] == urls@[i as int]@);
        }
        match url_to_dn(urls[i].as_str()) {
            Some(dn) => {
                dns.insert(dn);
                proof {
                    assert(url_to_dn_spec(dv[i as int]) == Some(dn@));
                }
            },
            None => {
                proof {
                    assert(url_to_dn_spec(dv[i as int]) is None);
                }
                return None;
            },
        }
        i = i + 1;
    }
    proof {
        let m = dv.map_values(|u: Seq<char>| url_to_dn_spec(u).unwrap());
        assert forall|y: Seq<char>| dns@.contains(y) implies m.to_set().contains(y) by {
            let j = choose|j: int| 0 <= j < dv.len() && url_to_dn_spec(#[trigger] dv[j]) == Some(
                y,
            );
            assert(m[j] == y);
        }
        assert forall|y: Seq<char>| m.to_set().contains(y) implies dns@.contains(y) by {
            let j = choose|j: int| 0 <= j < m.len() && m[j] == y;
            assert(dns@.contains(url_to_dn_spec(dv[j]).unwrap()));
        }
        assert(dns@ =~= urls_dns_set(dv));
    }
    Some(dns)
}

} // verus!
