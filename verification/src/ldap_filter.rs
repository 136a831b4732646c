//! Search filter builders. Literal values are escaped before they enter a
//! filter; the escaping itself is the store library's, specified here
//! character by character.

use vstd::prelude::*;
use crate::str_utils::{concat2, concat3};

verus! {

broadcast use vstd::string::group_string_axioms;

/// How one character appears inside a filter literal: parentheses, the
/// asterisk, the backslash and NUL become a backslash followed by two
/// lowercase hex digits; everything else is kept.
pub open spec fn escape_char(c: char) -> Seq<char> {
    if c == '\\' {
        seq!['\\', '5', 'c']
    } else if c == '*' {
        seq!['\\', '2', 'a']
    } else if c == '(' {
        seq!['\\', '2', '8']
    } else if c == ')' {
        seq!['\\', '2', '9']
    } else if c == '\u{0}' {
        seq!['\\', '0', '0']
    } else {
        seq![c]
    }
}

/// A string as it appears inside a filter literal.
pub open spec fn ldap_escaped(s: Seq<char>) -> Seq<char>
    decreases s.len(),
{
    if s.len() == 0 {
        seq![]
    } else {
        escape_char(s[0]) + ldap_escaped(s.drop_first())
    }
}

/// Relies on ldap3's `ldap_escape`: parentheses, the asterisk, the
/// backslash and NUL become backslash-hex escapes and every other
/// character is kept, so the result is `ldap_escaped` of the input.
#[verifier::external_body]
fn ldap_escape_str(s: &str) -> (r: String)
    ensures
        r@ == ldap_escaped(s@),
{
    ldap3::ldap_escape(s).into_owned()
}

/// The filter every entry matches.
pub fn true_() -> (r: &'static str)
    ensures
        r@ == "(objectClass=*)"@,
{
    "(objectClass=*)"
}

/// Matches the entries carrying the attribute.
pub fn presence(attr: &str) -> (r: String)
    ensures
        r@ == "("@ + attr@ + "=*)"@,
{
    concat3("(", attr, "=*)")
}

/// Matches the entries where the attribute holds the value.
pub fn eq(attr: &str, val: &str) -> (r: String)
    ensures
        r@ == "("@ + attr@ + "="@ + ldap_escaped(val@) + ")"@,
{
    let escaped = ldap_escape_str(val);
    let r = concat3("(", attr, "=").concat(escaped.as_str()).concat(")");
    proof {
        assert(r@ =~= "("@ + attr@ + "="@ + ldap_escaped(val@) + ")"@);
    }
    r
}

/// The negation of a filter.
pub fn _not(filter: &str) -> (r: String)
    ensures
        r@ == "(!"@ + filter@ + ")"@,
{
    concat3("(!", filter, ")")
}

/// The conjunction of two filters.
pub fn and2(filter1: &str, filter2: &str) -> (r: String)
    ensures
        r@ == "(&"@ + filter1@ + filter2@ + ")"@,
{
    let r = concat3("(&", filter1, filter2).concat(")");
    proof {
        assert(r@ =~= "(&"@ + filter1@ + filter2@ + ")"@);
    }
    r
}

/// The conjunction with an optional second filter: the first filter alone
/// when there is no second.
pub fn and2_if_some(filter1: &str, filter2: &Option<String>) -> (r: String)
    ensures
        match filter2 {
            Some(f2) => r@ == "(&"@ + filter1@ + f2@ + ")"@,
            None => r@ == filter1@,
        },
{
    match filter2 {
        Some(f2) => and2(filter1, f2.as_str()),
        None => filter1.to_owned(),
    }
}

/// The concatenation of a list of filters.
pub open spec fn concat_all(l: Seq<Seq<char>>) -> Seq<char>
    decreases l.len(),
{
    if l.len() == 0 {
        seq![]
    } else {
        l[0] + concat_all(l.drop_first())
    }
}

/// The disjunction of a list of filters; a single filter stands alone.
pub fn or(l: Vec<String>) -> (r: String)
    ensures
        l@.len() == 1 ==> r@ == l.deep_view()[0],
        l@.len() != 1 ==> r@ == "(|"@ + concat_all(l.deep_view()) + ")"@,
{
    let ghost dv = l.deep_view();
    if l.len() == 1 {
        return l[0].clone();
    }
    let mut acc = "(|".to_owned();
    let mut i: usize = 0;
    proof {
        assert(dv.skip(0) =~= dv);
        assert(acc@ + concat_all(dv.skip(0)) =~= "(|"@ + concat_all(dv));
    }
    while i < l.len()
        invariant
            i <= l@.len(),
            dv == l.deep_view(),
            acc@ + concat_all(dv.skip(i as int)) == "(|"@ + concat_all(dv),
        decreases l@.len() - i,
    {
        acc.append(l[i].as_str());
        proof {
            let rest = dv.skip(i as int);
            assert(rest.len() > 0 && rest[0] == dv[i as int]);
            assert(rest.drop_first() =~= dv.skip(i + 1));
            assert(acc@ + concat_all(dv.skip(i + 1)) =~= "(|"@ + concat_all(dv));
        }
        i = i + 1;
    }
    let r = acc.concat(")");
    proof {
        assert(concat_all(dv.skip(dv.len() as int)) =~= Seq::<char>::empty());
        assert(acc@ =~= "(|"@ + concat_all(dv));
        assert(r@ =~= "(|"@ + concat_all(dv) + ")"@);
    }
    r
}

/// Matches the entry with the given relative distinguished name.
pub fn rdn(rdn_: &str) -> (r: String)
    ensures
        r@ == "("@ + rdn_@ + ")"@,
{
    concat3("(", rdn_, ")")
}

/// Matches the groups whose member attribute holds the DN.
pub fn member(dn: &str) -> (r: String)
    ensures
        r@ == "(member="@ + ldap_escaped(dn@) + ")"@,
{
    let r = eq("member", dn);
    proof {
        reveal_strlit("(");
        reveal_strlit("member");
        reveal_strlit("=");
        reveal_strlit("(member=");
        assert(r@ =~= "(member="@ + ldap_escaped(dn@) + ")"@);
    }
    r
}

/// Matches a node and all its descendants: every cn beginning with the id.
pub fn sgroup_self_and_children(id: &str) -> (r: String)
    ensures
        r@ == "(cn="@ + ldap_escaped(id@) + "*)"@,
{
    let escaped = ldap_escape_str(id);
    let r = concat2("(cn=", escaped.as_str()).concat("*)");
    proof {
        assert(r@ =~= "(cn="@ + ldap_escaped(id@) + "*)"@);
    }
    r
}

/// Matches the descendants of a node, the node itself excluded; for the
/// root every node matches.
pub fn sgroup_children(id: &str) -> (r: String)
    ensures
        id@.len() == 0 ==> r@ == "(cn=*)"@,
        id@.len() > 0 ==> r@ == "(&(cn="@ + ldap_escaped(id@) + "*)(!(cn="@ + ldap_escaped(id@)
            + ")))"@,
{
    if id.is_empty() {
        return "(cn=*)".to_owned();
    }
    let escaped = ldap_escape_str(id);
    let r = concat2("(&(cn=", escaped.as_str()).concat("*)(!(cn=").concat(escaped.as_str())
        .concat(")))");
    proof {
        assert(r@ =~= "(&(cn="@ + ldap_escaped(id@) + "*)(!(cn="@ + ldap_escaped(id@) + ")))"@);
    }
    r
}

} // verus!
