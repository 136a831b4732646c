use sgroups::ldap_filter::{
    and2, and2_if_some, eq, member, or, presence, rdn, sgroup_children, sgroup_self_and_children,
    true_, _not,
};
use sgroups::cas_auth::{between, parse_cas_response};
use sgroups::remote_query::{direct_members_to_remote_sql_query, parse_sql_url};
use sgroups::ldap_wrapper::{
    get_all_values, handle_read_one_search_result, handle_sizelimited_search, mono_attrs,
    mono_attrs_get, SearchEntry,
};
use sgroups::my_types::MyErr;
use sgroups::str_set::StrSet;
use sgroups::is_disjoint;

#[test]
fn filter_builders_produce_exact_strings() {
    assert_eq!(true_(), "(objectClass=*)");
    assert_eq!(presence("member"), "(member=*)");
    assert_eq!(eq("cn", "collab"), "(cn=collab)");
    assert_eq!(_not("(cn=a)"), "(!(cn=a))");
    assert_eq!(and2("(cn=a)", "(ou=b)"), "(&(cn=a)(ou=b))");
    assert_eq!(rdn("cn=a"), "(cn=a)");
    assert_eq!(member("cn=g,ou=groups,dc=nodomain"), "(member=cn=g,ou=groups,dc=nodomain)");
}

#[test]
fn filter_escaping_goes_through_the_store_library() {
    // the escaping is ldap3's: parentheses, asterisk, backslash become
    // backslash-hex; a wildcard handed in as a value cannot widen a filter
    assert_eq!(eq("cn", "a*b"), "(cn=a\\2ab)");
    assert_eq!(eq("cn", "a(b)"), "(cn=a\\28b\\29)");
    assert_eq!(eq("cn", "a\\b"), "(cn=a\\5cb)");
}

#[test]
fn or_of_one_is_itself() {
    assert_eq!(or(vec!["(cn=a)".to_string()]), "(cn=a)");
    assert_eq!(
        or(vec!["(cn=a)".to_string(), "(cn=b)".to_string()]),
        "(|(cn=a)(cn=b))"
    );
}

#[test]
fn and2_if_some_keeps_single_filter() {
    assert_eq!(and2_if_some("(cn=a)", &None), "(cn=a)");
    assert_eq!(and2_if_some("(cn=a)", &Some("(ou=b)".to_string())), "(&(cn=a)(ou=b))");
}

#[test]
fn children_filters() {
    assert_eq!(sgroup_self_and_children("a.b"), "(cn=a.b*)");
    assert_eq!(sgroup_children("a.b"), "(&(cn=a.b*)(!(cn=a.b)))");
    assert_eq!(sgroup_children(""), "(cn=*)");
}

#[test]
fn cas_response_parsing() {
    let ok_body = "<cas:serviceResponse><cas:authenticationSuccess><cas:user>prigaux</cas:user></cas:authenticationSuccess></cas:serviceResponse>";
    assert_eq!(parse_cas_response(ok_body), Some("prigaux".to_string()));
    let fail_body = "<cas:serviceResponse><cas:authenticationFailure code=\"INVALID_TICKET\"/></cas:serviceResponse>";
    assert_eq!(parse_cas_response(fail_body), None);
}

#[test]
fn between_picks_first_span() {
    assert_eq!(between("xx<a>v</a>", "<a>", "</"), Some("v".to_string()));
    assert_eq!(between("xx<a>v", "<a>", "</"), None);
    assert_eq!(between("xx", "<a>", "</"), None);
}

#[test]
fn sql_url_parsing_and_printing() {
    let rq = parse_sql_url("sql://mainremote?select uid from users").expect("parses");
    assert_eq!(rq.remote_cfg_name, "mainremote");
    assert_eq!(rq.select_query, "select uid from users");
    assert_eq!(rq.to_url(), "sql://mainremote?select uid from users");

    assert!(parse_sql_url("ldap:///uid=a").is_none());
    assert!(parse_sql_url("sql://noquery").is_none());
}

#[test]
fn remote_query_only_from_single_url() {
    let single = vec!["sql://r?select 1".to_string()];
    assert!(direct_members_to_remote_sql_query(&single).is_some());
    let two = vec!["sql://r?select 1".to_string(), "ldap:///uid=a,x".to_string()];
    assert!(direct_members_to_remote_sql_query(&two).is_none());
    let plain = vec!["ldap:///uid=a,x".to_string()];
    assert!(direct_members_to_remote_sql_query(&plain).is_none());
}

#[test]
fn entry_attribute_access() {
    let e = SearchEntry {
        dn: "cn=g,ou=groups,dc=nodomain".to_string(),
        attrs: vec![
            ("objectClass".to_string(), vec!["groupOfNames".to_string(), "top".to_string()]),
            ("member".to_string(), vec!["uid=a,x".to_string()]),
        ],
    };
    assert_eq!(
        e.get_attr_values("objectClass"),
        Some(&vec!["groupOfNames".to_string(), "top".to_string()])
    );
    assert_eq!(e.get_attr_values("owner"), None);
}

#[test]
fn all_values_flattened_in_order() {
    let attrs = vec![
        ("a".to_string(), vec!["1".to_string(), "2".to_string()]),
        ("b".to_string(), vec!["3".to_string()]),
    ];
    assert_eq!(get_all_values(attrs), vec!["1".to_string(), "2".to_string(), "3".to_string()]);
}

#[test]
fn mono_attrs_takes_first_values() {
    let attrs = vec![
        ("ou".to_string(), vec!["Collaboration".to_string(), "ignored".to_string()]),
        ("empty".to_string(), Vec::<String>::new()),
        ("description".to_string(), vec!["d".to_string()]),
    ];
    let m = mono_attrs(attrs);
    assert_eq!(
        m,
        vec![
            ("ou".to_string(), "Collaboration".to_string()),
            ("description".to_string(), "d".to_string()),
        ]
    );
    assert_eq!(mono_attrs_get(&m, "ou"), Some(&"Collaboration".to_string()));
    assert_eq!(mono_attrs_get(&m, "missing"), None);
}

#[test]
fn read_result_codes() {
    let entry = SearchEntry { dn: "cn=a,x".to_string(), attrs: Vec::new() };
    let r = handle_read_one_search_result(0, vec![entry]).expect("success");
    assert!(r.is_some());
    assert!(handle_read_one_search_result(0, Vec::new()).expect("success").is_none());
    assert!(handle_read_one_search_result(32, Vec::new()).expect("missing base").is_none());
    assert!(matches!(handle_read_one_search_result(49, Vec::new()), Err(MyErr::Store(49))));
}

#[test]
fn sizelimited_search_codes() {
    let entry = SearchEntry { dn: "cn=a,x".to_string(), attrs: Vec::new() };
    assert_eq!(handle_sizelimited_search(4, vec![entry]).expect("partial ok").len(), 1);
    assert!(handle_sizelimited_search(0, Vec::new()).is_ok());
    assert!(matches!(handle_sizelimited_search(1, Vec::new()), Err(MyErr::Store(1))));
}

#[test]
fn str_set_operations() {
    let a = StrSet::from_vec(&vec!["x".to_string(), "y".to_string(), "x".to_string()]);
    assert_eq!(a.len(), 2);
    let b = StrSet::from_vec(&vec!["y".to_string(), "z".to_string()]);
    let u = a.union(&b);
    assert_eq!(u.len(), 3);
    let d = a.difference(&b);
    assert_eq!(d.len(), 1);
    assert!(d.contains("x"));
    assert!(a.is_subset_of(&u));
    assert!(!u.is_subset_of(&a));
    assert!(a.set_eq(&a.duplicate()));
}

#[test]
fn disjointness_of_values() {
    let s = StrSet::from_vec(&vec!["b".to_string()]);
    assert!(!is_disjoint(&vec!["a".to_string(), "b".to_string()], &s));
    assert!(is_disjoint(&vec!["a".to_string(), "c".to_string()], &s));
}
