use sgroups::flatten::{
    apply_member_sentinel, flattened_delta, get_flattened_dns, pair_with_mright, todo_flattened,
    FlattenWorklist,
};
use sgroups::my_types::{Mright, MyMods, SubMods, UrlOpts};
use sgroups::str_set::StrSet;
use sgroups::ldap_wrapper::strip_empty_sentinel;

const GROUPS_DN: &str = "ou=groups,dc=nodomain";

fn group_dn(id: &str) -> String {
    format!("cn={},{}", id, GROUPS_DN)
}

fn people_dn(uid: &str) -> String {
    format!("uid={},ou=people,dc=nodomain", uid)
}

fn set_of(items: &[String]) -> StrSet {
    StrSet::from_vec(&items.to_vec())
}

fn sorted(v: &Vec<String>) -> Vec<String> {
    let mut v = v.clone();
    v.sort();
    v
}

#[test]
fn closure_of_plain_subjects_is_identity() {
    let direct = set_of(&[people_dn("a"), people_dn("b")]);
    let closure = get_flattened_dns(GROUPS_DN, &direct, &Vec::new()).expect("no groups inside");
    assert!(closure.set_eq(&direct));
}

#[test]
fn closure_adds_a_groups_members_to_the_direct_set() {
    // direct = {g, a}; g's flattened members = {b, c}: the closure keeps
    // every direct DN (so containers of g stay findable through it) and
    // pulls g's members in
    let direct = set_of(&[group_dn("g"), people_dn("a")]);
    let flats = vec![(group_dn("g"), set_of(&[people_dn("b"), people_dn("c")]))];
    let closure = get_flattened_dns(GROUPS_DN, &direct, &flats).expect("covered");
    let expected = set_of(&[group_dn("g"), people_dn("a"), people_dn("b"), people_dn("c")]);
    assert!(closure.set_eq(&expected));
}

#[test]
fn closure_needs_every_group_covered() {
    let direct = set_of(&[group_dn("g")]);
    assert!(get_flattened_dns(GROUPS_DN, &direct, &Vec::new()).is_none());
}

#[test]
fn empty_member_closure_stores_sentinel() {
    let empty = StrSet::new();
    let stored = apply_member_sentinel(empty, Mright::Member);
    assert_eq!(stored.len(), 1);
    assert!(stored.contains(""));

    let empty2 = StrSet::new();
    let other = apply_member_sentinel(empty2, Mright::Admin);
    assert!(other.is_empty());

    let nonempty = set_of(&[people_dn("a")]);
    let kept = apply_member_sentinel(nonempty, Mright::Member);
    assert_eq!(kept.len(), 1);
    assert!(kept.contains(&people_dn("a")));
}

#[test]
fn sentinel_reading_strips_back_to_empty() {
    let raw = vec!["".to_string()];
    assert!(strip_empty_sentinel(raw).is_empty());
    let plain = vec![people_dn("a")];
    assert_eq!(strip_empty_sentinel(plain.clone()), plain);
}

#[test]
fn delta_is_minimal_and_detects_noop() {
    let goal = set_of(&[people_dn("a"), people_dn("b")]);
    let current = set_of(&[people_dn("b"), people_dn("c")]);
    let (to_add, to_remove) = flattened_delta(&goal, &current);
    assert_eq!(sorted(to_add.elems()), vec![people_dn("a")]);
    assert_eq!(sorted(to_remove.elems()), vec![people_dn("c")]);

    let (na, nr) = flattened_delta(&goal, &goal);
    assert!(na.is_empty() && nr.is_empty());
}

#[test]
fn worklist_runs_newest_first() {
    let mut wl = FlattenWorklist::new(vec![
        ("a".to_string(), Mright::Member),
        ("b".to_string(), Mright::Admin),
    ]);
    assert_eq!(wl.len(), 2);
    wl.append_dependents(pair_with_mright(vec!["c".to_string()], Mright::Member));
    assert_eq!(wl.pop(), Some(("c".to_string(), Mright::Member)));
    assert_eq!(wl.pop(), Some(("b".to_string(), Mright::Admin)));
    assert_eq!(wl.pop(), Some(("a".to_string(), Mright::Member)));
    assert_eq!(wl.pop(), None);
}

#[test]
fn seed_jobs_per_touched_dimension() {
    let none = SubMods { add: Vec::new(), delete: Vec::new(), replace: None };
    let one = SubMods {
        add: vec![UrlOpts { url: "ldap:///uid=a,x".to_string(), enddate: None }],
        delete: Vec::new(),
        replace: None,
    };
    let m = MyMods {
        member: one,
        reader: none,
        updater: SubMods { add: Vec::new(), delete: Vec::new(), replace: None },
        admin: SubMods {
            add: Vec::new(),
            delete: vec![UrlOpts { url: "ldap:///uid=b,x".to_string(), enddate: None }],
            replace: None,
        },
    };
    let jobs = todo_flattened(false, "g", &m);
    assert_eq!(
        jobs,
        vec![("g".to_string(), Mright::Member), ("g".to_string(), Mright::Admin)]
    );
    assert!(todo_flattened(true, "g", &m).is_empty());
}
