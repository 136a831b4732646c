use sgroups::api_post::{
    check_and_simplify_mods, check_and_simplify_mods_, check_mods, may_check_member_ttl,
    to_submods, from_submods, CurrentDirects,
};
use sgroups::my_types::{MyErr, MyMods, SubMods, UrlOpts};

fn uo(url: &str) -> UrlOpts {
    UrlOpts { url: url.to_string(), enddate: None }
}

fn uo_end(url: &str, enddate: &str) -> UrlOpts {
    UrlOpts { url: url.to_string(), enddate: Some(enddate.to_string()) }
}

fn none_submods() -> SubMods {
    SubMods { add: Vec::new(), delete: Vec::new(), replace: None }
}

fn empty_mods() -> MyMods {
    MyMods {
        member: none_submods(),
        reader: none_submods(),
        updater: none_submods(),
        admin: none_submods(),
    }
}

fn url_of(i: usize) -> String {
    format!("ldap:///uid=u{},ou=people,dc=nodomain", i)
}

fn urls_sorted(l: &[UrlOpts]) -> Vec<String> {
    let mut v: Vec<String> = l.iter().map(|u| u.url.clone()).collect();
    v.sort();
    v
}

#[test]
fn stems_reject_member_mods() {
    let mut m = empty_mods();
    m.member.add.push(uo("ldap:///uid=a,ou=people,dc=nodomain"));
    assert!(matches!(check_mods(true, &m), Err(MyErr::InvalidMods(_))));
    assert!(check_mods(false, &m).is_ok());
    let m2 = empty_mods();
    assert!(check_mods(true, &m2).is_ok());
}

#[test]
fn remote_url_only_as_single_member_replace() {
    let mut m = empty_mods();
    m.member.replace = Some(vec![uo("sql://remote?select uid from users")]);
    assert!(check_mods(false, &m).is_ok());

    let mut m2 = empty_mods();
    m2.member.add.push(uo("sql://remote?select uid from users"));
    assert!(matches!(check_mods(false, &m2), Err(MyErr::InvalidMods(_))));

    let mut m3 = empty_mods();
    m3.admin.replace = Some(vec![uo("sql://remote?select uid from users")]);
    assert!(matches!(check_mods(false, &m3), Err(MyErr::InvalidMods(_))));

    let mut m4 = empty_mods();
    m4.member.replace = Some(vec![
        uo("sql://remote?select uid from users"),
        uo("ldap:///uid=a,ou=people,dc=nodomain"),
    ]);
    assert!(matches!(check_mods(false, &m4), Err(MyErr::InvalidMods(_))));
}

#[test]
fn replace_collapse_exact_diff() {
    // current = {u1..u10}, replace with {u1..u9, u11}: one delete of u10,
    // one add of u11, and no replace reaches the store
    let current: Vec<String> = (1..=10).map(url_of).collect();
    let replace: Vec<UrlOpts> = (1..=9).map(|i| uo(&url_of(i))).chain([uo(&url_of(11))]).collect();
    let submods = to_submods(Vec::new(), Vec::new(), Some(replace));
    let r = check_and_simplify_mods_(submods, Some(&current));
    assert!(r.replace.is_none());
    assert_eq!(urls_sorted(&r.add), vec![url_of(11)]);
    assert_eq!(urls_sorted(&r.delete), vec![url_of(10)]);
}

#[test]
fn small_replace_passes_through() {
    let current: Vec<String> = (1..=10).map(url_of).collect();
    let replace: Vec<UrlOpts> = (1..=3).map(|i| uo(&url_of(i))).collect();
    let submods = to_submods(Vec::new(), Vec::new(), Some(replace));
    let r = check_and_simplify_mods_(submods, Some(&current));
    assert!(r.replace.is_some());
    assert_eq!(r.replace.as_ref().unwrap().len(), 3);
    assert!(r.add.is_empty() && r.delete.is_empty());
}

#[test]
fn unreadable_current_passes_through() {
    let replace: Vec<UrlOpts> = (1..=6).map(|i| uo(&url_of(i))).collect();
    let submods = to_submods(Vec::new(), Vec::new(), Some(replace));
    let r = check_and_simplify_mods_(submods, None);
    assert!(r.replace.is_some());
    assert_eq!(r.replace.as_ref().unwrap().len(), 6);
}

#[test]
fn second_identical_replace_collapses_to_nothing() {
    // after a Replace has landed, the identical Replace diffs to nothing:
    // the request short-circuits with zero direct writes
    let current: Vec<String> = (1..=6).map(url_of).collect();
    let replace: Vec<UrlOpts> = (1..=6).map(|i| uo(&url_of(i))).collect();
    let submods = to_submods(Vec::new(), Vec::new(), Some(replace));
    let r = check_and_simplify_mods_(submods, Some(&current));
    assert!(r.replace.is_none());
    assert!(r.add.is_empty());
    assert!(r.delete.is_empty());
    assert!(r.is_empty());
}

#[test]
fn simplify_whole_request() {
    let mut m = empty_mods();
    m.member.replace = Some((1..=6).map(|i| uo(&url_of(i))).collect());
    let currents = CurrentDirects {
        member: Some((1..=6).map(url_of).collect()),
        reader: None,
        updater: None,
        admin: None,
    };
    let simplified = check_and_simplify_mods(false, m, &currents).expect("valid mods");
    assert!(simplified.is_empty());
}

#[test]
fn from_to_submods_round() {
    let s = to_submods(vec![uo("ldap:///uid=a,x")], Vec::new(), None);
    let (add, delete, replace) = from_submods(s);
    assert_eq!(add.len(), 1);
    assert!(delete.is_empty());
    assert!(replace.is_none());
}

#[test]
fn ttl_rejects_enddate_beyond_bound() {
    // bound of 30 days, enddate 31 days out: rejected
    let now = chrono::Utc::now();
    let now_ms = now.timestamp_millis();
    let beyond = (now + chrono::Duration::days(31)).to_rfc3339();
    let within = (now + chrono::Duration::days(29)).to_rfc3339();
    let ttl = "30".to_string();

    let mut m = empty_mods();
    m.member.add.push(uo_end("ldap:///uid=a,ou=people,dc=nodomain", &beyond));
    assert!(matches!(
        may_check_member_ttl(Some(&ttl), &m, now_ms),
        Err(MyErr::InvalidMods(_))
    ));

    let mut m2 = empty_mods();
    m2.member.add.push(uo_end("ldap:///uid=a,ou=people,dc=nodomain", &within));
    assert!(may_check_member_ttl(Some(&ttl), &m2, now_ms).is_ok());
}

#[test]
fn ttl_requires_enddate_and_valid_bound() {
    let now_ms = chrono::Utc::now().timestamp_millis();
    let ttl = "30".to_string();
    let mut m = empty_mods();
    m.member.add.push(uo("ldap:///uid=a,ou=people,dc=nodomain"));
    assert!(matches!(
        may_check_member_ttl(Some(&ttl), &m, now_ms),
        Err(MyErr::InvalidMods(_))
    ));

    let bad_ttl = "thirty".to_string();
    assert!(matches!(
        may_check_member_ttl(Some(&bad_ttl), &m, now_ms),
        Err(MyErr::InvalidMods(_))
    ));

    // no bound configured: nothing to check
    assert!(may_check_member_ttl(None, &m, now_ms).is_ok());

    // deletions are exempt from the bound
    let mut m2 = empty_mods();
    m2.member.delete.push(uo("ldap:///uid=a,ou=people,dc=nodomain"));
    assert!(may_check_member_ttl(Some(&ttl), &m2, now_ms).is_ok());
}

#[test]
fn ttl_rejects_malformed_enddate() {
    let now_ms = chrono::Utc::now().timestamp_millis();
    let ttl = "30".to_string();
    let mut m = empty_mods();
    m.member.add.push(uo_end("ldap:///uid=a,ou=people,dc=nodomain", "tomorrow"));
    assert!(matches!(
        may_check_member_ttl(Some(&ttl), &m, now_ms),
        Err(MyErr::InvalidMods(_))
    ));
}
