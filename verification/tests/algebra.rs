use sgroups::my_types::{Mright, MyErr, MyMods, Right, SubMods, UrlOpts};
use sgroups::api_post::my_mods_to_right;

fn uo(url: &str) -> UrlOpts {
    UrlOpts { url: url.to_string(), enddate: None }
}

fn submods_add(urls: &[&str]) -> SubMods {
    SubMods { add: urls.iter().map(|u| uo(u)).collect(), delete: Vec::new(), replace: None }
}

fn empty_mods() -> MyMods {
    MyMods {
        member: SubMods { add: Vec::new(), delete: Vec::new(), replace: None },
        reader: SubMods { add: Vec::new(), delete: Vec::new(), replace: None },
        updater: SubMods { add: Vec::new(), delete: Vec::new(), replace: None },
        admin: SubMods { add: Vec::new(), delete: Vec::new(), replace: None },
    }
}

#[test]
fn right_allowed_rights_reader() {
    assert_eq!(
        Right::Reader.to_allowed_rights(),
        vec![Right::Admin, Right::Updater, Right::Reader]
    );
}

#[test]
fn right_allowed_rights_updater() {
    assert_eq!(Right::Updater.to_allowed_rights(), vec![Right::Admin, Right::Updater]);
}

#[test]
fn right_allowed_rights_admin() {
    assert_eq!(Right::Admin.to_allowed_rights(), vec![Right::Admin]);
}

#[test]
fn right_to_allowed_attrs_names() {
    let attrs = Right::Updater.to_allowed_attrs();
    assert_eq!(attrs, vec!["memberURL;x-admin".to_string(), "memberURL;x-updater".to_string()]);
}

#[test]
fn mright_to_attr_names() {
    assert_eq!(Mright::Member.to_attr(), "memberURL;x-member");
    assert_eq!(Mright::Reader.to_attr(), "memberURL;x-reader");
    assert_eq!(Mright::Updater.to_attr(), "memberURL;x-updater");
    assert_eq!(Mright::Admin.to_attr(), "memberURL;x-admin");
}

#[test]
fn mright_storage_names() {
    assert_eq!(Mright::Member.to_string(), "member");
    assert_eq!(Mright::Updater.to_string(), "updater");
}

#[test]
fn mright_list_order() {
    assert_eq!(
        Mright::list(),
        vec![Mright::Member, Mright::Reader, Mright::Updater, Mright::Admin]
    );
}

#[test]
fn mright_from_string_round() {
    assert_eq!(Mright::from_string("member"), Ok(Mright::Member));
    assert_eq!(Mright::from_string("admin"), Ok(Mright::Admin));
    assert!(Mright::from_string("owner").is_err());
}

#[test]
fn right_from_string_round() {
    assert_eq!(Right::from_string("reader"), Ok(Right::Reader));
    assert_eq!(Right::from_string("updater"), Ok(Right::Updater));
    assert_eq!(Right::from_string("admin"), Ok(Right::Admin));
    assert!(Right::from_string("member").is_err());
}

#[test]
fn right_to_mright() {
    assert_eq!(Right::Reader.to_mright(), Mright::Reader);
    assert_eq!(Right::Admin.to_attr(), "memberURL;x-admin");
}

#[test]
fn mods_to_right_member_only_needs_updater() {
    let mut m = empty_mods();
    m.member = submods_add(&["ldap:///uid=a,ou=people,dc=nodomain"]);
    assert_eq!(my_mods_to_right(&m), Right::Updater);
}

#[test]
fn mods_to_right_reader_only_needs_updater() {
    let mut m = empty_mods();
    m.reader = submods_add(&["ldap:///uid=a,ou=people,dc=nodomain"]);
    assert_eq!(my_mods_to_right(&m), Right::Updater);
}

#[test]
fn mods_to_right_admin_needs_admin() {
    let mut m = empty_mods();
    m.admin = submods_add(&["ldap:///uid=a,ou=people,dc=nodomain"]);
    assert_eq!(my_mods_to_right(&m), Right::Admin);
}

#[test]
fn err_messages_non_empty() {
    assert!(!MyErr::InvalidId.msg().is_empty());
    assert!(MyErr::NotFound("x".to_string()).msg().contains("x"));
    assert!(MyErr::ChildrenExist.msg().contains("children"));
}
