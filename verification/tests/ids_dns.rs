use sgroups::my_types::{LdapConfig, MyErr, StemConfig};
use sgroups::my_ldap::{dn_to_url, url_to_dn, url_to_dn_, urls_to_dns};

fn stem_cfg(root: &str) -> StemConfig {
    StemConfig {
        filter: "(objectClass=organizationalRole)".to_string(),
        separator: ".".to_string(),
        root_id: root.to_string(),
    }
}

fn ldap_cfg() -> LdapConfig {
    LdapConfig {
        url: "ldap://localhost".to_string(),
        bind_dn: "cn=admin,dc=nodomain".to_string(),
        bind_password: "SECRET-REDACTED".to_string(),
        base_dn: "dc=nodomain".to_string(),
        groups_dn: "ou=groups,dc=nodomain".to_string(),
        stem_object_classes: vec!["organizationalRole".to_string()],
        group_object_classes: vec!["groupOfNames".to_string()],
        stem: stem_cfg(""),
        subject_sources: Vec::new(),
        groups_flattened_attr: sgroups::my_types::FlattenedAttrs {
            member: "member".to_string(),
            reader: "supannGroupeLecteurDN".to_string(),
            updater: "supannGroupeAdminDN".to_string(),
            admin: "owner".to_string(),
        },
        sgroup_attrs: Vec::new(),
    }
}

#[test]
fn validate_accepts_root_and_plain_ids() {
    let cfg = stem_cfg("");
    assert!(cfg.validate_sgroup_id("").is_ok());
    assert!(cfg.validate_sgroup_id("a").is_ok());
    assert!(cfg.validate_sgroup_id("a.b.c").is_ok());
    assert!(cfg.validate_sgroup_id("applications.grouper.super-admins").is_ok());
}

#[test]
fn validate_rejects_empty_segments() {
    let cfg = stem_cfg("");
    assert!(matches!(cfg.validate_sgroup_id(".a"), Err(MyErr::InvalidId)));
    assert!(matches!(cfg.validate_sgroup_id("a."), Err(MyErr::InvalidId)));
    assert!(matches!(cfg.validate_sgroup_id("a..b"), Err(MyErr::InvalidId)));
}

#[test]
fn validate_rejects_bad_characters() {
    let cfg = stem_cfg("");
    assert!(matches!(cfg.validate_sgroup_id("a b"), Err(MyErr::InvalidId)));
    assert!(matches!(cfg.validate_sgroup_id("a(b)"), Err(MyErr::InvalidId)));
}

#[test]
fn parent_stems_of_nested_id() {
    let cfg = stem_cfg("");
    assert_eq!(
        cfg.parent_stems("a.b.c"),
        vec!["".to_string(), "a".to_string(), "a.b".to_string()]
    );
    assert_eq!(cfg.parent_stems("a"), vec!["".to_string()]);
    assert_eq!(cfg.parent_stems(""), Vec::<String>::new());
}

#[test]
fn parent_stems_with_named_root() {
    let cfg = stem_cfg("ROOT");
    assert_eq!(
        cfg.parent_stems("collab.DSIUN"),
        vec!["ROOT".to_string(), "collab".to_string()]
    );
    assert_eq!(cfg.parent_stems("ROOT"), Vec::<String>::new());
}

#[test]
fn parent_stem_immediate() {
    let cfg = stem_cfg("");
    assert_eq!(cfg.parent_stem("a.b.c"), Some("a.b".to_string()));
    assert_eq!(cfg.parent_stem("a"), Some("".to_string()));
    assert_eq!(cfg.parent_stem(""), None);
}

#[test]
fn dn_url_round_trip() {
    let dn = "uid=prigaux,ou=people,dc=nodomain";
    let url = dn_to_url(dn);
    assert_eq!(url, "ldap:///uid=prigaux,ou=people,dc=nodomain");
    assert_eq!(url_to_dn(&url), Some(dn.to_string()));
    assert_eq!(url_to_dn_(url), Some(dn.to_string()));
}

#[test]
fn url_to_dn_rejects_queries_and_other_schemes() {
    assert_eq!(url_to_dn("ldap:///ou=x??sub?(uid=*)"), None);
    assert_eq!(url_to_dn("sql://remote?select 1"), None);
    assert_eq!(url_to_dn("uid=plain"), None);
}

#[test]
fn sgroup_id_dn_round_trip() {
    let cfg = ldap_cfg();
    let dn = cfg.sgroup_id_to_dn("collab.DSIUN");
    assert_eq!(dn, "cn=collab.DSIUN,ou=groups,dc=nodomain");
    assert_eq!(cfg.dn_to_sgroup_id(&dn), Some("collab.DSIUN".to_string()));
    assert_eq!(cfg.dn_to_sgroup_id("uid=prigaux,ou=people,dc=nodomain"), None);
}

#[test]
fn dn_is_sgroup_by_branch() {
    let cfg = ldap_cfg();
    assert!(cfg.dn_is_sgroup("cn=a,ou=groups,dc=nodomain"));
    assert!(!cfg.dn_is_sgroup("uid=prigaux,ou=people,dc=nodomain"));
}

#[test]
fn urls_to_dns_all_or_nothing() {
    let urls = vec![
        "ldap:///uid=a,ou=people,dc=nodomain".to_string(),
        "ldap:///cn=g,ou=groups,dc=nodomain".to_string(),
    ];
    let dns = urls_to_dns(&urls).expect("plain urls resolve");
    assert!(dns.contains("uid=a,ou=people,dc=nodomain"));
    assert!(dns.contains("cn=g,ou=groups,dc=nodomain"));
    assert_eq!(dns.len(), 2);

    let mixed = vec![
        "ldap:///uid=a,ou=people,dc=nodomain".to_string(),
        "sql://remote?select uid from users".to_string(),
    ];
    assert!(urls_to_dns(&mixed).is_none());
}

#[test]
fn sgroup_sscfg_finds_groups_branch() {
    let mut cfg = ldap_cfg();
    assert!(cfg.sgroup_sscfg().is_none());
    cfg.subject_sources.push(sgroups::my_types::SubjectSourceConfig {
        dn: "ou=people,dc=nodomain".to_string(),
        name: "people".to_string(),
        vue_template: None,
        vue_template_if_ambiguous: None,
        display_attrs: vec!["displayName".to_string()],
        search_filter: "(uid=%s)".to_string(),
    });
    cfg.subject_sources.push(sgroups::my_types::SubjectSourceConfig {
        dn: "ou=groups,dc=nodomain".to_string(),
        name: "groups".to_string(),
        vue_template: None,
        vue_template_if_ambiguous: None,
        display_attrs: vec!["ou".to_string()],
        search_filter: "(cn=%s)".to_string(),
    });
    let found = cfg.sgroup_sscfg().expect("groups branch listed");
    assert_eq!(found.name, "groups");
}
