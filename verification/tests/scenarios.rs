// End-to-end scenarios against an in-memory directory: the store is a
// plain vector of nodes, every decision (validation, authorization,
// simplification, flattening) is the library's.

use sgroups::api::{check_create, check_delete, direct_mods_to_store_ops, is_stem};
use sgroups::api_post::{
    check_and_simplify_mods, may_check_member_ttl, my_mods_to_right, CurrentDirects,
};
use sgroups::flatten::{
    apply_member_sentinel, flattened_delta, get_flattened_dns, pair_with_mright, todo_flattened,
    FlattenWorklist,
};
use sgroups::ldap_wrapper::{mono_attrs_get, strip_empty_sentinel, SearchEntry};
use sgroups::my_ldap::urls_to_dns;
use sgroups::my_ldap_check_rights::{
    best_right_on_self_or_any_parents, check_right_on_self_or_any_parents, user_urls, ChainNode,
};
use sgroups::my_types::{
    FlattenedAttrs, LdapConfig, LoggedUserUrls, MyErr, MyMod, MyMods, Mright, Right, StemConfig,
    SubMods, UrlOpts,
};
use sgroups::str_set::StrSet;

const GROUPS_DN: &str = "ou=groups,dc=nodomain";

fn ldap_cfg() -> LdapConfig {
    LdapConfig {
        url: "ldap://localhost".to_string(),
        bind_dn: "cn=admin,dc=nodomain".to_string(),
        bind_password: "SECRET-REDACTED".to_string(),
        base_dn: "dc=nodomain".to_string(),
        groups_dn: GROUPS_DN.to_string(),
        stem_object_classes: vec!["organizationalRole".to_string()],
        group_object_classes: vec!["groupOfNames".to_string()],
        stem: StemConfig {
            filter: "(objectClass=organizationalRole)".to_string(),
            separator: ".".to_string(),
            root_id: "ROOT".to_string(),
        },
        subject_sources: Vec::new(),
        groups_flattened_attr: FlattenedAttrs {
            member: "member".to_string(),
            reader: "supannGroupeLecteurDN".to_string(),
            updater: "supannGroupeAdminDN".to_string(),
            admin: "owner".to_string(),
        },
        sgroup_attrs: Vec::new(),
    }
}

fn mri(m: Mright) -> usize {
    match m {
        Mright::Member => 0,
        Mright::Reader => 1,
        Mright::Updater => 2,
        Mright::Admin => 3,
    }
}

struct Node {
    id: String,
    stem: bool,
    attrs: Vec<(String, String)>,
    direct: Vec<Vec<String>>,
    flat: Vec<Vec<String>>,
}

struct Store {
    nodes: Vec<Node>,
    oplog: Vec<(String, String, MyMod, Vec<String>)>,
}

fn new_node(id: &str, stem: bool) -> Node {
    Node {
        id: id.to_string(),
        stem,
        attrs: Vec::new(),
        direct: vec![Vec::new(), Vec::new(), Vec::new(), Vec::new()],
        flat: vec![
            if stem { Vec::new() } else { vec!["".to_string()] },
            Vec::new(),
            Vec::new(),
            Vec::new(),
        ],
    }
}

fn seeded_store() -> Store {
    Store { nodes: vec![new_node("ROOT", true)], oplog: Vec::new() }
}

fn people_dn(uid: &str) -> String {
    format!("uid={},ou=people,dc=nodomain", uid)
}

fn people_url(uid: &str) -> String {
    sgroups::my_ldap::dn_to_url(&people_dn(uid))
}

fn group_url(cfg: &LdapConfig, id: &str) -> String {
    sgroups::my_ldap::dn_to_url(&cfg.sgroup_id_to_dn(id))
}

impl Store {
    fn find(&self, id: &str) -> Option<usize> {
        self.nodes.iter().position(|n| n.id == id)
    }

    fn find_by_dn(&self, cfg: &LdapConfig, dn: &str) -> Option<usize> {
        self.nodes.iter().position(|n| cfg.sgroup_id_to_dn(&n.id) == dn)
    }

    fn read_entry(&self, cfg: &LdapConfig, id: &str) -> Option<SearchEntry> {
        let i = self.find(id)?;
        let n = &self.nodes[i];
        let class = if n.stem { "organizationalRole" } else { "groupOfNames" };
        let mut attrs = vec![("objectClass".to_string(), vec![class.to_string()])];
        for m in Mright::list() {
            attrs.push((m.to_attr(), n.direct[mri(m)].clone()));
        }
        Some(SearchEntry { dn: cfg.sgroup_id_to_dn(id), attrs })
    }

    fn logged(&self, cfg: &LdapConfig, user: Option<&str>) -> LoggedUserUrls {
        match user {
            None => LoggedUserUrls::TrustedAdmin,
            Some(uid) => {
                let dn = people_dn(uid);
                let group_dns: Vec<String> = self
                    .nodes
                    .iter()
                    .filter(|n| n.flat[0].iter().any(|m| m == &dn))
                    .map(|n| cfg.sgroup_id_to_dn(&n.id))
                    .collect();
                LoggedUserUrls::User(user_urls(&dn, &group_dns))
            },
        }
    }

    fn parents(&self, cfg: &LdapConfig, id: &str) -> Vec<ChainNode> {
        cfg.stem
            .parent_stems(id)
            .iter()
            .map(|pid| ChainNode { id: pid.clone(), entry: self.read_entry(cfg, pid) })
            .collect()
    }

    fn best_right(&self, cfg: &LdapConfig, user: Option<&str>, id: &str) -> Result<
        Option<Right>,
        MyErr,
    > {
        let lu = self.logged(cfg, user);
        let mut chain = self.parents(cfg, id);
        chain.push(ChainNode { id: id.to_string(), entry: self.read_entry(cfg, id) });
        best_right_on_self_or_any_parents(&lu, &chain, cfg.stem.root_id.as_str())
    }

    fn create(&mut self, cfg: &LdapConfig, user: Option<&str>, id: &str, stem: bool) -> Result<
        (),
        MyErr,
    > {
        let lu = self.logged(cfg, user);
        let parents = self.parents(cfg, id);
        check_create(&cfg.stem, &lu, id, &parents)?;
        if self.find(id).is_some() {
            return Err(MyErr::Internal("node already exists".to_string()));
        }
        self.nodes.push(new_node(id, stem));
        Ok(())
    }

    fn delete(&mut self, cfg: &LdapConfig, user: Option<&str>, id: &str) -> Result<(), MyErr> {
        let lu = self.logged(cfg, user);
        let parents = self.parents(cfg, id);
        let entry = self.read_entry(cfg, id);
        let has_children = self
            .nodes
            .iter()
            .any(|n| cfg.stem.parent_stem(&n.id) == Some(id.to_string()));
        check_delete(&cfg.stem, &lu, id, entry.as_ref(), &parents, has_children)?;
        match self.find(id) {
            Some(i) => {
                self.nodes.remove(i);
                Ok(())
            },
            None => Err(MyErr::NotFound(id.to_string())),
        }
    }

    fn modify(
        &mut self,
        cfg: &LdapConfig,
        user: Option<&str>,
        id: &str,
        mods: MyMods,
    ) -> Result<(), MyErr> {
        cfg.stem.validate_sgroup_id(id)?;
        let lu = self.logged(cfg, user);
        let right = my_mods_to_right(&mods);
        let entry = self.read_entry(cfg, id);
        let parents = self.parents(cfg, id);
        check_right_on_self_or_any_parents(
            &lu,
            id,
            entry.as_ref(),
            &parents,
            cfg.stem.root_id.as_str(),
            right,
        )?;
        let idx = self.find(id).ok_or(MyErr::NotFound(id.to_string()))?;
        let group_classes = StrSet::from_vec(&cfg.group_object_classes);
        let stem_node = is_stem(entry.as_ref().unwrap(), &group_classes);
        let ttl = {
            let n = &self.nodes[idx];
            mono_attrs_get(&n.attrs, "groupaldOptions;x-member-ttl-max").cloned()
        };
        may_check_member_ttl(ttl.as_ref(), &mods, chrono::Utc::now().timestamp_millis())?;
        let currents = {
            let n = &self.nodes[idx];
            CurrentDirects {
                member: Some(n.direct[0].clone()),
                reader: Some(n.direct[1].clone()),
                updater: Some(n.direct[2].clone()),
                admin: Some(n.direct[3].clone()),
            }
        };
        let simplified = check_and_simplify_mods(stem_node, mods, &currents)?;
        if simplified.is_empty() {
            return Ok(());
        }
        let ops = direct_mods_to_store_ops(&simplified);
        for op in &ops {
            let m = Mright::list()
                .into_iter()
                .find(|m| m.to_attr() == op.attr)
                .expect("direct attribute");
            let k = mri(m);
            let n = &mut self.nodes[idx];
            match op.kind {
                MyMod::Add => {
                    for v in &op.values {
                        if !n.direct[k].iter().any(|x| x == v) {
                            n.direct[k].push(v.clone());
                        }
                    }
                },
                MyMod::Delete => {
                    n.direct[k].retain(|x| !op.values.iter().any(|v| v == x));
                },
                MyMod::Replace => {
                    n.direct[k] = op.values.clone();
                },
            }
            self.oplog.push((id.to_string(), op.attr.clone(), op.kind, op.values.clone()));
        }
        let todo = todo_flattened(stem_node, id, &simplified);
        self.cascade(cfg, todo)
    }

    fn cascade(&mut self, cfg: &LdapConfig, seed: Vec<(String, Mright)>) -> Result<(), MyErr> {
        let mut wl = FlattenWorklist::new(seed);
        while let Some((id, mright)) = wl.pop() {
            let idx = match self.find(&id) {
                Some(i) => i,
                None => continue,
            };
            let urls = self.nodes[idx].direct[mri(mright)].clone();
            let direct_dns = match urls_to_dns(&urls) {
                Some(d) => d,
                None => {
                    return Err(MyErr::Remote("remote query without a driver".to_string()));
                },
            };
            let mut flats: Vec<(String, StrSet)> = Vec::new();
            for dn in direct_dns.elems() {
                if cfg.dn_is_sgroup(dn) {
                    let raw = match self.find_by_dn(cfg, dn) {
                        Some(g) => self.nodes[g].flat[0].clone(),
                        None => Vec::new(),
                    };
                    flats.push((dn.clone(), StrSet::from_vec(&strip_empty_sentinel(raw))));
                }
            }
            let closure = get_flattened_dns(GROUPS_DN, &direct_dns, &flats)
                .ok_or_else(|| MyErr::Internal("uncovered group".to_string()))?;
            let goal = apply_member_sentinel(closure, mright);
            let current = StrSet::from_vec(&self.nodes[idx].flat[mri(mright)]);
            let (to_add, to_remove) = flattened_delta(&goal, &current);
            if to_add.is_empty() && to_remove.is_empty() {
                continue;
            }
            let updated = StrSet::from_vec(&self.nodes[idx].flat[mri(mright)])
                .difference(&to_remove)
                .union(&to_add);
            self.nodes[idx].flat[mri(mright)] = updated.elems().clone();
            if mright == Mright::Member {
                let dn = cfg.sgroup_id_to_dn(&id);
                for m2 in Mright::list() {
                    let ids: Vec<String> = self
                        .nodes
                        .iter()
                        .filter(|n| n.flat[mri(m2)].iter().any(|v| v == &dn))
                        .map(|n| n.id.clone())
                        .collect();
                    wl.append_dependents(pair_with_mright(ids, m2));
                }
            }
        }
        Ok(())
    }

    fn flat_member(&self, id: &str) -> Vec<String> {
        let mut v = self.nodes[self.find(id).unwrap()].flat[0].clone();
        v.sort();
        v
    }
}

fn uo(url: &str) -> UrlOpts {
    UrlOpts { url: url.to_string(), enddate: None }
}

fn none_submods() -> SubMods {
    SubMods { add: Vec::new(), delete: Vec::new(), replace: None }
}

fn mods_one(mright: Mright, kind: MyMod, urls: &[String]) -> MyMods {
    let entries: Vec<UrlOpts> = urls.iter().map(|u| uo(u)).collect();
    let sub = match kind {
        MyMod::Add => SubMods { add: entries, delete: Vec::new(), replace: None },
        MyMod::Delete => SubMods { add: Vec::new(), delete: entries, replace: None },
        MyMod::Replace => SubMods { add: Vec::new(), delete: Vec::new(), replace: Some(entries) },
    };
    let mut m = MyMods {
        member: none_submods(),
        reader: none_submods(),
        updater: none_submods(),
        admin: none_submods(),
    };
    match mright {
        Mright::Member => m.member = sub,
        Mright::Reader => m.reader = sub,
        Mright::Updater => m.updater = sub,
        Mright::Admin => m.admin = sub,
    }
    m
}

// Builds the tree of the escalation scenarios: ROOT with prigaux as admin,
// collab.DSIUN holding prigaux, and applications.grouper.super-admins.
fn escalation_setup() -> (Store, LdapConfig) {
    let cfg = ldap_cfg();
    let mut st = seeded_store();
    st.modify(&cfg, None, "ROOT", mods_one(Mright::Admin, MyMod::Add, &[people_url("prigaux")]))
        .unwrap();
    st.create(&cfg, Some("prigaux"), "collab", true).unwrap();
    st.create(&cfg, Some("prigaux"), "collab.DSIUN", false).unwrap();
    st.modify(
        &cfg,
        Some("prigaux"),
        "collab.DSIUN",
        mods_one(Mright::Member, MyMod::Add, &[people_url("prigaux")]),
    )
    .unwrap();
    st.create(&cfg, Some("prigaux"), "applications", true).unwrap();
    st.create(&cfg, Some("prigaux"), "applications.grouper", true).unwrap();
    st.create(&cfg, Some("prigaux"), "applications.grouper.super-admins", false).unwrap();
    (st, cfg)
}

#[test]
fn self_escalation_via_group() {
    let (mut st, cfg) = escalation_setup();
    assert_eq!(st.best_right(&cfg, Some("prigaux"), "collab.DSIUN"), Ok(Some(Right::Admin)));

    st.modify(
        &cfg,
        Some("prigaux"),
        "applications.grouper.super-admins",
        mods_one(Mright::Member, MyMod::Add, &[people_url("prigaux")]),
    )
    .unwrap();
    assert_eq!(st.flat_member("applications.grouper.super-admins"), vec![people_dn("prigaux")]);

    // swap ROOT's admin from the user to the group holding the user
    let mut swap = mods_one(
        Mright::Admin,
        MyMod::Add,
        &[group_url(&cfg, "applications.grouper.super-admins")],
    );
    swap.admin.delete.push(uo(&people_url("prigaux")));
    st.modify(&cfg, Some("prigaux"), "ROOT", swap).unwrap();

    // prigaux is still admin, through the transitive membership
    assert_eq!(st.best_right(&cfg, Some("prigaux"), "collab"), Ok(Some(Right::Admin)));
}

#[test]
fn demote_by_empty() {
    let (mut st, cfg) = escalation_setup();
    st.modify(
        &cfg,
        Some("prigaux"),
        "applications.grouper.super-admins",
        mods_one(Mright::Member, MyMod::Add, &[people_url("prigaux")]),
    )
    .unwrap();
    let mut swap = mods_one(
        Mright::Admin,
        MyMod::Add,
        &[group_url(&cfg, "applications.grouper.super-admins")],
    );
    swap.admin.delete.push(uo(&people_url("prigaux")));
    st.modify(&cfg, Some("prigaux"), "ROOT", swap).unwrap();

    // remove the last member: the flattened set must hold exactly the sentinel
    st.modify(
        &cfg,
        Some("prigaux"),
        "applications.grouper.super-admins",
        mods_one(Mright::Member, MyMod::Delete, &[people_url("prigaux")]),
    )
    .unwrap();
    assert_eq!(st.flat_member("applications.grouper.super-admins"), vec!["".to_string()]);

    // and with it every right is gone
    assert!(matches!(
        st.best_right(&cfg, Some("prigaux"), "collab")
            .and_then(|b| sgroups::api::require_right(b, "collab")),
        Err(MyErr::Forbidden(_))
    ));
}

#[test]
fn repromote_via_group_path() {
    let (mut st, cfg) = escalation_setup();
    st.modify(
        &cfg,
        Some("prigaux"),
        "applications.grouper.super-admins",
        mods_one(Mright::Member, MyMod::Add, &[people_url("prigaux")]),
    )
    .unwrap();
    let mut swap = mods_one(
        Mright::Admin,
        MyMod::Add,
        &[group_url(&cfg, "applications.grouper.super-admins")],
    );
    swap.admin.delete.push(uo(&people_url("prigaux")));
    st.modify(&cfg, Some("prigaux"), "ROOT", swap).unwrap();
    st.modify(
        &cfg,
        Some("prigaux"),
        "applications.grouper.super-admins",
        mods_one(Mright::Member, MyMod::Delete, &[people_url("prigaux")]),
    )
    .unwrap();
    assert!(st.best_right(&cfg, Some("prigaux"), "collab").unwrap().is_none());

    // the trusted admin links the group that still holds prigaux; the
    // cascade pulls prigaux's DN through and the rights come back
    st.modify(
        &cfg,
        None,
        "applications.grouper.super-admins",
        mods_one(Mright::Member, MyMod::Add, &[group_url(&cfg, "collab.DSIUN")]),
    )
    .unwrap();
    assert_eq!(st.flat_member("applications.grouper.super-admins"), {
        let mut v = vec![cfg.sgroup_id_to_dn("collab.DSIUN"), people_dn("prigaux")];
        v.sort();
        v
    });
    assert_eq!(st.best_right(&cfg, Some("prigaux"), "collab"), Ok(Some(Right::Admin)));
}

#[test]
fn delete_readd_restores_flattened() {
    let (mut st, cfg) = escalation_setup();
    // h = super-admins holds a subject and the DSIUN group
    let h = "applications.grouper.super-admins";
    st.modify(
        &cfg,
        None,
        h,
        mods_one(
            Mright::Member,
            MyMod::Add,
            &[people_url("aanli"), group_url(&cfg, "collab.DSIUN")],
        ),
    )
    .unwrap();
    let before = st.flat_member(h);
    assert_eq!(before, {
        let mut v = vec![
            cfg.sgroup_id_to_dn("collab.DSIUN"),
            people_dn("aanli"),
            people_dn("prigaux"),
        ];
        v.sort();
        v
    });

    st.modify(
        &cfg,
        None,
        h,
        mods_one(Mright::Member, MyMod::Delete, &[group_url(&cfg, "collab.DSIUN")]),
    )
    .unwrap();
    assert_eq!(st.flat_member(h), vec![people_dn("aanli")]);

    st.modify(
        &cfg,
        None,
        h,
        mods_one(Mright::Member, MyMod::Add, &[group_url(&cfg, "collab.DSIUN")]),
    )
    .unwrap();
    assert_eq!(st.flat_member(h), before);
}

#[test]
fn stem_with_children_cannot_be_deleted() {
    let cfg = ldap_cfg();
    let mut st = seeded_store();
    st.create(&cfg, None, "a", true).unwrap();
    st.create(&cfg, None, "a.b", false).unwrap();
    assert!(matches!(st.delete(&cfg, None, "a"), Err(MyErr::ChildrenExist)));
    st.delete(&cfg, None, "a.b").unwrap();
    st.delete(&cfg, None, "a").unwrap();
}

#[test]
fn root_create_delete_rejected_and_reads_as_existing() {
    let cfg = ldap_cfg();
    let mut st = seeded_store();
    assert!(matches!(st.create(&cfg, None, "ROOT", true), Err(MyErr::InvalidId)));
    assert!(matches!(st.delete(&cfg, None, "ROOT"), Err(MyErr::InvalidId)));

    // a user without rights under an absent root is refused, not broken:
    // the missing root reads as an existing stem granting nothing
    let mut empty = Store { nodes: Vec::new(), oplog: Vec::new() };
    assert!(matches!(
        empty.create(&cfg, Some("aanli"), "a", true),
        Err(MyErr::Forbidden(_))
    ));
}

#[test]
fn replace_collapse_reaches_store_as_diff() {
    let cfg = ldap_cfg();
    let mut st = seeded_store();
    st.create(&cfg, None, "g", false).unwrap();
    let urls: Vec<String> = (1..=10).map(|i| people_url(&format!("u{}", i))).collect();
    st.modify(&cfg, None, "g", mods_one(Mright::Member, MyMod::Add, &urls)).unwrap();
    st.oplog.clear();

    // replace {u1..u10} with {u1..u9, u11}: the store sees one Add of u11
    // and one Delete of u10, and never a Replace
    let new_urls: Vec<String> = (1..=9)
        .chain([11])
        .map(|i| people_url(&format!("u{}", i)))
        .collect();
    st.modify(&cfg, None, "g", mods_one(Mright::Member, MyMod::Replace, &new_urls)).unwrap();

    let member_ops: Vec<_> = st
        .oplog
        .iter()
        .filter(|(id, attr, _, _)| id == "g" && attr == "memberURL;x-member")
        .collect();
    assert_eq!(member_ops.len(), 2);
    assert!(member_ops.iter().all(|(_, _, kind, _)| *kind != MyMod::Replace));
    let adds: Vec<_> = member_ops.iter().filter(|(_, _, k, _)| *k == MyMod::Add).collect();
    let dels: Vec<_> = member_ops.iter().filter(|(_, _, k, _)| *k == MyMod::Delete).collect();
    assert_eq!(adds.len(), 1);
    assert_eq!(adds[0].3, vec![people_url("u11")]);
    assert_eq!(dels.len(), 1);
    assert_eq!(dels[0].3, vec![people_url("u10")]);
}

#[test]
fn second_identical_mutation_writes_nothing() {
    let cfg = ldap_cfg();
    let mut st = seeded_store();
    st.create(&cfg, None, "g", false).unwrap();
    let urls: Vec<String> = (1..=6).map(|i| people_url(&format!("u{}", i))).collect();
    st.modify(&cfg, None, "g", mods_one(Mright::Member, MyMod::Replace, &urls)).unwrap();
    let flat_before = st.flat_member("g");
    let writes_before = st.oplog.len();

    // the identical mutation again: same final state, zero direct writes
    st.modify(&cfg, None, "g", mods_one(Mright::Member, MyMod::Replace, &urls)).unwrap();
    assert_eq!(st.oplog.len(), writes_before);
    assert_eq!(st.flat_member("g"), flat_before);
}

#[test]
fn updater_cannot_touch_rights() {
    let (mut st, cfg) = escalation_setup();
    // aanli holds updater on collab.DSIUN only
    st.modify(
        &cfg,
        Some("prigaux"),
        "collab.DSIUN",
        mods_one(Mright::Updater, MyMod::Add, &[people_url("aanli")]),
    )
    .unwrap();
    // member changes pass with updater right
    st.modify(
        &cfg,
        Some("aanli"),
        "collab.DSIUN",
        mods_one(Mright::Member, MyMod::Add, &[people_url("aanli")]),
    )
    .unwrap();
    // touching admin demands the admin right
    assert!(matches!(
        st.modify(
            &cfg,
            Some("aanli"),
            "collab.DSIUN",
            mods_one(Mright::Admin, MyMod::Add, &[people_url("aanli")]),
        ),
        Err(MyErr::Forbidden(_))
    ));
}

#[test]
fn stem_member_mods_rejected_end_to_end() {
    let cfg = ldap_cfg();
    let mut st = seeded_store();
    st.create(&cfg, None, "a", true).unwrap();
    assert!(matches!(
        st.modify(&cfg, None, "a", mods_one(Mright::Member, MyMod::Add, &[people_url("x")])),
        Err(MyErr::InvalidMods(_))
    ));
    // rights on stems are fine
    st.modify(&cfg, None, "a", mods_one(Mright::Admin, MyMod::Add, &[people_url("x")])).unwrap();
}

#[test]
fn missing_node_is_not_found() {
    let cfg = ldap_cfg();
    let mut st = seeded_store();
    assert!(matches!(
        st.modify(&cfg, None, "ghost", mods_one(Mright::Member, MyMod::Add, &[people_url("a")])),
        Err(MyErr::NotFound(_))
    ));
    assert!(matches!(
        st.best_right(&cfg, Some("prigaux"), "ghost"),
        Err(MyErr::NotFound(_))
    ));
}

#[test]
fn remote_member_needs_a_driver() {
    // a remote query is accepted as a single-element member Replace, but
    // resolving it needs the remote driver this harness does not carry
    let cfg = ldap_cfg();
    let mut st = seeded_store();
    st.create(&cfg, None, "g", false).unwrap();
    let r = st.modify(
        &cfg,
        None,
        "g",
        mods_one(
            Mright::Member,
            MyMod::Replace,
            &["sql://mainremote?select uid from users".to_string()],
        ),
    );
    assert!(matches!(r, Err(MyErr::Remote(_))));
}

#[test]
fn cyclic_groups_converge() {
    // two groups holding each other: the cascade must still terminate,
    // because nothing is enqueued once nothing changes
    let cfg = ldap_cfg();
    let mut st = seeded_store();
    st.create(&cfg, None, "g1", false).unwrap();
    st.create(&cfg, None, "g2", false).unwrap();
    st.modify(
        &cfg,
        None,
        "g1",
        mods_one(Mright::Member, MyMod::Add, &[people_url("a"), group_url(&cfg, "g2")]),
    )
    .unwrap();
    st.modify(
        &cfg,
        None,
        "g2",
        mods_one(Mright::Member, MyMod::Add, &[group_url(&cfg, "g1")]),
    )
    .unwrap();
    // both converge on the same flattened set; the subject came through
    // the cycle exactly once
    let expected = {
        let mut v = vec![
            cfg.sgroup_id_to_dn("g1"),
            cfg.sgroup_id_to_dn("g2"),
            people_dn("a"),
        ];
        v.sort();
        v
    };
    assert_eq!(st.flat_member("g2"), expected);
    assert_eq!(st.flat_member("g1"), expected);
}
