//! The request-level decisions: what a create or delete requires, which
//! kind an entry has, and how a validated modification request becomes
//! plain store operations. The surrounding application reads the entries
//! these functions decide over and performs the operations they produce.

use vstd::prelude::*;
use crate::ldap_wrapper::{has_attr, values_of, SearchEntry};
use crate::my_ldap_check_rights::{
    check_right_on_any_parents, check_right_on_self_or_any_parents, entry_grants_required,
    parents_walk_grants, ChainNode,
};
use crate::my_types::{
    LoggedUserUrls, MonoAttrs, MyErr, MyMod, MyMods, Mright, Right, StemConfig, SubMods,
};
use crate::ids::valid_sgroup_id;
use crate::str_set::StrSet;
use crate::str_utils::str_eq;

verus! {

/// True if no element of `vals` belongs to `others`.
pub fn is_disjoint(vals: &Vec<String>, others: &StrSet) -> (r: bool)
    ensures
        r == forall|i: int| 0 <= i < vals@.len() ==> !others@.contains(#[trigger] vals@[i]@),
{
    let mut i: usize = 0;
    while i < vals.len()
        invariant
            i <= vals@.len(),
            forall|k: int| 0 <= k < i ==> !others@.contains(#[trigger] vals@[k]@),
        decreases vals@.len() - i,
    {
        if others.contains(vals[i].as_str()) {
            return false;
        }
        i = i + 1;
    }
    true
}

/// Whether at least one attribute value of the entry lies in `others`.
pub fn has_value(entry: &SearchEntry, others: &StrSet) -> (r: bool)
    ensures
        r == exists|i: int, k: int|
            0 <= i < entry.attrs.deep_view().len() && 0 <= k
                < (#[trigger] entry.attrs.deep_view()[i]).1.len() && others@.contains(
                #[trigger] entry.attrs.deep_view()[i].1[k],
            ),
{
    let ghost dv = entry.attrs.deep_view();
    let mut i: usize = 0;
    while i < entry.attrs.len()
        invariant
            i <= entry.attrs@.len(),
            dv == entry.attrs.deep_view(),
            forall|x: int, k: int|
                0 <= x < i && 0 <= k < (#[trigger] dv[x]).1.len() ==> !others@.contains(
                    #[trigger] dv[x].1[k],
                ),
        decreases entry.attrs@.len() - i,
    {
        let vals = &entry.attrs[i].1;
        let mut k: usize = 0;
        while k < vals.len()
            invariant
                i < entry.attrs@.len(),
                k <= vals@.len(),
                dv == entry.attrs.deep_view(),
                vals.deep_view() == dv[i as int].1,
                forall|j: int| 0 <= j < k ==> !others@.contains(#[trigger] dv[i as int].1[j]),
            decreases vals@.len() - k,
        {
            if others.contains(vals[k].as_str()) {
                proof {
                    assert(others@.contains(dv[i as int].1[k as int]));
                }
                return true;
            }
            k = k + 1;
        }
        i = i + 1;
    }
    false
}

/// A stem is an entry whose object classes name no group class. An entry
/// without object classes is not a stem.
pub open spec fn is_stem_spec(attrs: Seq<(Seq<char>, Seq<Seq<char>>)>, group_classes: Set<
    Seq<char>,
>) -> bool {
    &&& has_attr(attrs, "objectClass"@)
    &&& forall|k: int|
        0 <= k < values_of(attrs, "objectClass"@).len() ==> !group_classes.contains(
            #[trigger] values_of(attrs, "objectClass"@)[k],
        )
}

/// Whether the entry is a stem, judged by its stored object classes
/// against the configured group classes.
pub fn is_stem(entry: &SearchEntry, group_classes: &StrSet) -> (r: bool)
    ensures
        r == is_stem_spec(entry.attrs.deep_view(), group_classes@),
{
    match entry.get_attr_values("objectClass") {
        Some(vals) => {
            let ghost vdv = vals.deep_view();
            let mut k: usize = 0;
            while k < vals.len()
                invariant
                    k <= vals@.len(),
                    vdv == vals.deep_view(),
                    has_attr(entry.attrs.deep_view(), "objectClass"@),
                    vdv == values_of(entry.attrs.deep_view(), "objectClass"@),
                    forall|j: int| 0 <= j < k ==> !group_classes@.contains(#[trigger] vdv[j]),
                decreases vals@.len() - k,
            {
                if group_classes.contains(vals[k].as_str()) {
                    proof {
                        assert(group_classes@.contains(vdv[k as int]));
                    }
                    return false;
                }
                k = k + 1;
            }
            true
        },
        None => false,
    }
}

/// The wanted single-valued attributes of an entry: each attribute whose
/// name is wanted and which carries a value contributes its name and first
/// value, in entry order.
pub open spec fn sgroup_attrs_spec(
    attrs: Seq<(Seq<char>, Seq<Seq<char>>)>,
    wanted: Set<Seq<char>>,
) -> Seq<(Seq<char>, Seq<char>)>
    decreases attrs.len(),
{
    if attrs.len() == 0 {
        seq![]
    } else {
        let rest = sgroup_attrs_spec(attrs.drop_first(), wanted);
        if wanted.contains(attrs[0].0) && attrs[0].1.len() > 0 {
            seq![(attrs[0].0, attrs[0].1[0])] + rest
        } else {
            rest
        }
    }
}

/// Keeps the wanted attributes of an entry, single-valued.
pub fn get_sgroups_attrs(attrs: Vec<(String, Vec<String>)>, wanted: &StrSet) -> (r: MonoAttrs)
    ensures
        r.deep_view() == sgroup_attrs_spec(attrs.deep_view(), wanted@),
{
    let ghost dv = attrs.deep_view();
    let mut r: MonoAttrs = Vec::new();
    proof {
        assert(dv.skip(0) =~= dv);
        assert(r.deep_view() + sgroup_attrs_spec(dv, wanted@) =~= sgroup_attrs_spec(dv, wanted@));
    }
    let mut i: usize = 0;
    while i < attrs.len()
        invariant
            i <= attrs@.len(),
            dv == attrs.deep_view(),
            r.deep_view() + sgroup_attrs_spec(dv.skip(i as int), wanted@) == sgroup_attrs_spec(
                dv,
                wanted@,
            ),
        decreases attrs@.len() - i,
    {
        let ghost r0 = r.deep_view();
        if wanted.contains(attrs[i].0.as_str()) && attrs[i].1.len() > 0 {
            r.push((attrs[i].0.clone(), attrs[i].1[0].clone()));
            proof {
                assert(r.deep_view() =~= r0.push((dv[i as int].0, dv[i as int].1[0])));
            }
        }
        proof {
            let rest = dv.skip(i as int);
            assert(rest.len() > 0 && rest[0] == dv[i as int]);
            assert(rest.drop_first() =~= dv.skip(i + 1));
            assert(r.deep_view() + sgroup_attrs_spec(dv.skip(i + 1), wanted@)
                =~= sgroup_attrs_spec(dv, wanted@));
        }
        i = i + 1;
    }
    proof {
        assert(sgroup_attrs_spec(dv.skip(dv.len() as int), wanted@) =~= Seq::<
            (Seq<char>, Seq<char>),
        >::empty());
        assert(r.deep_view() =~= sgroup_attrs_spec(dv, wanted@));
    }
    r
}

/// The proposed attribute values that differ from the current ones: only
/// they need writing.
pub open spec fn modified_attrs_spec(
    attrs: Seq<(Seq<char>, Seq<char>)>,
    current: Seq<(Seq<char>, Seq<char>)>,
) -> Seq<(Seq<char>, Seq<char>)>
    decreases attrs.len(),
{
    if attrs.len() == 0 {
        seq![]
    } else {
        let rest = modified_attrs_spec(attrs.drop_first(), current);
        if crate::ldap_wrapper::mono_get_spec(current, attrs[0].0) == Some(attrs[0].1) {
            rest
        } else {
            seq![attrs[0]] + rest
        }
    }
}

/// Drops the proposed attribute values that already stand in the store.
pub fn remove_non_modified_attrs(attrs: MonoAttrs, current: &MonoAttrs) -> (r: MonoAttrs)
    ensures
        r.deep_view() == modified_attrs_spec(attrs.deep_view(), current.deep_view()),
{
    let ghost dv = attrs.deep_view();
    let ghost cdv = current.deep_view();
    let mut r: MonoAttrs = Vec::new();
    proof {
        assert(dv.skip(0) =~= dv);
        assert(r.deep_view() + modified_attrs_spec(dv, cdv) =~= modified_attrs_spec(dv, cdv));
    }
    let mut i: usize = 0;
    while i < attrs.len()
        invariant
            i <= attrs@.len(),
            dv == attrs.deep_view(),
            cdv == current.deep_view(),
            r.deep_view() + modified_attrs_spec(dv.skip(i as int), cdv) == modified_attrs_spec(
                dv,
                cdv,
            ),
        decreases attrs@.len() - i,
    {
        let ghost r0 = r.deep_view();
        let keep = match crate::ldap_wrapper::mono_attrs_get(current, attrs[i].0.as_str()) {
            Some(v) => !crate::str_utils::str_eq(v.as_str(), attrs[i].1.as_str()),
            None => true,
        };
        if keep {
            r.push((attrs[i].0.clone(), attrs[i].1.clone()));
            proof {
                assert(r.deep_view() =~= r0.push((dv[i as int].0, dv[i as int].1)));
            }
        }
        proof {
            let rest = dv.skip(i as int);
            assert(rest.len() > 0 && rest[0] == dv[i as int]);
            assert(rest.drop_first() =~= dv.skip(i + 1));
            assert(r.deep_view() + modified_attrs_spec(dv.skip(i + 1), cdv)
                =~= modified_attrs_spec(dv, cdv));
        }
        i = i + 1;
    }
    proof {
        assert(modified_attrs_spec(dv.skip(dv.len() as int), cdv) =~= Seq::<
            (Seq<char>, Seq<char>),
        >::empty());
        assert(r.deep_view() =~= modified_attrs_spec(dv, cdv));
    }
    r
}

/// Stem purity: a validated request on a stem carries no member changes,
/// so it generates no operation at all on the member attribute — no stem
/// ever acquires a non-empty member field through the pipeline.
pub proof fn lemma_stem_generates_no_member_ops(m: MyMods)
    requires
        m.member.is_empty_spec(),
    ensures
        submod_ops_spec(Mright::Member.spec_attr(), m.member) == Seq::<
            (Seq<char>, MyMod, Seq<Seq<char>>),
        >::empty(),
        forall|i: int|
            0 <= i < direct_ops_spec(m).len() ==> (#[trigger] direct_ops_spec(m)[i]).0
                != Mright::Member.spec_attr(),
{
    assert(submod_ops_spec(Mright::Member.spec_attr(), m.member) =~= Seq::<
        (Seq<char>, MyMod, Seq<Seq<char>>),
    >::empty());
    reveal_strlit("memberURL;x-member");
    reveal_strlit("memberURL;x-reader");
    reveal_strlit("memberURL;x-updater");
    reveal_strlit("memberURL;x-admin");
    assert("memberURL;x-member"@[12] == 'm');
    assert("memberURL;x-reader"@[12] == 'r');
    assert("memberURL;x-updater"@[12] == 'u');
    assert("memberURL;x-admin"@[12] == 'a');
    assert forall|i: int|
        0 <= i < direct_ops_spec(m).len() implies (#[trigger] direct_ops_spec(m)[i]).0
        != Mright::Member.spec_attr() by {
        let ops = direct_ops_spec(m);
        assert(ops[i].0 == Mright::Reader.spec_attr() || ops[i].0 == Mright::Updater.spec_attr()
            || ops[i].0 == Mright::Admin.spec_attr());
    }
}

/// Gates a node creation: the id must be valid and not the root, and the
/// principal must hold admin on the parent walk (for the trusted principal
/// the immediate parent must exist, the root implicitly existing).
pub fn check_create(
    stem_cfg: &StemConfig,
    user: &LoggedUserUrls,
    id: &str,
    parents: &Vec<ChainNode>,
) -> (r: Result<(), MyErr>)
    requires
        stem_cfg.wf(),
    ensures
        !valid_sgroup_id(id@, stem_cfg.sep(), stem_cfg.root_id@) ==> r == Result::<
            (),
            MyErr,
        >::Err(MyErr::InvalidId),
        id@ == stem_cfg.root_id@ ==> r == Result::<(), MyErr>::Err(MyErr::InvalidId),
        valid_sgroup_id(id@, stem_cfg.sep(), stem_cfg.root_id@) && id@ != stem_cfg.root_id@ ==> {
            &&& (user is TrustedAdmin && parents@.len() > 0 ==> (r is Ok <==> (
            parents@.last().entry is Some || parents@.last().id@ == stem_cfg.root_id@)))
            &&& (user is User ==> (r is Ok <==> parents_walk_grants(
                parents@,
                user->User_0@,
                stem_cfg.root_id@,
                Right::Admin,
            )))
        },
{
    if let Err(e) = stem_cfg.validate_sgroup_id(id) {
        return Err(e);
    }
    if str_eq(id, stem_cfg.root_id.as_str()) {
        return Err(MyErr::InvalidId);
    }
    check_right_on_any_parents(user, id, parents, stem_cfg.root_id.as_str(), Right::Admin)
}

/// Gates a node deletion: the id must be valid and not the root, the
/// principal must hold admin on the node or an ancestor, and a node with
/// children cannot go.
pub fn check_delete(
    stem_cfg: &StemConfig,
    user: &LoggedUserUrls,
    id: &str,
    self_entry: Option<&SearchEntry>,
    parents: &Vec<ChainNode>,
    has_children: bool,
) -> (r: Result<(), MyErr>)
    requires
        stem_cfg.wf(),
    ensures
        !valid_sgroup_id(id@, stem_cfg.sep(), stem_cfg.root_id@) ==> r == Result::<
            (),
            MyErr,
        >::Err(MyErr::InvalidId),
        id@ == stem_cfg.root_id@ ==> r == Result::<(), MyErr>::Err(MyErr::InvalidId),
        r is Ok ==> !has_children,
        valid_sgroup_id(id@, stem_cfg.sep(), stem_cfg.root_id@) && id@ != stem_cfg.root_id@
            && !has_children ==> {
            &&& (user is TrustedAdmin ==> r == Result::<(), MyErr>::Ok(()))
            &&& (user is User && self_entry is Some ==> (r is Ok <==> (entry_grants_required(
                self_entry.unwrap().attrs.deep_view(),
                user->User_0@,
                Right::Admin,
            ) || parents_walk_grants(
                parents@,
                user->User_0@,
                stem_cfg.root_id@,
                Right::Admin,
            ))))
        },
        valid_sgroup_id(id@, stem_cfg.sep(), stem_cfg.root_id@) && id@ != stem_cfg.root_id@
            && has_children && (user is TrustedAdmin || user is User && self_entry is Some
            && (entry_grants_required(
            self_entry.unwrap().attrs.deep_view(),
            user->User_0@,
            Right::Admin,
        ) || parents_walk_grants(parents@, user->User_0@, stem_cfg.root_id@, Right::Admin)))
            ==> r == Result::<(), MyErr>::Err(MyErr::ChildrenExist),
{
    if let Err(e) = stem_cfg.validate_sgroup_id(id) {
        return Err(e);
    }
    if str_eq(id, stem_cfg.root_id.as_str()) {
        return Err(MyErr::InvalidId);
    }
    if let Err(e) = check_right_on_self_or_any_parents(
        user,
        id,
        self_entry,
        parents,
        stem_cfg.root_id.as_str(),
        Right::Admin,
    ) {
        return Err(e);
    }
    if has_children {
        return Err(MyErr::ChildrenExist);
    }
    Ok(())
}

/// Turns an authorization walk's best right into the effective right of a
/// node read: a user without any right may not read the node.
pub fn require_right(best: Option<Right>, id: &str) -> (r: Result<Right, MyErr>)
    ensures
        match best {
            Some(x) => r == Result::<Right, MyErr>::Ok(x),
            None => r is Err && r->Err_0 is Forbidden && r->Err_0->Forbidden_0@ == id@,
        },
{
    match best {
        Some(x) => Ok(x),
        None => Err(MyErr::Forbidden(id.to_owned())),
    }
}

/// One plain operation for the store: which attribute, what to do, and the
/// values.
pub struct StoreOp {
    pub attr: String,
    pub kind: MyMod,
    pub values: Vec<String>,
}

impl StoreOp {
    /// The operation as specification values.
    pub open spec fn view_spec(&self) -> (Seq<char>, MyMod, Seq<Seq<char>>) {
        (self.attr@, self.kind, self.values.deep_view())
    }
}

/// The URL strings of a modification list, in order.
pub open spec fn url_seq(l: Seq<crate::my_types::UrlOpts>) -> Seq<Seq<char>> {
    l.map_values(|u: crate::my_types::UrlOpts| u.url@)
}

/// The store operations one sub-modification asks for, on the direct
/// attribute `attr`: additions, then deletions, then a replacement, each
/// only when non-empty.
pub open spec fn submod_ops_spec(attr: Seq<char>, s: SubMods) -> Seq<
    (Seq<char>, MyMod, Seq<Seq<char>>),
> {
    let ops = Seq::<(Seq<char>, MyMod, Seq<Seq<char>>)>::empty();
    let ops = if s.add@.len() > 0 {
        ops.push((attr, MyMod::Add, url_seq(s.add@)))
    } else {
        ops
    };
    let ops = if s.delete@.len() > 0 {
        ops.push((attr, MyMod::Delete, url_seq(s.delete@)))
    } else {
        ops
    };
    match s.replace {
        Some(rep) => ops.push((attr, MyMod::Replace, url_seq(rep@))),
        None => ops,
    }
}

/// The store operations a validated modification request asks for, one
/// dimension after the other.
pub open spec fn direct_ops_spec(m: MyMods) -> Seq<(Seq<char>, MyMod, Seq<Seq<char>>)> {
    submod_ops_spec(Mright::Member.spec_attr(), m.member) + submod_ops_spec(
        Mright::Reader.spec_attr(),
        m.reader,
    ) + submod_ops_spec(Mright::Updater.spec_attr(), m.updater) + submod_ops_spec(
        Mright::Admin.spec_attr(),
        m.admin,
    )
}

fn urls_vec(l: &Vec<crate::my_types::UrlOpts>) -> (r: Vec<String>)
    ensures
        r.deep_view() == url_seq(l@),
{
    let mut r: Vec<String> = Vec::new();
    let mut i: usize = 0;
    proof {
        assert(r.deep_view() =~= url_seq(l@.take(0)));
    }
    while i < l.len()
        invariant
            i <= l@.len(),
            r.deep_view() == url_seq(l@.take(i as int)),
        decreases l@.len() - i,
    {
        let ghost r0 = r.deep_view();
        r.push(l[i].url.clone());
        proof {
            assert(r.deep_view() =~= r0.push(l@[i as int].url@));
            assert(r.deep_view() =~= url_seq(l@.take(i + 1)));
        }
        i = i + 1;
    }
    proof {
        assert(l@.take(l@.len() as int) =~= l@);
    }
    r
}

fn submod_ops(mright: Mright, s: &SubMods, ops: &mut Vec<StoreOp>)
    ensures
        final(ops)@.map_values(|o: StoreOp| o.view_spec()) == old(ops)@.map_values(
            |o: StoreOp| o.view_spec(),
        ) + submod_ops_spec(mright.spec_attr(), *s),
{
    let ghost before = old(ops)@.map_values(|o: StoreOp| o.view_spec());
    if s.add.len() > 0 {
        let op = StoreOp { attr: mright.to_attr(), kind: MyMod::Add, values: urls_vec(&s.add) };
        proof {
            assert(op.view_spec() == (mright.spec_attr(), MyMod::Add, url_seq(s.add@)));
        }
        ops.push(op);
    }
    if s.delete.len() > 0 {
        let op = StoreOp {
            attr: mright.to_attr(),
            kind: MyMod::Delete,
            values: urls_vec(&s.delete),
        };
        ops.push(op);
    }
    if let Some(rep) = &s.replace {
        let op = StoreOp { attr: mright.to_attr(), kind: MyMod::Replace, values: urls_vec(rep) };
        ops.push(op);
    }
    proof {
        assert(final(ops)@.map_values(|o: StoreOp| o.view_spec()) =~= before + submod_ops_spec(
            mright.spec_attr(),
            *s,
        ));
    }
}

/// The plain store operations a validated modification request asks for:
/// per dimension, the additions, deletions and replacement of its direct
/// attribute.
pub fn direct_mods_to_store_ops(my_mods: &MyMods) -> (r: Vec<StoreOp>)
    ensures
        r@.map_values(|o: StoreOp| o.view_spec()) == direct_ops_spec(*my_mods),
{
    let mut ops: Vec<StoreOp> = Vec::new();
    submod_ops(Mright::Member, &my_mods.member, &mut ops);
    submod_ops(Mright::Reader, &my_mods.reader, &mut ops);
    submod_ops(Mright::Updater, &my_mods.updater, &mut ops);
    submod_ops(Mright::Admin, &my_mods.admin, &mut ops);
    proof {
        assert(ops@.map_values(|o: StoreOp| o.view_spec()) =~= direct_ops_spec(*my_mods));
    }
    ops
}

} // verus!
