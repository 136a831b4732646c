//! The flattening engine. For every node and membership dimension the
//! store holds a flattened set of DNs: the closure of the direct values —
//! every direct DN, and for each direct DN that is a group that group's
//! flattened members as well. An empty member closure is stored as a
//! single empty-string sentinel. The engine computes, for
//! one node and dimension, the minimal additions and removals that bring
//! the stored set to the closure, and asks for dependents to be re-visited
//! only when something actually changed — which is what lets the cascade
//! terminate on arbitrary group graphs.

use vstd::prelude::*;
use crate::my_ldap::dn_is_sgroup_spec;
use crate::my_types::{Mright, MyMods};
use crate::str_set::StrSet;
use crate::str_utils::str_eq;

verus! {

/// The flattened member sets of other groups, as specification values:
/// pairs of a group DN and its (sentinel-free) flattened member set.
pub type FlatsView = Seq<(Seq<char>, Set<Seq<char>>)>;

/// The view of a list of group flattened sets.
pub open spec fn flats_view(flats: Seq<(String, StrSet)>) -> FlatsView {
    flats.map_values(|p: (String, StrSet)| (p.0@, p.1@))
}

/// The flattened member set recorded for `dn`: the first matching entry,
/// or the empty set when none is recorded.
pub open spec fn flat_of(flats: FlatsView, dn: Seq<char>) -> Set<Seq<char>>
    decreases flats.len(),
{
    if flats.len() == 0 {
        Set::empty()
    } else if flats[0].0 == dn {
        flats[0].1
    } else {
        flat_of(flats.drop_first(), dn)
    }
}

/// Whether a flattened set is recorded for `dn`.
pub open spec fn flats_has(flats: FlatsView, dn: Seq<char>) -> bool {
    exists|i: int| 0 <= i < flats.len() && (#[trigger] flats[i]).0 == dn
}

proof fn lemma_flat_of_first_match(flats: FlatsView, dn: Seq<char>, i: int)
    requires
        0 <= i < flats.len(),
        flats[i].0 == dn,
        forall|j: int| 0 <= j < i ==> (#[trigger] flats[j]).0 != dn,
    ensures
        flat_of(flats, dn) == flats[i].1,
    decreases i,
{
    if i > 0 {
        lemma_flat_of_first_match(flats.drop_first(), dn, i - 1);
    }
}

/// The closure of a direct set: every direct DN, together with the
/// flattened member set of every direct DN that is a group.
pub open spec fn closure_spec(
    direct: Set<Seq<char>>,
    groups_dn: Seq<char>,
    flats: FlatsView,
) -> Set<Seq<char>> {
    Set::new(
        |y: Seq<char>|
            direct.contains(y) || exists|d: Seq<char>|
                #[trigger] direct.contains(d) && dn_is_sgroup_spec(d, groups_dn) && flat_of(
                    flats,
                    d,
                ).contains(y),
    )
}

/// Every direct DN lies in the closure, and so a group's flattened set
/// names its direct groups: that is what lets a dependent search over
/// flattened values find every container of a changed group.
pub proof fn lemma_closure_contains_direct(
    direct: Set<Seq<char>>,
    groups_dn: Seq<char>,
    flats: FlatsView,
)
    ensures
        direct.subset_of(closure_spec(direct, groups_dn, flats)),
{
}

/// On a direct set of plain subjects — no entry names a group — the
/// closure is the direct set itself: each entry stands for itself alone.
pub proof fn lemma_closure_of_plain_subjects(
    direct: Set<Seq<char>>,
    groups_dn: Seq<char>,
    flats: FlatsView,
)
    requires
        forall|d: Seq<char>| #[trigger] direct.contains(d) ==> !dn_is_sgroup_spec(d, groups_dn),
    ensures
        closure_spec(direct, groups_dn, flats) =~= direct,
{
}

/// Every direct group DN has a recorded flattened set.
pub open spec fn flats_cover(direct: Set<Seq<char>>, groups_dn: Seq<char>, flats: FlatsView) -> bool {
    forall|d: Seq<char>|
        #[trigger] direct.contains(d) && dn_is_sgroup_spec(d, groups_dn) ==> flats_has(flats, d)
}

/// Looks up the flattened member set recorded for `dn`.
fn find_flat<'a>(flats: &'a Vec<(String, StrSet)>, dn: &str) -> (r: Option<&'a StrSet>)
    ensures
        match r {
            Some(s) => flats_has(flats_view(flats@), dn@) && s@ == flat_of(
                flats_view(flats@),
                dn@,
            ),
            None => !flats_has(flats_view(flats@), dn@),
        },
{
    let ghost fv = flats_view(flats@);
    let mut i: usize = 0;
    while i < flats.len()
        invariant
            i <= flats@.len(),
            fv == flats_view(flats@),
            forall|j: int| 0 <= j < i ==> (#[trigger] fv[j]).0 != dn@,
        decreases flats@.len() - i,
    {
        if str_eq(flats[i].0.as_str(), dn) {
            proof {
                assert(fv[i as int].0 == dn@);
                lemma_flat_of_first_match(fv, dn@, i as int);
            }
            return Some(&flats[i].1);
        }
        i = i + 1;
    }
    proof {
        if flats_has(fv, dn@) {
            let j = choose|j: int| 0 <= j < fv.len() && (#[trigger] fv[j]).0 == dn@;
            assert(false);
        }
    }
    None
}

/// Resolves a direct DN set into its closure, reading each direct group's
/// flattened members from `group_flats`; nothing when some direct group
/// has no recorded set.
pub fn get_flattened_dns(
    cfg_groups_dn: &str,
    direct_dns: &StrSet,
    group_flats: &Vec<(String, StrSet)>,
) -> (r: Option<StrSet>)
    ensures
        match r {
            Some(s) => flats_cover(direct_dns@, cfg_groups_dn@, flats_view(group_flats@)) && s@
                == closure_spec(direct_dns@, cfg_groups_dn@, flats_view(group_flats@)),
            None => !flats_cover(direct_dns@, cfg_groups_dn@, flats_view(group_flats@)),
        },
{
    let ghost gd = cfg_groups_dn@;
    let ghost fv = flats_view(group_flats@);
    let ghost direct = direct_dns@;
    let elems = direct_dns.elems();
    let ghost edv = elems.deep_view();
    let mut acc = StrSet::new();
    let suffix = crate::str_utils::concat2(",", cfg_groups_dn);
    let mut i: usize = 0;
    while i < elems.len()
        invariant
            i <= elems@.len(),
            edv == elems.deep_view(),
            direct == direct_dns@,
            edv.to_set() == direct,
            fv == flats_view(group_flats@),
            gd == cfg_groups_dn@,
            suffix@ == ","@ + gd,
            forall|k: int|
                0 <= k < i && dn_is_sgroup_spec(#[trigger] edv[k], gd) ==> flats_has(fv, edv[k]),
            forall|y: Seq<char>|
                #[trigger] acc@.contains(y) ==> direct.contains(y) || exists|d: Seq<char>|
                    #[trigger] direct.contains(d) && dn_is_sgroup_spec(d, gd) && flat_of(
                        fv,
                        d,
                    ).contains(y),
            forall|k: int| 0 <= k < i ==> acc@.contains(#[trigger] edv[k]),
            forall|k: int, y: Seq<char>|
                0 <= k < i && dn_is_sgroup_spec(#[trigger] edv[k], gd) && flat_of(
                    fv,
                    edv[k],
                ).contains(y) ==> #[trigger] acc@.contains(y),
        decreases elems@.len() - i,
    {
        proof {
            assert(edv[i as int] == elems@[i as int]@);
            assert(edv.to_set().contains(edv[i as int]));
        }
        acc.insert(elems[i].clone());
        if crate::str_utils::ends_with_str(elems[i].as_str(), suffix.as_str()) {
            match find_flat(group_flats, elems[i].as_str()) {
                Some(f) => {
                    acc = acc.union(f);
                },
                None => {
                    return None;
                },
            }
        }
        i = i + 1;
    }
    proof {
        assert forall|d: Seq<char>|
            #[trigger] direct.contains(d) && dn_is_sgroup_spec(d, gd) implies flats_has(
            fv,
            d,
        ) by {
            let k = choose|k: int| 0 <= k < edv.len() && edv[k] == d;
        }
        assert forall|y: Seq<char>| #[trigger]
            closure_spec(direct, gd, fv).contains(y) implies acc@.contains(y) by {
            if direct.contains(y) {
                let k = choose|k: int| 0 <= k < edv.len() && edv[k] == y;
            } else {
                let d = choose|d: Seq<char>|
                    #[trigger] direct.contains(d) && dn_is_sgroup_spec(d, gd) && flat_of(
                        fv,
                        d,
                    ).contains(y);
                let k = choose|k: int| 0 <= k < edv.len() && edv[k] == d;
            }
        }
        assert(acc@ =~= closure_spec(direct, gd, fv));
    }
    Some(acc)
}

/// Stores an empty member closure as the single empty-string sentinel;
/// every other closure is stored as it is.
pub open spec fn with_member_sentinel(s: Set<Seq<char>>, mright: Mright) -> Set<Seq<char>> {
    if mright == Mright::Member && s == Set::<Seq<char>>::empty() {
        set![Seq::<char>::empty()]
    } else {
        s
    }
}

/// Applies the empty-member sentinel: an empty member closure becomes the
/// set holding the empty string.
pub fn apply_member_sentinel(s: StrSet, mright: Mright) -> (r: StrSet)
    ensures
        r@ == with_member_sentinel(s@, mright),
{
    if mright == Mright::Member && s.is_empty() {
        let mut r = s;
        r.insert(String::new());
        proof {
            assert(r@ =~= set![Seq::<char>::empty()]);
        }
        r
    } else {
        s
    }
}

/// The minimal update that brings the stored flattened values to the goal:
/// what to add and what to remove.
pub fn flattened_delta(goal: &StrSet, current: &StrSet) -> (r: (StrSet, StrSet))
    ensures
        r.0@ == goal@.difference(current@),
        r.1@ == current@.difference(goal@),
{
    (goal.difference(current), current.difference(goal))
}

/// Applying the computed delta to the stored set yields exactly the goal:
/// one update restores the flattening invariant for the node.
pub proof fn lemma_delta_restores_goal(goal: Set<Seq<char>>, current: Set<Seq<char>>)
    ensures
        current.union(goal.difference(current)).difference(current.difference(goal)) =~= goal,
{
}

/// The delta is empty exactly when the stored set already equals the
/// goal: a converged node performs no write and enqueues no dependents,
/// which is what makes the cascade reach a fixed point.
pub proof fn lemma_empty_delta_iff_converged(goal: Set<Seq<char>>, current: Set<Seq<char>>)
    ensures
        (goal.difference(current) =~= Set::<Seq<char>>::empty() && current.difference(goal)
            =~= Set::<Seq<char>>::empty()) <==> goal =~= current,
{
    if goal.difference(current) =~= Set::<Seq<char>>::empty() && current.difference(goal)
        =~= Set::<Seq<char>>::empty() {
        assert forall|x: Seq<char>| #[trigger] goal.contains(x) implies current.contains(x) by {
            if !current.contains(x) {
                assert(goal.difference(current).contains(x));
            }
        }
        assert forall|x: Seq<char>| #[trigger] current.contains(x) implies goal.contains(x) by {
            if !goal.contains(x) {
                assert(current.difference(goal).contains(x));
            }
        }
        assert(goal =~= current);
    }
    if goal =~= current {
        assert(goal.difference(current) =~= Set::<Seq<char>>::empty());
        assert(current.difference(goal) =~= Set::<Seq<char>>::empty());
    }
}

/// Deleting a group DN from a direct set and adding it back restores the
/// direct set, and with it the stored flattened member set: the closure
/// and its sentinel form are functions of the direct set alone.
pub proof fn lemma_delete_readd_restores(
    direct: Set<Seq<char>>,
    g: Seq<char>,
    groups_dn: Seq<char>,
    flats: FlatsView,
)
    requires
        direct.contains(g),
    ensures
        direct.difference(set![g]).union(set![g]) =~= direct,
        with_member_sentinel(
            closure_spec(direct.difference(set![g]).union(set![g]), groups_dn, flats),
            Mright::Member,
        ) == with_member_sentinel(closure_spec(direct, groups_dn, flats), Mright::Member),
{
    assert(direct.difference(set![g]).union(set![g]) =~= direct);
}

/// One flattening step for a node and dimension, from what was read to
/// what must be written: the closure of the direct DNs (with the empty
/// member sentinel), diffed against the stored flattened values. Nothing
/// when some direct group has no recorded flattened set. Dependents need
/// re-visiting exactly when the returned delta is non-empty and the
/// dimension is member.
pub fn may_update_flattened_mrights_(
    cfg_groups_dn: &str,
    direct_dns: &StrSet,
    group_flats: &Vec<(String, StrSet)>,
    current_raw: &Vec<String>,
    mright: Mright,
) -> (r: Option<(StrSet, StrSet)>)
    ensures
        match r {
            Some(delta) => {
                let goal = with_member_sentinel(
                    closure_spec(direct_dns@, cfg_groups_dn@, flats_view(group_flats@)),
                    mright,
                );
                let current = current_raw.deep_view().to_set();
                &&& flats_cover(direct_dns@, cfg_groups_dn@, flats_view(group_flats@))
                &&& delta.0@ == goal.difference(current)
                &&& delta.1@ == current.difference(goal)
            },
            None => !flats_cover(direct_dns@, cfg_groups_dn@, flats_view(group_flats@)),
        },
{
    let closure = match get_flattened_dns(cfg_groups_dn, direct_dns, group_flats) {
        Some(c) => c,
        None => {
            return None;
        },
    };
    let goal = apply_member_sentinel(closure, mright);
    let current = StrSet::from_vec(current_raw);
    Some(flattened_delta(&goal, &current))
}

/// The work still to do in a flattening cascade: node and dimension
/// pairs, taken from the end.
pub struct FlattenWorklist {
    todo: Vec<(String, Mright)>,
}

/// The view of a worklist item.
pub open spec fn job_view(p: (String, Mright)) -> (Seq<char>, Mright) {
    (p.0@, p.1)
}

impl FlattenWorklist {
    /// The jobs still queued, next-to-run last.
    pub closed spec fn view(&self) -> Seq<(Seq<char>, Mright)> {
        self.todo@.map_values(|p: (String, Mright)| job_view(p))
    }

    /// A worklist holding the given seed jobs.
    pub fn new(seed: Vec<(String, Mright)>) -> (r: FlattenWorklist)
        ensures
            r@ == seed@.map_values(|p: (String, Mright)| job_view(p)),
    {
        FlattenWorklist { todo: seed }
    }

    /// Takes the next job, newest first; nothing when the cascade is done.
    pub fn pop(&mut self) -> (r: Option<(String, Mright)>)
        ensures
            old(self)@.len() == 0 ==> r is None && final(self)@ == old(self)@,
            old(self)@.len() > 0 ==> r is Some && job_view(r.unwrap()) == old(self)@.last()
                && final(self)@ == old(self)@.drop_last(),
    {
        let r = self.todo.pop();
        proof {
            if old(self)@.len() > 0 {
                assert(final(self)@ =~= old(self)@.drop_last());
            } else {
                assert(final(self)@ =~= old(self)@);
            }
        }
        r
    }

    /// Queues the dependents that a changed node requires re-visiting.
    pub fn append_dependents(&mut self, mut more: Vec<(String, Mright)>)
        ensures
            final(self)@ == old(self)@ + more@.map_values(|p: (String, Mright)| job_view(p)),
    {
        let ghost mv = more@;
        self.todo.append(&mut more);
        proof {
            assert(final(self)@ =~= old(self)@ + mv.map_values(
                |p: (String, Mright)| job_view(p),
            ));
        }
    }

    /// How many jobs are queued.
    pub fn len(&self) -> (r: usize)
        ensures
            r == self@.len(),
    {
        self.todo.len()
    }
}

/// Pairs the node ids a dependent search returned with the dimension the
/// search was made for.
pub fn pair_with_mright(ids: Vec<String>, mright: Mright) -> (r: Vec<(String, Mright)>)
    ensures
        r@.len() == ids@.len(),
        forall|i: int|
            0 <= i < ids@.len() ==> (#[trigger] r@[i]).0 == ids@[i] && r@[i].1 == mright,
{
    let mut r: Vec<(String, Mright)> = Vec::new();
    let mut i: usize = 0;
    while i < ids.len()
        invariant
            i <= ids@.len(),
            r@.len() == i,
            forall|j: int| 0 <= j < i ==> (#[trigger] r@[j]).0 == ids@[j] && r@[j].1 == mright,
        decreases ids@.len() - i,
    {
        r.push((ids[i].clone(), mright));
        i = i + 1;
    }
    r
}

/// The flattening jobs a direct modification seeds: nothing for a stem,
/// one job per touched dimension for a group.
pub fn todo_flattened(is_stem: bool, id: &str, my_mods: &MyMods) -> (r: Vec<(String, Mright)>)
    ensures
        is_stem ==> r@.len() == 0,
        !is_stem ==> r@.map_values(|p: (String, Mright)| job_view(p)) == seed_jobs_spec(
            id@,
            *my_mods,
        ),
{
    let mut r: Vec<(String, Mright)> = Vec::new();
    if is_stem {
        return r;
    }
    if !my_mods.member.is_empty() {
        r.push((id.to_owned(), Mright::Member));
    }
    if !my_mods.reader.is_empty() {
        r.push((id.to_owned(), Mright::Reader));
    }
    if !my_mods.updater.is_empty() {
        r.push((id.to_owned(), Mright::Updater));
    }
    if !my_mods.admin.is_empty() {
        r.push((id.to_owned(), Mright::Admin));
    }
    proof {
        assert(r@.map_values(|p: (String, Mright)| job_view(p)) =~= seed_jobs_spec(
            id@,
            *my_mods,
        ));
    }
    r
}

/// The jobs a group modification seeds: one per non-empty dimension, in
/// dimension order.
pub open spec fn seed_jobs_spec(id: Seq<char>, m: MyMods) -> Seq<(Seq<char>, Mright)> {
    let s = Seq::<(Seq<char>, Mright)>::empty();
    let s = if !m.member.is_empty_spec() {
        s.push((id, Mright::Member))
    } else {
        s
    };
    let s = if !m.reader.is_empty_spec() {
        s.push((id, Mright::Reader))
    } else {
        s
    };
    let s = if !m.updater.is_empty_spec() {
        s.push((id, Mright::Updater))
    } else {
        s
    };
    if !m.admin.is_empty_spec() {
        s.push((id, Mright::Admin))
    } else {
        s
    }
}

} // verus!
