//! The authorization resolver. A principal's identity surface is the set
//! of URLs that can stand for it in a direct-right value: its own DN and
//! the DN of every group whose flattened member set holds it. A node grants
//! a right when one of its direct-right values lies in that surface; a
//! request is allowed when the node or one of its ancestors grants a
//! sufficient right, and the best right of a user on a node is the highest
//! right granted anywhere on the chain.

use vstd::prelude::*;
use crate::ldap_wrapper::{has_attr, values_of, SearchEntry};
use crate::my_ldap::dn_to_url_spec;
use crate::my_types::{LoggedUserUrls, MyErr, Right};
use crate::my_ldap::dn_to_url;
use crate::str_set::StrSet;

verus! {

/// The attributes of one directory entry, as specification values.
pub type AttrsView = Seq<(Seq<char>, Seq<Seq<char>>)>;

/// One node of an ancestor chain: its id and its entry, when it exists in
/// the store.
pub struct ChainNode {
    pub id: String,
    pub entry: Option<SearchEntry>,
}

impl ChainNode {
    /// The attributes of the node's entry, when present.
    pub open spec fn attrs_view(&self) -> Option<AttrsView> {
        match self.entry {
            Some(e) => Some(e.attrs.deep_view()),
            None => None,
        }
    }
}

/// The values stored under the direct attribute of right `held`.
pub open spec fn right_values(attrs: AttrsView, held: Right) -> Seq<Seq<char>> {
    values_of(attrs, held.to_mright_spec().spec_attr())
}

/// The entry grants right `held` to a principal whose identity surface is
/// `urls`: some stored value of that right's attribute lies in the surface.
pub open spec fn entry_grants(attrs: AttrsView, urls: Set<Seq<char>>, held: Right) -> bool {
    exists|k: int|
        0 <= k < right_values(attrs, held).len() && urls.contains(
            #[trigger] right_values(attrs, held)[k],
        )
}

/// The entry grants some right satisfying the requirement `required`.
pub open spec fn entry_grants_required(
    attrs: AttrsView,
    urls: Set<Seq<char>>,
    required: Right,
) -> bool {
    exists|held: Right| held.satisfies(required) && #[trigger] entry_grants(attrs, urls, held)
}

/// The highest right the entry grants, if any.
pub open spec fn entry_best_right(attrs: AttrsView, urls: Set<Seq<char>>) -> Option<Right> {
    if entry_grants(attrs, urls, Right::Admin) {
        Some(Right::Admin)
    } else if entry_grants(attrs, urls, Right::Updater) {
        Some(Right::Updater)
    } else if entry_grants(attrs, urls, Right::Reader) {
        Some(Right::Reader)
    } else {
        None
    }
}

/// The rank of an optional right: no right ranks below every right.
pub open spec fn opt_right_lvl(r: Option<Right>) -> int {
    match r {
        Some(right) => right.lvl(),
        None => 0,
    }
}

/// The higher of two optional rights.
pub open spec fn opt_right_max(a: Option<Right>, b: Option<Right>) -> Option<Right> {
    if opt_right_lvl(b) > opt_right_lvl(a) {
        b
    } else {
        a
    }
}

/// The highest right an absent entry grants: none.
pub open spec fn node_best(n: Option<AttrsView>, urls: Set<Seq<char>>) -> Option<Right> {
    match n {
        Some(attrs) => entry_best_right(attrs, urls),
        None => None,
    }
}

/// The highest right granted by any node of a chain.
pub open spec fn best_of_chain(chain: Seq<Option<AttrsView>>, urls: Set<Seq<char>>) -> Option<
    Right,
>
    decreases chain.len(),
{
    if chain.len() == 0 {
        None
    } else {
        opt_right_max(best_of_chain(chain.drop_last(), urls), node_best(chain.last(), urls))
    }
}

/// Some node of the chain grants a right satisfying `required`.
pub open spec fn chain_grants(
    chain: Seq<Option<AttrsView>>,
    urls: Set<Seq<char>>,
    required: Right,
) -> bool {
    exists|i: int|
        0 <= i < chain.len() && (#[trigger] chain[i]) is Some && entry_grants_required(
            chain[i].unwrap(),
            urls,
            required,
        )
}

/// A granted right bounds an entry's best right from below.
proof fn lemma_entry_best_at_least(attrs: AttrsView, urls: Set<Seq<char>>, held: Right)
    requires
        entry_grants(attrs, urls, held),
    ensures
        opt_right_lvl(entry_best_right(attrs, urls)) >= held.lvl(),
{
}

/// An entry's best right is itself granted.
proof fn lemma_entry_best_granted(attrs: AttrsView, urls: Set<Seq<char>>)
    requires
        entry_best_right(attrs, urls) is Some,
    ensures
        entry_grants(attrs, urls, entry_best_right(attrs, urls).unwrap()),
{
}

/// Authorization is monotonic along the chain: a right granted on any node
/// of the chain bounds the best right of the whole chain from below. In
/// particular, a right held on an ancestor of a node bounds the user's
/// best right on the node.
pub proof fn lemma_best_right_monotonic(
    chain: Seq<Option<AttrsView>>,
    urls: Set<Seq<char>>,
    i: int,
    held: Right,
)
    requires
        0 <= i < chain.len(),
        chain[i] is Some,
        entry_grants(chain[i].unwrap(), urls, held),
    ensures
        opt_right_lvl(best_of_chain(chain, urls)) >= held.lvl(),
    decreases chain.len(),
{
    if i == chain.len() - 1 {
        lemma_entry_best_at_least(chain[i].unwrap(), urls, held);
    } else {
        lemma_best_right_monotonic(chain.drop_last(), urls, i, held);
    }
}

/// Authorization is monotonic in the chain itself: the best right over a
/// chain is at least the best right over any prefix of it. Since an
/// ancestor's chain is a prefix of its descendant's chain, a user's best
/// right on a node is at least its best right on any ancestor.
pub proof fn lemma_best_right_chain_prefix(
    chain: Seq<Option<AttrsView>>,
    urls: Set<Seq<char>>,
    n: int,
)
    requires
        0 <= n <= chain.len(),
    ensures
        opt_right_lvl(best_of_chain(chain, urls)) >= opt_right_lvl(
            best_of_chain(chain.take(n), urls),
        ),
    decreases chain.len() - n,
{
    if n == chain.len() {
        assert(chain.take(n) =~= chain);
    } else {
        lemma_best_right_chain_prefix(chain, urls, n + 1);
        assert(chain.take(n + 1).drop_last() =~= chain.take(n));
        assert(chain.take(n + 1).last() == chain[n]);
    }
}

/// The best right of a chain is granted by one of its nodes.
pub proof fn lemma_best_of_chain_granted(chain: Seq<Option<AttrsView>>, urls: Set<Seq<char>>)
    requires
        best_of_chain(chain, urls) is Some,
    ensures
        exists|i: int|
            0 <= i < chain.len() && (#[trigger] chain[i]) is Some && entry_grants(
                chain[i].unwrap(),
                urls,
                best_of_chain(chain, urls).unwrap(),
            ),
    decreases chain.len(),
{
    let best = best_of_chain(chain, urls);
    let last = chain.len() - 1;
    if node_best(chain.last(), urls) == best {
        lemma_entry_best_granted(chain[last].unwrap(), urls);
        assert(chain[last] is Some && entry_grants(chain[last].unwrap(), urls, best.unwrap()));
    } else {
        lemma_best_of_chain_granted(chain.drop_last(), urls);
        let i = choose|i: int|
            0 <= i < chain.drop_last().len() && (#[trigger] chain.drop_last()[i]) is Some
                && entry_grants(
                chain.drop_last()[i].unwrap(),
                urls,
                best_of_chain(chain.drop_last(), urls).unwrap(),
            );
        assert(chain[i] is Some && entry_grants(chain[i].unwrap(), urls, best.unwrap()));
    }
}

/// A chain whose best right is admin grants every required right.
pub proof fn lemma_admin_implies_all(
    chain: Seq<Option<AttrsView>>,
    urls: Set<Seq<char>>,
    required: Right,
)
    requires
        best_of_chain(chain, urls) == Some(Right::Admin),
    ensures
        chain_grants(chain, urls, required),
{
    lemma_best_of_chain_granted(chain, urls);
    let i = choose|i: int|
        0 <= i < chain.len() && (#[trigger] chain[i]) is Some && entry_grants(
            chain[i].unwrap(),
            urls,
            Right::Admin,
        );
    assert(Right::Admin.satisfies(required));
    assert(entry_grants_required(chain[i].unwrap(), urls, required));
}

/// Whether the entry grants the single right `held` to the surface `urls`.
fn has_right_value(e: &SearchEntry, urls: &StrSet, held: Right) -> (r: bool)
    ensures
        r == entry_grants(e.attrs.deep_view(), urls@, held),
{
    let attr = held.to_attr();
    match e.get_attr_values(attr.as_str()) {
        Some(vals) => {
            let ghost vdv = vals.deep_view();
            let mut k: usize = 0;
            while k < vals.len()
                invariant
                    k <= vals@.len(),
                    vdv == vals.deep_view(),
                    vdv == right_values(e.attrs.deep_view(), held),
                    forall|j: int| 0 <= j < k ==> !urls@.contains(#[trigger] vdv[j]),
                decreases vals@.len() - k,
            {
                if urls.contains(vals[k].as_str()) {
                    proof {
                        assert(urls@.contains(vdv[k as int]));
                    }
                    return true;
                }
                k = k + 1;
            }
            proof {
                if entry_grants(e.attrs.deep_view(), urls@, held) {
                    let j = choose|j: int|
                        0 <= j < right_values(e.attrs.deep_view(), held).len() && urls@.contains(
                            #[trigger] right_values(e.attrs.deep_view(), held)[j],
                        );
                    assert(false);
                }
            }
            false
        },
        None => {
            proof {
                crate::ldap_wrapper::lemma_values_of_empty_when_absent(
                    e.attrs.deep_view(),
                    held.to_mright_spec().spec_attr(),
                );
            }
            false
        },
    }
}

/// Whether the entry grants some right satisfying `required`.
pub fn entry_has_required_right(e: &SearchEntry, urls: &StrSet, required: Right) -> (r: bool)
    ensures
        r == entry_grants_required(e.attrs.deep_view(), urls@, required),
{
    let allowed = required.to_allowed_rights();
    let mut i: usize = 0;
    while i < allowed.len()
        invariant
            i <= allowed@.len(),
            allowed@ == required.to_allowed_rights_spec(),
            forall|j: int|
                0 <= j < i ==> !entry_grants(e.attrs.deep_view(), urls@, #[trigger] allowed@[j]),
        decreases allowed@.len() - i,
    {
        if has_right_value(e, urls, allowed[i]) {
            proof {
                assert(allowed@[i as int].satisfies(required));
            }
            return true;
        }
        i = i + 1;
    }
    proof {
        if entry_grants_required(e.attrs.deep_view(), urls@, required) {
            let held = choose|held: Right|
                held.satisfies(required) && #[trigger] entry_grants(
                    e.attrs.deep_view(),
                    urls@,
                    held,
                );
            let j = choose|j: int|
                0 <= j < allowed@.len() && allowed@[j] == held;
            assert(false);
        }
    }
    false
}

/// The highest right the entry grants, if any.
pub fn entry_highest_right(e: &SearchEntry, urls: &StrSet) -> (r: Option<Right>)
    ensures
        r == entry_best_right(e.attrs.deep_view(), urls@),
{
    if has_right_value(e, urls, Right::Admin) {
        Some(Right::Admin)
    } else if has_right_value(e, urls, Right::Updater) {
        Some(Right::Updater)
    } else if has_right_value(e, urls, Right::Reader) {
        Some(Right::Reader)
    } else {
        None
    }
}

/// The rank of an optional right.
fn opt_lvl(o: &Option<Right>) -> (r: u8)
    ensures
        r as int == opt_right_lvl(*o),
{
    match o {
        Some(right) => right.lvl_code(),
        None => 0,
    }
}

/// Whether a node with this entry grants a right satisfying `right`: a
/// missing node is an error, but a missing root stem reads as granting
/// nothing.
pub fn user_has_right_on_sgroup(
    entry: Option<&SearchEntry>,
    user_urls: &StrSet,
    id: &str,
    root_id: &str,
    right: Right,
) -> (r: Result<bool, MyErr>)
    ensures
        match entry {
            Some(e) => r == Result::<bool, MyErr>::Ok(
                entry_grants_required(e.attrs.deep_view(), user_urls@, right),
            ),
            None => if id@ == root_id@ {
                r == Result::<bool, MyErr>::Ok(false)
            } else {
                r is Err && r->Err_0 is NotFound
            },
        },
{
    match entry {
        Some(e) => Ok(entry_has_required_right(e, user_urls, right)),
        None => {
            if crate::str_utils::str_eq(id, root_id) {
                Ok(false)
            } else {
                Err(MyErr::NotFound(id.to_owned()))
            }
        },
    }
}

/// The highest right a node with this entry grants: a missing node is an
/// error, but a missing root stem reads as granting nothing.
pub fn user_highest_right_on_stem(
    entry: Option<&SearchEntry>,
    user_urls: &StrSet,
    id: &str,
    root_id: &str,
) -> (r: Result<Option<Right>, MyErr>)
    ensures
        match entry {
            Some(e) => r == Result::<Option<Right>, MyErr>::Ok(
                entry_best_right(e.attrs.deep_view(), user_urls@),
            ),
            None => if id@ == root_id@ {
                r == Result::<Option<Right>, MyErr>::Ok(None)
            } else {
                r is Err && r->Err_0 is NotFound
            },
        },
{
    match entry {
        Some(e) => Ok(entry_highest_right(e, user_urls)),
        None => {
            if crate::str_utils::str_eq(id, root_id) {
                Ok(None)
            } else {
                Err(MyErr::NotFound(id.to_owned()))
            }
        },
    }
}

/// The parent walk grants the required right: walking root-first, a
/// present ancestor may grant it, a missing root grants nothing and the
/// walk goes on, and a missing ancestor ends the walk without a grant.
pub open spec fn parents_walk_grants(
    s: Seq<ChainNode>,
    urls: Set<Seq<char>>,
    root: Seq<char>,
    required: Right,
) -> bool
    decreases s.len(),
{
    if s.len() == 0 {
        false
    } else {
        match s[0].attrs_view() {
            Some(a) => entry_grants_required(a, urls, required) || parents_walk_grants(
                s.drop_first(),
                urls,
                root,
                required,
            ),
            None => s[0].id@ == root && parents_walk_grants(
                s.drop_first(),
                urls,
                root,
                required,
            ),
        }
    }
}

/// Walks the ancestors root-first and succeeds as soon as one grants a
/// right satisfying `right`; an exhausted or interrupted walk is
/// `Forbidden`.
pub fn check_user_right_on_any_parents(
    parents: &Vec<ChainNode>,
    user_urls: &StrSet,
    id: &str,
    root_id: &str,
    right: Right,
) -> (r: Result<(), MyErr>)
    ensures
        r is Ok <==> parents_walk_grants(parents@, user_urls@, root_id@, right),
        r is Err ==> r->Err_0 is Forbidden && r->Err_0->Forbidden_0@ == id@,
{
    let ghost pv = parents@;
    let mut i: usize = 0;
    proof {
        assert(pv.skip(0) =~= pv);
    }
    while i < parents.len()
        invariant
            i <= parents@.len(),
            pv == parents@,
            parents_walk_grants(pv.skip(i as int), user_urls@, root_id@, right)
                == parents_walk_grants(pv, user_urls@, root_id@, right),
        decreases parents@.len() - i,
    {
        proof {
            assert(pv.skip(i as int).len() > 0);
            assert(pv.skip(i as int)[0] == pv[i as int]);
            assert(pv.skip(i as int).drop_first() =~= pv.skip(i + 1));
        }
        match &parents[i].entry {
            Some(e) => {
                if entry_has_required_right(e, user_urls, right) {
                    return Ok(());
                }
            },
            None => {
                if !crate::str_utils::str_eq(parents[i].id.as_str(), root_id) {
                    return Err(MyErr::Forbidden(id.to_owned()));
                }
            },
        }
        i = i + 1;
    }
    proof {
        assert(pv.skip(pv.len() as int).len() == 0);
    }
    Err(MyErr::Forbidden(id.to_owned()))
}

/// Checks a right on the node itself or any of its ancestors. The trusted
/// principal passes outright; a user passes when the node itself grants a
/// sufficient right or the parent walk does. A missing non-root node is
/// `NotFound`.
pub fn check_right_on_self_or_any_parents(
    user: &LoggedUserUrls,
    id: &str,
    self_entry: Option<&SearchEntry>,
    parents: &Vec<ChainNode>,
    root_id: &str,
    right: Right,
) -> (r: Result<(), MyErr>)
    ensures
        user is TrustedAdmin ==> r == Result::<(), MyErr>::Ok(()),
        user is User && self_entry is Some && entry_grants_required(
            self_entry.unwrap().attrs.deep_view(),
            user->User_0@,
            right,
        ) ==> r == Result::<(), MyErr>::Ok(()),
        user is User && self_entry is None && id@ != root_id@ ==> r is Err
            && r->Err_0 is NotFound,
        user is User && (self_entry matches Some(e) && !entry_grants_required(
            e.attrs.deep_view(),
            user->User_0@,
            right,
        ) || self_entry is None && id@ == root_id@) ==> (r is Ok <==> parents_walk_grants(
            parents@,
            user->User_0@,
            root_id@,
            right,
        )) && (r is Err ==> r->Err_0 is Forbidden),
{
    match user {
        LoggedUserUrls::TrustedAdmin => Ok(()),
        LoggedUserUrls::User(urls) => {
            match user_has_right_on_sgroup(self_entry, urls, id, root_id, right) {
                Err(e) => Err(e),
                Ok(true) => Ok(()),
                Ok(false) => check_user_right_on_any_parents(parents, urls, id, root_id, right),
            }
        },
    }
}

/// Checks a right on any ancestor of a node about to be created. The
/// trusted principal only needs the immediate parent to exist (the root
/// implicitly does); a user needs a grant on the parent walk.
pub fn check_right_on_any_parents(
    user: &LoggedUserUrls,
    id: &str,
    parents: &Vec<ChainNode>,
    root_id: &str,
    right: Right,
) -> (r: Result<(), MyErr>)
    ensures
        user is TrustedAdmin && parents@.len() == 0 ==> r == Result::<(), MyErr>::Ok(()),
        user is TrustedAdmin && parents@.len() > 0 ==> (r is Ok <==> (parents@.last().entry
            is Some || parents@.last().id@ == root_id@)) && (r is Err ==> r->Err_0 is NotFound),
        user is User ==> (r is Ok <==> parents_walk_grants(
            parents@,
            user->User_0@,
            root_id@,
            right,
        )) && (r is Err ==> r->Err_0 is Forbidden),
{
    match user {
        LoggedUserUrls::TrustedAdmin => {
            if parents.len() == 0 {
                return Ok(());
            }
            let last = &parents[parents.len() - 1];
            match &last.entry {
                Some(_) => Ok(()),
                None => {
                    if crate::str_utils::str_eq(last.id.as_str(), root_id) {
                        Ok(())
                    } else {
                        Err(MyErr::NotFound(last.id.clone()))
                    }
                },
            }
        },
        LoggedUserUrls::User(urls) => {
            check_user_right_on_any_parents(parents, urls, id, root_id, right)
        },
    }
}

/// The attribute views of a chain, in walk order.
pub open spec fn chain_attr_views(s: Seq<ChainNode>) -> Seq<Option<AttrsView>> {
    s.map_values(|n: ChainNode| n.attrs_view())
}

/// Every node of the chain is present in the store or is the root stem.
pub open spec fn all_present_or_root(s: Seq<ChainNode>, root: Seq<char>) -> bool {
    forall|i: int| 0 <= i < s.len() ==> (#[trigger] s[i]).entry is Some || s[i].id@ == root
}

/// The best right of the principal over the whole chain (the node and all
/// its ancestors). The trusted principal holds admin everywhere; for a
/// user the walk reads every node, a missing root granting nothing and any
/// other missing node being `NotFound`.
pub fn best_right_on_self_or_any_parents(
    user: &LoggedUserUrls,
    chain: &Vec<ChainNode>,
    root_id: &str,
) -> (r: Result<Option<Right>, MyErr>)
    ensures
        user is TrustedAdmin ==> r == Result::<Option<Right>, MyErr>::Ok(Some(Right::Admin)),
        user is User && all_present_or_root(chain@, root_id@) ==> r == Result::<
            Option<Right>,
            MyErr,
        >::Ok(best_of_chain(chain_attr_views(chain@), user->User_0@)),
        user is User && !all_present_or_root(chain@, root_id@) ==> r is Err
            && r->Err_0 is NotFound,
{
    let urls = match user {
        LoggedUserUrls::TrustedAdmin => {
            return Ok(Some(Right::Admin));
        },
        LoggedUserUrls::User(urls) => urls,
    };
    let ghost cv = chain@;
    let ghost views = chain_attr_views(chain@);
    let mut best: Option<Right> = None;
    proof {
        assert(views.take(0) =~= Seq::<Option<AttrsView>>::empty());
    }
    let mut i: usize = 0;
    while i < chain.len()
        invariant
            i <= chain@.len(),
            cv == chain@,
            views == chain_attr_views(chain@),
            user is User && user->User_0@ == urls@,
            best == best_of_chain(views.take(i as int), urls@),
            forall|j: int| 0 <= j < i ==> (#[trigger] cv[j]).entry is Some || cv[j].id@ == root_id@,
        decreases chain@.len() - i,
    {
        let node_right: Option<Right> = match &chain[i].entry {
            Some(e) => entry_highest_right(e, urls),
            None => {
                if crate::str_utils::str_eq(chain[i].id.as_str(), root_id) {
                    None
                } else {
                    proof {
                        assert(!((#[trigger] cv[i as int]).entry is Some || cv[i as int].id@
                            == root_id@));
                    }
                    return Err(MyErr::NotFound(chain[i].id.clone()));
                }
            },
        };
        if opt_lvl(&node_right) > opt_lvl(&best) {
            best = node_right;
        }
        proof {
            assert(views[i as int] == cv[i as int].attrs_view());
            assert(views.take(i + 1).drop_last() =~= views.take(i as int));
            assert(views.take(i + 1).last() == views[i as int]);
            assert(node_right == node_best(views[i as int], urls@));
            assert(best == opt_right_max(
                best_of_chain(views.take(i as int), urls@),
                node_best(views[i as int], urls@),
            ));
        }
        i = i + 1;
    }
    proof {
        assert(views.take(views.len() as int) =~= views);
    }
    Ok(best)
}

/// The identity surface of a user: the URL of its own DN and of every
/// group DN whose flattened member set holds it.
pub fn user_urls(user_dn: &str, group_dns: &Vec<String>) -> (r: StrSet)
    ensures
        r@.contains(dn_to_url_spec(user_dn@)),
        forall|j: int|
            0 <= j < group_dns@.len() ==> r@.contains(
                dn_to_url_spec(#[trigger] group_dns.deep_view()[j]),
            ),
        forall|y: Seq<char>|
            r@.contains(y) ==> y == dn_to_url_spec(user_dn@) || exists|j: int|
                0 <= j < group_dns@.len() && y == dn_to_url_spec(
                    #[trigger] group_dns.deep_view()[j],
                ),
{
    let ghost dv = group_dns.deep_view();
    let mut r = StrSet::new();
    r.insert(dn_to_url(user_dn));
    let mut i: usize = 0;
    while i < group_dns.len()
        invariant
            i <= group_dns@.len(),
            dv == group_dns.deep_view(),
            r@.contains(dn_to_url_spec(user_dn@)),
            forall|j: int| 0 <= j < i ==> r@.contains(dn_to_url_spec(#[trigger] dv[j])),
            forall|y: Seq<char>|
                r@.contains(y) ==> y == dn_to_url_spec(user_dn@) || exists|j: int|
                    0 <= j < i && y == dn_to_url_spec(#[trigger] dv[j]),
        decreases group_dns@.len() - i,
    {
        proof {
            assert(dv[i as int] == group_dns@[i as int]@);
        }
        r.insert(dn_to_url(group_dns[i].as_str()));
        i = i + 1;
    }
    r
}

} // verus!
