//! The mutation validator and simplifier. A modification request is
//! checked (stems take no members; remote query URLs are only allowed as a
//! single-element member Replace), and a large Replace whose current state
//! is readable is collapsed into the minimal Add/Delete diff, so that no
//! Replace reaches the store on that path.

use vstd::prelude::*;
use crate::my_ldap::url_to_dn_spec;
use crate::my_ldap::url_to_dn;
use crate::my_types::{MyErr, MyMods, MyMod, Mright, Right, SubMods, UrlOpts};
use crate::str_utils::str_eq;

verus! {

/// The set of URLs of a modification list.
pub open spec fn urls_of(l: Seq<UrlOpts>) -> Set<Seq<char>> {
    l.map_values(|u: UrlOpts| u.url@).to_set()
}

/// A URL is in the set exactly when some list entry carries it.
pub proof fn lemma_urls_of_contains(l: Seq<UrlOpts>, u: Seq<char>)
    ensures
        urls_of(l).contains(u) <==> exists|i: int| 0 <= i < l.len() && (#[trigger] l[i]).url@ == u,
{
    let m = l.map_values(|x: UrlOpts| x.url@);
    if urls_of(l).contains(u) {
        let i = choose|i: int| 0 <= i < m.len() && m[i] == u;
        assert(l[i].url@ == u);
    }
    if exists|i: int| 0 <= i < l.len() && (#[trigger] l[i]).url@ == u {
        let i = choose|i: int| 0 <= i < l.len() && (#[trigger] l[i]).url@ == u;
        assert(m[i] == u);
        assert(m.contains(u));
    }
}

/// Pushing one entry adds exactly its URL to the URL set.
pub proof fn lemma_urls_of_push(l: Seq<UrlOpts>, e: UrlOpts)
    ensures
        forall|y: Seq<char>|
            #[trigger] urls_of(l.push(e)).contains(y) <==> urls_of(l).contains(y) || e.url@ == y,
{
    assert forall|y: Seq<char>|
        #[trigger] urls_of(l.push(e)).contains(y) <==> urls_of(l).contains(y) || e.url@
            == y by {
        lemma_urls_of_contains(l.push(e), y);
        lemma_urls_of_contains(l, y);
        if urls_of(l.push(e)).contains(y) {
            let i = choose|i: int| 0 <= i < l.push(e).len() && (#[trigger] l.push(e)[i]).url@ == y;
            if i < l.len() {
                assert(l[i].url@ == y);
            }
        }
        if urls_of(l).contains(y) {
            let i = choose|i: int| 0 <= i < l.len() && (#[trigger] l[i]).url@ == y;
            assert(l.push(e)[i].url@ == y);
        }
        if e.url@ == y {
            assert(l.push(e)[l.len() as int].url@ == y);
        }
    }
}

impl UrlOpts {
    /// A copy of the entry.
    pub fn duplicate(&self) -> (r: UrlOpts)
        ensures
            r == *self,
    {
        UrlOpts {
            url: self.url.clone(),
            enddate: match &self.enddate {
                Some(d) => Some(d.clone()),
                None => None,
            },
        }
    }
}

/// Whether some entry of the list carries the URL `u`.
fn urlopts_contains(l: &Vec<UrlOpts>, u: &str) -> (r: bool)
    ensures
        r == urls_of(l@).contains(u@),
{
    proof {
        lemma_urls_of_contains(l@, u@);
    }
    let mut i: usize = 0;
    while i < l.len()
        invariant
            i <= l@.len(),
            forall|j: int| 0 <= j < i ==> (#[trigger] l@[j]).url@ != u@,
        decreases l@.len() - i,
    {
        if str_eq(l[i].url.as_str(), u) {
            proof {
                lemma_urls_of_contains(l@, u@);
            }
            return true;
        }
        i = i + 1;
    }
    proof {
        lemma_urls_of_contains(l@, u@);
    }
    false
}

/// Whether some element of the vector is the string `u`.
fn vec_str_contains(v: &Vec<String>, u: &str) -> (r: bool)
    ensures
        r == v.deep_view().to_set().contains(u@),
{
    let ghost dv = v.deep_view();
    let mut i: usize = 0;
    while i < v.len()
        invariant
            i <= v@.len(),
            dv == v.deep_view(),
            forall|j: int| 0 <= j < i ==> dv[j] != u@,
        decreases v@.len() - i,
    {
        if str_eq(v[i].as_str(), u) {
            proof {
                assert(dv[i as int] == u@);
            }
            return true;
        }
        i = i + 1;
    }
    proof {
        if dv.to_set().contains(u@) {
            let j = choose|j: int| 0 <= j < dv.len() && dv[j] == u@;
            assert(false);
        }
    }
    false
}

/// Bundles optional add, delete and replace lists into one
/// sub-modification.
pub fn to_submods(add: Vec<UrlOpts>, delete: Vec<UrlOpts>, replace: Option<Vec<UrlOpts>>) -> (r:
    SubMods)
    ensures
        r.add == add,
        r.delete == delete,
        r.replace == replace,
{
    SubMods { add, delete, replace }
}

/// Takes a sub-modification apart into its add, delete and replace lists.
pub fn from_submods(submods: SubMods) -> (r: (Vec<UrlOpts>, Vec<UrlOpts>, Option<Vec<UrlOpts>>))
    ensures
        r.0 == submods.add,
        r.1 == submods.delete,
        r.2 == submods.replace,
{
    (submods.add, submods.delete, submods.replace)
}

/// The right a modification request demands: touching any dimension above
/// reader takes admin, anything else takes updater.
pub fn my_mods_to_right(my_mods: &MyMods) -> (r: Right)
    ensures
        r == if !my_mods.updater.is_empty_spec() || !my_mods.admin.is_empty_spec() {
            Right::Admin
        } else {
            Right::Updater
        },
{
    if !my_mods.updater.is_empty() || !my_mods.admin.is_empty() {
        Right::Admin
    } else {
        Right::Updater
    }
}

/// One modification list is acceptable: either it is the one place a
/// remote query may stand (a single-element member Replace), or every URL
/// in it is a plain subject URL.
pub open spec fn submod_list_ok(mright: Mright, action: MyMod, l: Seq<UrlOpts>) -> bool {
    (mright == Mright::Member && action == MyMod::Replace && l.len() == 1) || forall|i: int|
        0 <= i < l.len() ==> url_to_dn_spec((#[trigger] l[i]).url@) is Some
}

/// All three lists of a sub-modification are acceptable.
pub open spec fn submods_ok(mright: Mright, s: SubMods) -> bool {
    &&& submod_list_ok(mright, MyMod::Add, s.add@)
    &&& submod_list_ok(mright, MyMod::Delete, s.delete@)
    &&& (s.replace matches Some(rep) ==> submod_list_ok(mright, MyMod::Replace, rep@))
}

/// A modification request is valid: stems take no member changes, and
/// every sub-modification is acceptable.
pub open spec fn mods_ok(is_stem: bool, m: MyMods) -> bool {
    &&& (is_stem ==> m.member.is_empty_spec())
    &&& submods_ok(Mright::Member, m.member)
    &&& submods_ok(Mright::Reader, m.reader)
    &&& submods_ok(Mright::Updater, m.updater)
    &&& submods_ok(Mright::Admin, m.admin)
}

/// Checks one modification list.
fn check_submod_list(mright: Mright, action: MyMod, l: &Vec<UrlOpts>) -> (r: Result<(), MyErr>)
    ensures
        r is Ok <==> submod_list_ok(mright, action, l@),
        r is Err ==> r->Err_0 is InvalidMods,
{
    if mright == Mright::Member && action == MyMod::Replace && l.len() == 1 {
        return Ok(());
    }
    let mut i: usize = 0;
    while i < l.len()
        invariant
            i <= l@.len(),
            !(mright == Mright::Member && action == MyMod::Replace && l@.len() == 1),
            forall|j: int| 0 <= j < i ==> url_to_dn_spec((#[trigger] l@[j]).url@) is Some,
        decreases l@.len() - i,
    {
        if url_to_dn(l[i].url.as_str()).is_none() {
            return Err(MyErr::InvalidMods("non DN URL is not allowed here".to_owned()));
        }
        i = i + 1;
    }
    Ok(())
}

/// Checks one sub-modification.
fn check_submods(mright: Mright, s: &SubMods) -> (r: Result<(), MyErr>)
    ensures
        r is Ok <==> submods_ok(mright, *s),
        r is Err ==> r->Err_0 is InvalidMods,
{
    let add_ok = check_submod_list(mright, MyMod::Add, &s.add);
    if let Err(e) = add_ok {
        return Err(e);
    }
    let del_ok = check_submod_list(mright, MyMod::Delete, &s.delete);
    if let Err(e) = del_ok {
        return Err(e);
    }
    match &s.replace {
        Some(rep) => check_submod_list(mright, MyMod::Replace, rep),
        None => Ok(()),
    }
}

/// Checks a whole modification request: stems take no member changes, and
/// remote query URLs may only stand as a single-element member Replace.
pub fn check_mods(is_stem: bool, my_mods: &MyMods) -> (r: Result<(), MyErr>)
    ensures
        r is Ok <==> mods_ok(is_stem, *my_mods),
        r is Err ==> r->Err_0 is InvalidMods,
{
    if is_stem && !my_mods.member.is_empty() {
        return Err(MyErr::InvalidMods("members are not allowed for stems".to_owned()));
    }
    if let Err(e) = check_submods(Mright::Member, &my_mods.member) {
        return Err(e);
    }
    if let Err(e) = check_submods(Mright::Reader, &my_mods.reader) {
        return Err(e);
    }
    if let Err(e) = check_submods(Mright::Updater, &my_mods.updater) {
        return Err(e);
    }
    if let Err(e) = check_submods(Mright::Admin, &my_mods.admin) {
        return Err(e);
    }
    Ok(())
}

/// The entries of `l` whose URL is not in `cur`, in order.
pub open spec fn keep_not_in(l: Seq<UrlOpts>, cur: Set<Seq<char>>) -> Seq<UrlOpts>
    decreases l.len(),
{
    if l.len() == 0 {
        seq![]
    } else {
        let rest = keep_not_in(l.drop_first(), cur);
        if !cur.contains(l[0].url@) {
            seq![l[0]] + rest
        } else {
            rest
        }
    }
}

proof fn lemma_keep_not_in_push(l: Seq<UrlOpts>, x: UrlOpts, cur: Set<Seq<char>>)
    ensures
        keep_not_in(l.push(x), cur) == keep_not_in(l, cur) + if !cur.contains(x.url@) {
            seq![x]
        } else {
            seq![]
        },
    decreases l.len(),
{
    if l.len() == 0 {
        let lp = l.push(x);
        assert(lp.drop_first() =~= Seq::<UrlOpts>::empty());
        assert(keep_not_in(lp.drop_first(), cur) == Seq::<UrlOpts>::empty());
        assert(lp[0] == x);
        if !cur.contains(x.url@) {
            assert(keep_not_in(lp, cur) == seq![lp[0]] + keep_not_in(lp.drop_first(), cur));
            assert(keep_not_in(lp, cur) =~= keep_not_in(l, cur) + seq![x]);
        } else {
            assert(keep_not_in(lp, cur) == keep_not_in(lp.drop_first(), cur));
            assert(keep_not_in(lp, cur) =~= keep_not_in(l, cur) + Seq::<UrlOpts>::empty());
        }
    } else {
        assert(l.push(x).drop_first() =~= l.drop_first().push(x));
        lemma_keep_not_in_push(l.drop_first(), x, cur);
        if !cur.contains(l[0].url@) {
            assert(keep_not_in(l.push(x), cur) =~= seq![l[0]] + keep_not_in(
                l.drop_first().push(x),
                cur,
            ));
            if !cur.contains(x.url@) {
                assert(keep_not_in(l.push(x), cur) =~= keep_not_in(l, cur) + seq![x]);
            } else {
                assert(keep_not_in(l.push(x), cur) =~= keep_not_in(l, cur) + seq![]);
            }
        } else {
            if !cur.contains(x.url@) {
                assert(keep_not_in(l.push(x), cur) =~= keep_not_in(l, cur) + seq![x]);
            } else {
                assert(keep_not_in(l.push(x), cur) =~= keep_not_in(l, cur) + seq![]);
            }
        }
    }
}

/// The URLs of the kept entries are exactly those of `l` outside `cur`.
pub proof fn lemma_keep_not_in_urls(l: Seq<UrlOpts>, cur: Set<Seq<char>>)
    ensures
        urls_of(keep_not_in(l, cur)) =~= urls_of(l).difference(cur),
    decreases l.len(),
{
    lemma_urls_of_contains(l, Seq::<char>::empty());
    assert forall|u: Seq<char>| #[trigger]
        urls_of(keep_not_in(l, cur)).contains(u) implies urls_of(l).difference(cur).contains(
        u,
    ) by {
        lemma_urls_of_contains(keep_not_in(l, cur), u);
        lemma_urls_of_contains(l, u);
        lemma_keep_not_in_member(l, cur, u);
    }
    assert forall|u: Seq<char>| #[trigger]
        urls_of(l).difference(cur).contains(u) implies urls_of(keep_not_in(l, cur)).contains(
        u,
    ) by {
        lemma_urls_of_contains(keep_not_in(l, cur), u);
        lemma_urls_of_contains(l, u);
        lemma_keep_not_in_member(l, cur, u);
    }
}

/// A URL is carried by a kept entry exactly when some entry of `l` carries
/// it and it is not in `cur`.
proof fn lemma_keep_not_in_member(l: Seq<UrlOpts>, cur: Set<Seq<char>>, u: Seq<char>)
    ensures
        (exists|i: int|
            0 <= i < keep_not_in(l, cur).len() && (#[trigger] keep_not_in(l, cur)[i]).url@ == u)
            <==> ((exists|i: int| 0 <= i < l.len() && (#[trigger] l[i]).url@ == u)
            && !cur.contains(u)),
    decreases l.len(),
{
    if l.len() > 0 {
        lemma_keep_not_in_member(l.drop_first(), cur, u);
        let k = keep_not_in(l, cur);
        let krest = keep_not_in(l.drop_first(), cur);
        if exists|i: int| 0 <= i < k.len() && (#[trigger] k[i]).url@ == u {
            let i = choose|i: int| 0 <= i < k.len() && (#[trigger] k[i]).url@ == u;
            if !cur.contains(l[0].url@) {
                if i == 0 {
                    assert(l[0].url@ == u);
                } else {
                    assert(krest[i - 1].url@ == u);
                    let j = choose|j: int|
                        0 <= j < l.drop_first().len() && (#[trigger] l.drop_first()[j]).url@ == u;
                    assert(l[j + 1].url@ == u);
                }
            } else {
                assert(krest[i].url@ == u);
                let j = choose|j: int|
                    0 <= j < l.drop_first().len() && (#[trigger] l.drop_first()[j]).url@ == u;
                assert(l[j + 1].url@ == u);
            }
        }
        if (exists|i: int| 0 <= i < l.len() && (#[trigger] l[i]).url@ == u) && !cur.contains(u) {
            let i = choose|i: int| 0 <= i < l.len() && (#[trigger] l[i]).url@ == u;
            if i == 0 {
                assert(k[0] == l[0]);
            } else {
                assert(l.drop_first()[i - 1].url@ == u);
                let j = choose|j: int|
                    0 <= j < krest.len() && (#[trigger] krest[j]).url@ == u;
                if !cur.contains(l[0].url@) {
                    assert(k[j + 1].url@ == u);
                } else {
                    assert(k[j].url@ == u);
                }
            }
        }
    }
}

/// A Replace large enough to be worth collapsing.
pub open spec fn big_replace(s: SubMods) -> bool {
    s.replace matches Some(rep) && rep@.len() > 4
}

/// How a simplified sub-modification relates to the proposed one: a large
/// Replace with readable current state is collapsed into the minimal diff
/// (the Replace itself never reaches the store on that path); everything
/// else passes through unchanged.
pub open spec fn simplified_rel(s: SubMods, cur: Option<Set<Seq<char>>>, r: SubMods) -> bool {
    if big_replace(s) && cur is Some {
        let curset = cur.unwrap();
        let rep = s.replace.unwrap()@;
        &&& r.replace is None
        &&& r.add@ == s.add@ + keep_not_in(rep, curset)
        &&& urls_of(r.delete@) == urls_of(s.delete@).union(curset.difference(urls_of(rep)))
    } else {
        r == s
    }
}

/// Collapses a Replace of more than four entries into the minimal
/// Add/Delete diff against the current direct values, when those are
/// readable; smaller or blind sub-modifications pass through unchanged.
pub fn check_and_simplify_mods_(submods: SubMods, current: Option<&Vec<String>>) -> (r: SubMods)
    ensures
        match current {
            Some(cur) => simplified_rel(submods, Some(cur.deep_view().to_set()), r),
            None => r == submods,
        },
{
    let (add, delete, replace) = from_submods(submods);
    let do_collapse = match (&replace, &current) {
        (Some(rep), Some(_)) => rep.len() > 4,
        _ => false,
    };
    if !do_collapse {
        return to_submods(add, delete, replace);
    }
    let rep = match replace {
        Some(rep) => rep,
        None => {
            return to_submods(add, delete, None);
        },
    };
    let cur = match current {
        Some(cur) => cur,
        None => {
            return to_submods(add, delete, Some(rep));
        },
    };
    let ghost curset = cur.deep_view().to_set();
    let ghost add0 = add@;
    let ghost del0 = delete@;
    let mut add2 = add;
    let mut i: usize = 0;
    proof {
        assert(rep@.take(0) =~= Seq::<UrlOpts>::empty());
        assert(add2@ =~= add0 + keep_not_in(rep@.take(0), curset));
    }
    while i < rep.len()
        invariant
            i <= rep@.len(),
            curset == cur.deep_view().to_set(),
            add2@ == add0 + keep_not_in(rep@.take(i as int), curset),
        decreases rep@.len() - i,
    {
        let ghost prev = add2@;
        if !vec_str_contains(cur, rep[i].url.as_str()) {
            add2.push(rep[i].duplicate());
        }
        proof {
            assert(rep@.take(i + 1) =~= rep@.take(i as int).push(rep@[i as int]));
            lemma_keep_not_in_push(rep@.take(i as int), rep@[i as int], curset);
            assert(add2@ =~= add0 + keep_not_in(rep@.take(i + 1), curset));
        }
        i = i + 1;
    }
    proof {
        assert(rep@.take(rep@.len() as int) =~= rep@);
    }
    let mut del2 = delete;
    let ghost cdv = cur.deep_view();
    let mut j: usize = 0;
    while j < cur.len()
        invariant
            j <= cur@.len(),
            cdv == cur.deep_view(),
            forall|y: Seq<char>|
                #[trigger] urls_of(del2@).contains(y) ==> urls_of(del0).contains(y) || (
                cdv.to_set().contains(y) && !urls_of(rep@).contains(y)),
            forall|y: Seq<char>|
                urls_of(del0).contains(y) ==> #[trigger] urls_of(del2@).contains(y),
            forall|k: int|
                0 <= k < j ==> urls_of(rep@).contains(#[trigger] cdv[k]) || urls_of(
                    del2@,
                ).contains(cdv[k]),
        decreases cur@.len() - j,
    {
        let ghost prev = del2@;
        proof {
            assert(cdv[j as int] == cur@[j as int]@);
        }
        if !urlopts_contains(&rep, cur[j].as_str()) {
            let entry = UrlOpts { url: cur[j].clone(), enddate: None };
            proof {
                assert(entry.url@ == cdv[j as int]);
                assert(cdv.to_set().contains(cdv[j as int]));
            }
            del2.push(entry);
            proof {
                lemma_urls_of_push(prev, entry);
            }
        }
        j = j + 1;
    }
    proof {
        assert forall|y: Seq<char>| #[trigger]
            urls_of(del0).union(curset.difference(urls_of(rep@))).contains(
            y,
        ) implies urls_of(del2@).contains(y) by {
            if !urls_of(del0).contains(y) {
                assert(cdv.to_set().contains(y));
                let k = choose|k: int| 0 <= k < cdv.len() && cdv[k] == y;
                assert(urls_of(rep@).contains(cdv[k]) || urls_of(del2@).contains(cdv[k]));
            }
        }
        assert(urls_of(del2@) =~= urls_of(del0).union(curset.difference(urls_of(rep@))));
    }
    to_submods(add2, del2, None)
}

/// The current direct values of each dimension, where the caller could
/// read them.
pub struct CurrentDirects {
    pub member: Option<Vec<String>>,
    pub reader: Option<Vec<String>>,
    pub updater: Option<Vec<String>>,
    pub admin: Option<Vec<String>>,
}

impl CurrentDirects {
    /// The current values of one dimension, as a set of URL views.
    pub open spec fn get_spec(&self, mright: Mright) -> Option<Set<Seq<char>>> {
        let cur = match mright {
            Mright::Member => self.member,
            Mright::Reader => self.reader,
            Mright::Updater => self.updater,
            Mright::Admin => self.admin,
        };
        match cur {
            Some(v) => Some(v.deep_view().to_set()),
            None => None,
        }
    }

    /// No current values at all: every sub-modification passes through the
    /// simplifier unchanged.
    pub fn none() -> (r: CurrentDirects)
        ensures
            forall|m: Mright| r.get_spec(m) is None,
    {
        CurrentDirects { member: None, reader: None, updater: None, admin: None }
    }
}

/// Checks a modification request and collapses its large Replaces against
/// the readable current state. On that path no Replace reaches the store;
/// a request that collapses to nothing asks for no write at all.
pub fn check_and_simplify_mods(is_stem: bool, my_mods: MyMods, currents: &CurrentDirects) -> (r:
    Result<MyMods, MyErr>)
    ensures
        r is Ok <==> mods_ok(is_stem, my_mods),
        r is Err ==> r->Err_0 is InvalidMods,
        r matches Ok(m) ==> {
            &&& simplified_rel(my_mods.member, currents.get_spec(Mright::Member), m.member)
            &&& simplified_rel(my_mods.reader, currents.get_spec(Mright::Reader), m.reader)
            &&& simplified_rel(my_mods.updater, currents.get_spec(Mright::Updater), m.updater)
            &&& simplified_rel(my_mods.admin, currents.get_spec(Mright::Admin), m.admin)
            &&& is_stem ==> m.member.is_empty_spec()
        },
{
    if let Err(e) = check_mods(is_stem, &my_mods) {
        return Err(e);
    }
    let MyMods { member, reader, updater, admin } = my_mods;
    let member2 = check_and_simplify_mods_(member, currents.member.as_ref());
    let reader2 = check_and_simplify_mods_(reader, currents.reader.as_ref());
    let updater2 = check_and_simplify_mods_(updater, currents.updater.as_ref());
    let admin2 = check_and_simplify_mods_(admin, currents.admin.as_ref());
    proof {
        if is_stem {
            assert(my_mods.member.is_empty_spec());
            assert(!big_replace(my_mods.member));
        }
    }
    Ok(MyMods { member: member2, reader: reader2, updater: updater2, admin: admin2 })
}

/// The instant an enddate string names, in milliseconds, when it parses as
/// an RFC 3339 date-time; the result depends on the characters alone.
pub uninterp spec fn parsed_enddate_ms(s: Seq<char>) -> Option<i64>;

/// Relies on chrono's `DateTime::parse_from_rfc3339` and
/// `timestamp_millis`: parses an RFC 3339 date-time into its instant. The
/// result is a function of the characters alone.
#[verifier::external_body]
fn parse_enddate_ms(s: &str) -> (r: Option<i64>)
    ensures
        r == parsed_enddate_ms(s@),
{
    chrono::DateTime::parse_from_rfc3339(s).ok().map(|d| d.timestamp_millis())
}

/// Relies on chrono's `Utc::now` for the current instant. Nothing is
/// assumed of the value.
#[verifier::external_body]
fn now_ms() -> i64 {
    chrono::Utc::now().timestamp_millis()
}

/// One proposed entry respects the member time-to-live bound: it carries
/// an enddate, the enddate parses, and the instant is not after `max_ms`.
pub open spec fn ttl_entry_ok(u: UrlOpts, max_ms: int) -> bool {
    match u.enddate {
        Some(d) => match parsed_enddate_ms(d@) {
            Some(e) => e <= max_ms,
            None => false,
        },
        None => false,
    }
}

/// Every entry of the list respects the bound.
pub open spec fn ttl_entries_ok(l: Seq<UrlOpts>, max_ms: int) -> bool {
    forall|i: int| 0 <= i < l.len() ==> ttl_entry_ok(#[trigger] l[i], max_ms)
}

/// The proposed member additions and replacements all respect the bound;
/// deletions are exempt.
pub open spec fn member_mods_ttl_ok(m: MyMods, max_ms: int) -> bool {
    &&& ttl_entries_ok(m.member.add@, max_ms)
    &&& (m.member.replace matches Some(rep) ==> ttl_entries_ok(rep@, max_ms))
}

fn check_ttl_entry(u: &UrlOpts, max: i128) -> (r: bool)
    ensures
        r == ttl_entry_ok(*u, max as int),
{
    match &u.enddate {
        None => false,
        Some(d) => match parse_enddate_ms(d.as_str()) {
            None => false,
            Some(e) => (e as i128) <= max,
        },
    }
}

fn check_ttl_entries(l: &Vec<UrlOpts>, max: i128) -> (r: bool)
    ensures
        r == ttl_entries_ok(l@, max as int),
{
    let mut i: usize = 0;
    while i < l.len()
        invariant
            i <= l@.len(),
            forall|j: int| 0 <= j < i ==> ttl_entry_ok(#[trigger] l@[j], max as int),
        decreases l@.len() - i,
    {
        if !check_ttl_entry(&l[i], max) {
            return false;
        }
        i = i + 1;
    }
    true
}

/// Enforces the node's member time-to-live bound, when it carries one:
/// every proposed member addition or replacement must carry an enddate
/// that parses and lies no more than `ttl_max` days after `now_ms`. A
/// bound that is not a plain number of days is itself an error.
pub fn may_check_member_ttl(ttl_max: Option<&String>, my_mods: &MyMods, now_ms_in: i64) -> (r:
    Result<(), MyErr>)
    ensures
        ttl_max is None ==> r == Result::<(), MyErr>::Ok(()),
        match ttl_max {
            Some(t) => {
                if crate::str_utils::is_digits(t@) && crate::str_utils::digits_val(t@)
                    <= u64::MAX {
                    &&& (r is Ok <==> member_mods_ttl_ok(
                        *my_mods,
                        now_ms_in + crate::str_utils::digits_val(t@) * 86400000,
                    ))
                    &&& (r is Err ==> r->Err_0 is InvalidMods)
                } else {
                    r is Err && r->Err_0 is InvalidMods
                }
            },
            None => true,
        },
{
    let t = match ttl_max {
        None => {
            return Ok(());
        },
        Some(t) => t,
    };
    let days = match crate::str_utils::parse_u64_digits(t.as_str()) {
        None => {
            return Err(MyErr::InvalidMods("member-ttl-max must be an integer".to_owned()));
        },
        Some(d) => d,
    };
    let max: i128 = (now_ms_in as i128) + (days as i128) * 86400000;
    proof {
        assert(max as int == now_ms_in + crate::str_utils::digits_val(t@) * 86400000);
    }
    if !check_ttl_entries(&my_mods.member.add, max) {
        return Err(MyErr::InvalidMods("enddate missing or beyond member-ttl-max".to_owned()));
    }
    match &my_mods.member.replace {
        Some(rep) => {
            if !check_ttl_entries(rep, max) {
                return Err(
                    MyErr::InvalidMods("enddate missing or beyond member-ttl-max".to_owned()),
                );
            }
        },
        None => {},
    }
    Ok(())
}

/// Enforces the member time-to-live bound against the present instant.
/// Whatever the clock says: a node without the bound passes, a bound that
/// is not a plain number of days fails, and a proposed member addition or
/// replacement without a parsing enddate fails.
pub fn may_check_member_ttl_now(ttl_max: Option<&String>, my_mods: &MyMods) -> (r: Result<
    (),
    MyErr,
>)
    ensures
        ttl_max is None ==> r == Result::<(), MyErr>::Ok(()),
        match ttl_max {
            Some(t) => {
                if crate::str_utils::is_digits(t@) && crate::str_utils::digits_val(t@)
                    <= u64::MAX {
                    &&& (r is Ok ==> exists|now: i64|
                        #[trigger] member_mods_ttl_ok(
                            *my_mods,
                            now + crate::str_utils::digits_val(t@) * 86400000,
                        ))
                    &&& (r is Err ==> r->Err_0 is InvalidMods)
                } else {
                    r is Err && r->Err_0 is InvalidMods
                }
            },
            None => true,
        },
{
    let now = now_ms();
    let r = may_check_member_ttl(ttl_max, my_mods, now);
    proof {
        if ttl_max is Some && r is Ok {
            let t = ttl_max.unwrap();
            if crate::str_utils::is_digits(t@) && crate::str_utils::digits_val(t@) <= u64::MAX {
                assert(member_mods_ttl_ok(
                    *my_mods,
                    now + crate::str_utils::digits_val(t@) * 86400000,
                ));
            }
        }
    }
    r
}

/// The direct state after one sub-modification: a Replace overwrites the
/// set; otherwise the additions land and the deletions leave.
pub open spec fn apply_submods_direct(cur: Set<Seq<char>>, s: SubMods) -> Set<Seq<char>> {
    match s.replace {
        Some(rep) => urls_of(rep@),
        None => cur.union(urls_of(s.add@)).difference(urls_of(s.delete@)),
    }
}

/// A Replace of set `rep` ends in the same direct state as its minimal
/// Add/Delete diff against the current state `cur`: adding `rep \ cur` and
/// deleting `cur \ rep` yields exactly `rep`. Since the flattened state is
/// a function of the direct state, it coincides as well.
pub proof fn lemma_replace_equals_diff(cur: Set<Seq<char>>, rep: Set<Seq<char>>)
    ensures
        cur.union(rep.difference(cur)).difference(cur.difference(rep)) =~= rep,
{
}

/// Two successive identical Replace mutations on the collapsing path: the
/// first leaves the direct state equal to the Replace set, and the second,
/// diffed against that state, carries no additions and no deletions — zero
/// direct writes.
pub proof fn lemma_second_identical_replace_is_noop(cur: Set<Seq<char>>, rep: Set<Seq<char>>)
    ensures
        ({
            let after = cur.union(rep.difference(cur)).difference(cur.difference(rep));
            rep.difference(after) =~= Set::<Seq<char>>::empty() && after.difference(rep)
                =~= Set::<Seq<char>>::empty()
        }),
{
    lemma_replace_equals_diff(cur, rep);
}

} // verus!
