//! The plain-data model of what the directory store hands back: an entry
//! with its multi-valued attributes, and the shaping of raw search results
//! into the values the rest of the library consumes. The store transport
//! itself lives outside; it feeds these functions the result code and the
//! entries of each operation.

use vstd::prelude::*;
use vstd::string::StrSliceExecFns;
use crate::my_types::{MonoAttrs, MyErr};
use crate::str_utils::str_eq;

verus! {

/// One directory entry: its DN and its multi-valued attributes, in the
/// order the store listed them.
pub struct SearchEntry {
    pub dn: String,
    pub attrs: Vec<(String, Vec<String>)>,
}

/// The values of the first attribute named `name`, or the empty sequence
/// when the entry has no such attribute.
pub open spec fn values_of(attrs: Seq<(Seq<char>, Seq<Seq<char>>)>, name: Seq<char>) -> Seq<
    Seq<char>,
>
    decreases attrs.len(),
{
    if attrs.len() == 0 {
        seq![]
    } else if attrs[0].0 == name {
        attrs[0].1
    } else {
        values_of(attrs.drop_first(), name)
    }
}

/// Whether the entry carries an attribute named `name`.
pub open spec fn has_attr(attrs: Seq<(Seq<char>, Seq<Seq<char>>)>, name: Seq<char>) -> bool {
    exists|i: int| 0 <= i < attrs.len() && (#[trigger] attrs[i]).0 == name
}

proof fn lemma_values_of_first_match(
    attrs: Seq<(Seq<char>, Seq<Seq<char>>)>,
    name: Seq<char>,
    i: int,
)
    requires
        0 <= i < attrs.len(),
        attrs[i].0 == name,
        forall|j: int| 0 <= j < i ==> (#[trigger] attrs[j]).0 != name,
    ensures
        values_of(attrs, name) == attrs[i].1,
    decreases i,
{
    if i > 0 {
        lemma_values_of_first_match(attrs.drop_first(), name, i - 1);
    }
}

proof fn lemma_values_of_no_match(attrs: Seq<(Seq<char>, Seq<Seq<char>>)>, name: Seq<char>)
    requires
        forall|j: int| 0 <= j < attrs.len() ==> (#[trigger] attrs[j]).0 != name,
    ensures
        values_of(attrs, name) == Seq::<Seq<char>>::empty(),
    decreases attrs.len(),
{
    if attrs.len() > 0 {
        lemma_values_of_no_match(attrs.drop_first(), name);
    }
}

/// An entry without the attribute has no values under it.
pub proof fn lemma_values_of_empty_when_absent(
    attrs: Seq<(Seq<char>, Seq<Seq<char>>)>,
    name: Seq<char>,
)
    requires
        !has_attr(attrs, name),
    ensures
        values_of(attrs, name) == Seq::<Seq<char>>::empty(),
{
    assert forall|j: int| 0 <= j < attrs.len() implies (#[trigger] attrs[j]).0 != name by {
        if attrs[j].0 == name {
            assert(has_attr(attrs, name));
        }
    }
    lemma_values_of_no_match(attrs, name);
}

impl SearchEntry {
    /// The values of the attribute named `name`, if the entry carries it.
    pub fn get_attr_values(&self, name: &str) -> (r: Option<&Vec<String>>)
        ensures
            match r {
                Some(v) => has_attr(self.attrs.deep_view(), name@) && v.deep_view() == values_of(
                    self.attrs.deep_view(),
                    name@,
                ),
                None => !has_attr(self.attrs.deep_view(), name@),
            },
    {
        let ghost dv = self.attrs.deep_view();
        let mut i: usize = 0;
        while i < self.attrs.len()
            invariant
                i <= self.attrs@.len(),
                dv == self.attrs.deep_view(),
                forall|j: int| 0 <= j < i ==> (#[trigger] dv[j]).0 != name@,
            decreases self.attrs@.len() - i,
        {
            if str_eq(self.attrs[i].0.as_str(), name) {
                proof {
                    assert(dv[i as int].0 == name@);
                    lemma_values_of_first_match(dv, name@, i as int);
                }
                return Some(&self.attrs[i].1);
            }
            i = i + 1;
        }
        proof {
            if has_attr(dv, name@) {
                let j = choose|j: int| 0 <= j < dv.len() && (#[trigger] dv[j]).0 == name@;
                assert(false);
            }
        }
        None
    }
}

/// The value sequences of an attribute list, in order.
pub open spec fn value_seqs(attrs: Seq<(Seq<char>, Seq<Seq<char>>)>) -> Seq<Seq<Seq<char>>> {
    attrs.map_values(|p: (Seq<char>, Seq<Seq<char>>)| p.1)
}

/// Every attribute value of an entry, attributes in order, values in order
/// within each attribute.
pub fn get_all_values(attrs: Vec<(String, Vec<String>)>) -> (r: Vec<String>)
    ensures
        r.deep_view() == value_seqs(attrs.deep_view()).flatten(),
{
    let ghost dv = attrs.deep_view();
    let mut r: Vec<String> = Vec::new();
    proof {
        assert(dv.skip(0) =~= dv);
        assert(r.deep_view() + value_seqs(dv).flatten() =~= value_seqs(dv).flatten());
    }
    let mut i: usize = 0;
    while i < attrs.len()
        invariant
            i <= attrs@.len(),
            dv == attrs.deep_view(),
            r.deep_view() + value_seqs(dv.skip(i as int)).flatten() == value_seqs(dv).flatten(),
        decreases attrs@.len() - i,
    {
        let vals = &attrs[i].1;
        let ghost vdv = vals.deep_view();
        let ghost r0 = r.deep_view();
        proof {
            assert(r.deep_view() =~= r0 + vdv.take(0));
        }
        let mut j: usize = 0;
        while j < vals.len()
            invariant
                j <= vals@.len(),
                vdv == vals.deep_view(),
                r.deep_view() =~= r0 + vdv.take(j as int),
            decreases vals@.len() - j,
        {
            let ghost rprev = r.deep_view();
            let x = vals[j].clone();
            proof {
                assert(x@ == vdv[j as int]);
            }
            r.push(x);
            proof {
                assert(r.deep_view() =~= rprev.push(vdv[j as int]));
                assert(vdv.take(j + 1) =~= vdv.take(j as int).push(vdv[j as int]));
                assert(r.deep_view() =~= r0 + vdv.take(j + 1));
            }
            j = j + 1;
        }
        proof {
            assert(vdv.take(vdv.len() as int) =~= vdv);
            assert(vdv == dv[i as int].1);
            let rest = value_seqs(dv.skip(i as int));
            assert(rest.len() > 0 && rest[0] == dv[i as int].1);
            assert(rest.drop_first() =~= value_seqs(dv.skip(i + 1)));
            assert(rest.flatten() == rest[0] + rest.drop_first().flatten());
            assert(r.deep_view() + value_seqs(dv.skip(i + 1)).flatten() =~= value_seqs(
                dv,
            ).flatten());
        }
        i = i + 1;
    }
    proof {
        assert(value_seqs(dv.skip(dv.len() as int)).flatten() =~= Seq::<Seq<char>>::empty());
        assert(r.deep_view() =~= value_seqs(dv).flatten());
    }
    r
}

/// The single-valued reading of an attribute list: each attribute with at
/// least one value contributes its name and first value, in order.
pub open spec fn mono_attrs_spec(attrs: Seq<(Seq<char>, Seq<Seq<char>>)>) -> Seq<
    (Seq<char>, Seq<char>),
>
    decreases attrs.len(),
{
    if attrs.len() == 0 {
        seq![]
    } else {
        let rest = mono_attrs_spec(attrs.drop_first());
        if attrs[0].1.len() > 0 {
            seq![(attrs[0].0, attrs[0].1[0])] + rest
        } else {
            rest
        }
    }
}

/// Keeps the first value of each attribute, dropping value-less ones.
pub fn mono_attrs(attrs: Vec<(String, Vec<String>)>) -> (r: MonoAttrs)
    ensures
        r.deep_view() == mono_attrs_spec(attrs.deep_view()),
{
    let ghost dv = attrs.deep_view();
    let mut r: MonoAttrs = Vec::new();
    proof {
        assert(dv.skip(0) =~= dv);
        assert(r.deep_view() + mono_attrs_spec(dv) =~= mono_attrs_spec(dv));
    }
    let mut i: usize = 0;
    while i < attrs.len()
        invariant
            i <= attrs@.len(),
            dv == attrs.deep_view(),
            r.deep_view() + mono_attrs_spec(dv.skip(i as int)) == mono_attrs_spec(dv),
        decreases attrs@.len() - i,
    {
        let ghost r0 = r.deep_view();
        if attrs[i].1.len() > 0 {
            r.push((attrs[i].0.clone(), attrs[i].1[0].clone()));
            proof {
                assert(r.deep_view() =~= r0.push((dv[i as int].0, dv[i as int].1[0])));
            }
        }
        proof {
            let rest = dv.skip(i as int);
            assert(rest.len() > 0 && rest[0] == dv[i as int]);
            assert(rest.drop_first() =~= dv.skip(i + 1));
            assert(r.deep_view() + mono_attrs_spec(dv.skip(i + 1)) =~= mono_attrs_spec(dv));
        }
        i = i + 1;
    }
    proof {
        assert(mono_attrs_spec(dv.skip(dv.len() as int)) =~= Seq::<(Seq<char>, Seq<char>)>::empty());
        assert(r.deep_view() =~= mono_attrs_spec(dv));
    }
    r
}

/// The value of the first single-valued attribute named `name`, if any.
pub open spec fn mono_get_spec(attrs: Seq<(Seq<char>, Seq<char>)>, name: Seq<char>) -> Option<
    Seq<char>,
>
    decreases attrs.len(),
{
    if attrs.len() == 0 {
        None
    } else if attrs[0].0 == name {
        Some(attrs[0].1)
    } else {
        mono_get_spec(attrs.drop_first(), name)
    }
}

proof fn lemma_mono_get_first_match(attrs: Seq<(Seq<char>, Seq<char>)>, name: Seq<char>, i: int)
    requires
        0 <= i < attrs.len(),
        attrs[i].0 == name,
        forall|j: int| 0 <= j < i ==> (#[trigger] attrs[j]).0 != name,
    ensures
        mono_get_spec(attrs, name) == Some(attrs[i].1),
    decreases i,
{
    if i > 0 {
        lemma_mono_get_first_match(attrs.drop_first(), name, i - 1);
    }
}

proof fn lemma_mono_get_no_match(attrs: Seq<(Seq<char>, Seq<char>)>, name: Seq<char>)
    requires
        forall|j: int| 0 <= j < attrs.len() ==> (#[trigger] attrs[j]).0 != name,
    ensures
        mono_get_spec(attrs, name) is None,
    decreases attrs.len(),
{
    if attrs.len() > 0 {
        lemma_mono_get_no_match(attrs.drop_first(), name);
    }
}

/// Looks a single-valued attribute up by name.
pub fn mono_attrs_get<'a>(attrs: &'a MonoAttrs, name: &str) -> (r: Option<&'a String>)
    ensures
        match r {
            Some(v) => mono_get_spec(attrs.deep_view(), name@) == Some(v@),
            None => mono_get_spec(attrs.deep_view(), name@) is None,
        },
{
    let ghost dv = attrs.deep_view();
    let mut i: usize = 0;
    while i < attrs.len()
        invariant
            i <= attrs@.len(),
            dv == attrs.deep_view(),
            forall|j: int| 0 <= j < i ==> (#[trigger] dv[j]).0 != name@,
        decreases attrs@.len() - i,
    {
        if str_eq(attrs[i].0.as_str(), name) {
            proof {
                assert(dv[i as int].0 == name@);
                lemma_mono_get_first_match(dv, name@, i as int);
            }
            return Some(&attrs[i].1);
        }
        i = i + 1;
    }
    proof {
        lemma_mono_get_no_match(dv, name@);
    }
    None
}

/// Shapes the outcome of a single-entry read: success yields the last
/// entry if any, a missing base object reads as absent, anything else is a
/// store failure. Code 32 is the store's "no such object".
pub fn handle_read_one_search_result(rc: u32, mut entries: Vec<SearchEntry>) -> (r: Result<
    Option<SearchEntry>,
    MyErr,
>)
    ensures
        rc == 0 && entries@.len() > 0 ==> r == Result::<Option<SearchEntry>, MyErr>::Ok(
            Some(entries@.last()),
        ),
        rc == 0 && entries@.len() == 0 ==> r == Result::<Option<SearchEntry>, MyErr>::Ok(None),
        rc == 32 ==> r == Result::<Option<SearchEntry>, MyErr>::Ok(None),
        rc != 0 && rc != 32 ==> r == Result::<Option<SearchEntry>, MyErr>::Err(MyErr::Store(rc)),
{
    if rc == 0 {
        Ok(entries.pop())
    } else if rc == 32 {
        Ok(None)
    } else {
        Err(MyErr::Store(rc))
    }
}

/// Shapes the outcome of a size-limited search: success and
/// size-limit-exceeded (code 4) both yield the entries that came back,
/// anything else is a store failure.
pub fn handle_sizelimited_search(rc: u32, entries: Vec<SearchEntry>) -> (r: Result<
    Vec<SearchEntry>,
    MyErr,
>)
    ensures
        rc == 0 || rc == 4 ==> r is Ok && r.unwrap()@ == entries@,
        rc != 0 && rc != 4 ==> r == Result::<Vec<SearchEntry>, MyErr>::Err(MyErr::Store(rc)),
{
    if rc == 0 || rc == 4 {
        Ok(entries)
    } else {
        Err(MyErr::Store(rc))
    }
}

/// Turns the raw reading of a flattened attribute into its member list:
/// the sentinel reading, a single empty string, stands for no members.
pub fn strip_empty_sentinel(l: Vec<String>) -> (r: Vec<String>)
    ensures
        l@.len() > 0 && l.deep_view()[0].len() == 0 ==> r@ == Seq::<String>::empty(),
        !(l@.len() > 0 && l.deep_view()[0].len() == 0) ==> r@ == l@,
{
    if l.len() > 0 && l[0].as_str().unicode_len() == 0 {
        Vec::new()
    } else {
        l
    }
}

} // verus!
