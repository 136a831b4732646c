//! The identifier and path model. A node id is a string; the configured
//! root id names the root stem, and every other id is a sequence of
//! non-empty segments joined by the configured separator. The parent chain
//! of `a.b.c` is the root, then `a`, then `a.b`.

use vstd::prelude::*;
use vstd::string::StrSliceExecFns;
use crate::my_types::{MyErr, StemConfig};
use crate::str_utils::{str_eq, substr};

verus! {

/// Characters an id segment may hold: ASCII letters, digits, `-` and `_`.
pub open spec fn allowed_id_char(c: char) -> bool {
    ('a' <= c && c <= 'z') || ('A' <= c && c <= 'Z') || ('0' <= c && c <= '9') || c == '-'
        || c == '_'
}

/// A non-root id splits into non-empty segments: it is non-empty, does not
/// begin or end with the separator, and never holds two separators in a
/// row.
pub open spec fn valid_segments(id: Seq<char>, sep: char) -> bool {
    &&& id.len() > 0
    &&& id[0] != sep
    &&& id[id.len() - 1] != sep
    &&& forall|i: int| 0 < i < id.len() ==> !(id[i - 1] == sep && #[trigger] id[i] == sep)
}

/// Every character of the id is either the separator or an allowed segment
/// character.
pub open spec fn valid_id_chars(id: Seq<char>, sep: char) -> bool {
    forall|i: int| 0 <= i < id.len() ==> #[trigger] id[i] == sep || allowed_id_char(id[i])
}

/// A well-formed node id: the root id itself, or non-empty segments of
/// allowed characters.
pub open spec fn valid_sgroup_id(id: Seq<char>, sep: char, root: Seq<char>) -> bool {
    id == root || (valid_segments(id, sep) && valid_id_chars(id, sep))
}

/// The prefixes of `id` that end just before a separator among the first
/// `n` characters, in ascending length: for `a.b.c` and `n = 5` this is
/// `[a, a.b]`.
pub open spec fn sep_prefixes(id: Seq<char>, sep: char, n: int) -> Seq<Seq<char>>
    decreases n,
{
    if n <= 0 {
        seq![]
    } else if id[n - 1] == sep {
        sep_prefixes(id, sep, n - 1).push(id.subrange(0, n - 1))
    } else {
        sep_prefixes(id, sep, n - 1)
    }
}

/// The ancestor chain of an id, root first: nothing for the root itself,
/// else the root followed by every proper prefix ending at a separator.
pub open spec fn parent_stems_spec(id: Seq<char>, sep: char, root: Seq<char>) -> Seq<Seq<char>> {
    if id == root {
        seq![]
    } else {
        seq![root] + sep_prefixes(id, sep, id.len() as int)
    }
}

/// The immediate parent of an id: none for the root, the last entry of the
/// ancestor chain otherwise.
pub open spec fn parent_stem_spec(id: Seq<char>, sep: char, root: Seq<char>) -> Option<
    Seq<char>,
> {
    if id == root {
        None
    } else {
        Some(parent_stems_spec(id, sep, root).last())
    }
}

proof fn lemma_sep_prefixes_of_take(id: Seq<char>, sep: char, j: int, n: int)
    requires
        0 <= n <= j <= id.len(),
    ensures
        sep_prefixes(id.take(j), sep, n) == sep_prefixes(id, sep, n),
    decreases n,
{
    if n > 0 {
        lemma_sep_prefixes_of_take(id, sep, j, n - 1);
        assert(id.take(j)[n - 1] == id[n - 1]);
        if id[n - 1] == sep {
            assert(id.take(j).subrange(0, n - 1) =~= id.subrange(0, n - 1));
        }
    }
}

proof fn lemma_sep_prefixes_monotone(id: Seq<char>, sep: char, n: int, m: int)
    requires
        0 <= n <= m <= id.len(),
    ensures
        sep_prefixes(id, sep, n).is_prefix_of(sep_prefixes(id, sep, m)),
    decreases m - n,
{
    if n < m {
        lemma_sep_prefixes_monotone(id, sep, n, m - 1);
        assert(sep_prefixes(id, sep, m - 1).is_prefix_of(sep_prefixes(id, sep, m)));
    }
}

/// An ancestor's chain is a prefix of its descendant's chain: for an id cut
/// at a separator, the ancestor chain of the cut prefix, extended by the
/// prefix itself, begins the id's own ancestor chain. Together with the
/// monotonicity of the best right in the chain, a right held on an
/// ancestor carries down to every descendant.
pub proof fn lemma_ancestor_chain_is_prefix(id: Seq<char>, sep: char, root: Seq<char>, j: int)
    requires
        0 <= j < id.len(),
        id[j] == sep,
        id != root,
        id.subrange(0, j) != root,
    ensures
        parent_stems_spec(id.subrange(0, j), sep, root).push(id.subrange(0, j)).is_prefix_of(
            parent_stems_spec(id, sep, root),
        ),
{
    let a = id.subrange(0, j);
    lemma_sep_prefixes_of_take(id, sep, j, j);
    assert(id.take(j) =~= a);
    assert(sep_prefixes(a, sep, j) == sep_prefixes(id, sep, j));
    assert(sep_prefixes(id, sep, j + 1) == sep_prefixes(id, sep, j).push(id.subrange(0, j)));
    lemma_sep_prefixes_monotone(id, sep, j + 1, id.len() as int);
    let pa = parent_stems_spec(a, sep, root).push(a);
    let pn = parent_stems_spec(id, sep, root);
    assert(pa =~= seq![root] + sep_prefixes(id, sep, j + 1));
    assert(pa.len() <= pn.len());
    assert forall|k: int| 0 <= k < pa.len() implies pa[k] == pn[k] by {
        if k > 0 {
            assert(sep_prefixes(id, sep, j + 1)[k - 1] == sep_prefixes(
                id,
                sep,
                id.len() as int,
            ).subrange(0, sep_prefixes(id, sep, j + 1).len() as int)[k - 1]);
        }
    }
    assert(pa =~= pn.subrange(0, pa.len() as int));
}

impl StemConfig {
    /// A usable stem configuration: the separator is one character.
    pub open spec fn wf(&self) -> bool {
        self.separator@.len() == 1
    }

    /// The separator character.
    pub open spec fn sep(&self) -> char {
        self.separator@[0]
    }

    /// The separator character.
    pub fn separator_char(&self) -> (c: char)
        requires
            self.wf(),
        ensures
            c == self.sep(),
    {
        self.separator.get_char(0)
    }

    /// Accepts the root id and ids made of non-empty segments of allowed
    /// characters; everything else is `InvalidId`.
    pub fn validate_sgroup_id(&self, id: &str) -> (r: Result<(), MyErr>)
        requires
            self.wf(),
        ensures
            r is Ok <==> valid_sgroup_id(id@, self.sep(), self.root_id@),
            r is Err ==> r == Result::<(), MyErr>::Err(MyErr::InvalidId),
    {
        if str_eq(id, self.root_id.as_str()) {
            return Ok(());
        }
        let sep = self.separator_char();
        let n = id.unicode_len();
        if n == 0 {
            return Err(MyErr::InvalidId);
        }
        if id.get_char(0) == sep || id.get_char(n - 1) == sep {
            return Err(MyErr::InvalidId);
        }
        let mut i: usize = 0;
        while i < n
            invariant
                i <= n,
                n == id@.len(),
                sep == self.sep(),
                id@ != self.root_id@,
                n > 0,
                id@[0] != sep,
                id@[n - 1] != sep,
                forall|j: int| 0 <= j < i ==> #[trigger] id@[j] == sep || allowed_id_char(id@[j]),
                forall|j: int| 0 < j < i ==> !(id@[j - 1] == sep && #[trigger] id@[j] == sep),
            decreases n - i,
        {
            let c = id.get_char(i);
            let ok_char = c == sep || ('a' <= c && c <= 'z') || ('A' <= c && c <= 'Z') || ('0'
                <= c && c <= '9') || c == '-' || c == '_';
            if !ok_char {
                return Err(MyErr::InvalidId);
            }
            if i > 0 && c == sep && id.get_char(i - 1) == sep {
                return Err(MyErr::InvalidId);
            }
            i = i + 1;
        }
        Ok(())
    }

    /// The ancestor chain of `id`, root first.
    pub fn parent_stems(&self, id: &str) -> (r: Vec<String>)
        requires
            self.wf(),
        ensures
            r.deep_view() == parent_stems_spec(id@, self.sep(), self.root_id@),
    {
        let mut r: Vec<String> = Vec::new();
        if str_eq(id, self.root_id.as_str()) {
            proof {
                assert(r.deep_view() =~= parent_stems_spec(id@, self.sep(), self.root_id@));
            }
            return r;
        }
        r.push(self.root_id.clone());
        let sep = self.separator_char();
        let n = id.unicode_len();
        proof {
            assert(r.deep_view() =~= seq![self.root_id@] + sep_prefixes(id@, sep, 0));
        }
        let mut i: usize = 0;
        while i < n
            invariant
                i <= n,
                n == id@.len(),
                sep == self.sep(),
                id@ != self.root_id@,
                r.deep_view() =~= seq![self.root_id@] + sep_prefixes(id@, sep, i as int),
            decreases n - i,
        {
            let ghost old_dv = r.deep_view();
            if id.get_char(i) == sep {
                r.push(substr(id, 0, i));
                proof {
                    assert(r.deep_view() =~= old_dv.push(id@.subrange(0, i as int)));
                }
            }
            proof {
                assert(sep_prefixes(id@, sep, i + 1) == if id@[i as int] == sep {
                    sep_prefixes(id@, sep, i as int).push(id@.subrange(0, i as int))
                } else {
                    sep_prefixes(id@, sep, i as int)
                });
                assert(r.deep_view() =~= seq![self.root_id@] + sep_prefixes(id@, sep, i + 1));
            }
            i = i + 1;
        }
        r
    }

    /// The immediate parent of `id`, or none for the root.
    pub fn parent_stem(&self, id: &str) -> (r: Option<String>)
        requires
            self.wf(),
        ensures
            match r {
                Some(p) => parent_stem_spec(id@, self.sep(), self.root_id@) == Some(p@),
                None => id@ == self.root_id@,
            },
    {
        let stems = self.parent_stems(id);
        if stems.len() == 0 {
            proof {
                if id@ != self.root_id@ {
                    assert(stems.deep_view().len() >= 1);
                }
            }
            None
        } else {
            let p = stems[stems.len() - 1].clone();
            proof {
                assert(stems.deep_view().last() == p@);
                assert(id@ != self.root_id@);
            }
            Some(p)
        }
    }
}

} // verus!
