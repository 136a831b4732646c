//! The remote subject query model. A direct member value may be, instead
//! of a subject URL, a remote query URL `sql://<remote-id>?<select>`: the
//! named remote runs the query and the scalar results are resolved into
//! subject DNs elsewhere. This module parses and prints that URL form; the
//! query execution is the surrounding application's.

use vstd::prelude::*;
use vstd::string::StrSliceExecFns;
use crate::str_utils::{concat3, find_str_from, occurs_at, starts_with_str, substr};

verus! {

broadcast use vstd::string::group_string_axioms;

/// A parsed remote query: which configured remote, and the query to run.
pub struct RemoteSqlQuery {
    pub remote_cfg_name: String,
    pub select_query: String,
}

/// What a parsed remote query URL relates to its parts: the URL begins
/// with the scheme, the name runs to the first question mark, and the
/// query is everything after it.
pub open spec fn parsed_sql_url(url: Seq<char>, name: Seq<char>, query: Seq<char>) -> bool {
    exists|q: int|
        {
            &&& "sql://"@.is_prefix_of(url)
            &&& 6 <= q < url.len()
            &&& #[trigger] url[q] == '?'
            &&& forall|k: int| 6 <= k < q ==> url[k] != '?'
            &&& name == url.subrange(6, q)
            &&& query == url.subrange(q + 1, url.len() as int)
        }
}

/// No remote query can be read out of the URL: it lacks the scheme or the
/// question mark.
pub open spec fn not_sql_url(url: Seq<char>) -> bool {
    !"sql://"@.is_prefix_of(url) || forall|k: int| 6 <= k < url.len() ==> url[k] != '?'
}

/// Reads a remote query out of its URL form.
pub fn parse_sql_url(url: &str) -> (r: Option<RemoteSqlQuery>)
    ensures
        match r {
            Some(rq) => parsed_sql_url(url@, rq.remote_cfg_name@, rq.select_query@),
            None => not_sql_url(url@),
        },
{
    proof {
        reveal_strlit("sql://");
    }
    if !starts_with_str(url, "sql://") {
        return None;
    }
    let q = match find_str_from(url, "?", 6) {
        Some(q) => q,
        None => {
            proof {
                reveal_strlit("?");
                assert forall|k: int| 6 <= k < url@.len() implies url@[k] != '?' by {
                    if url@[k] == '?' {
                        assert(url@.subrange(k, k + 1) =~= "?"@);
                        assert(occurs_at(url@, "?"@, k));
                    }
                }
            }
            return None;
        },
    };
    let n = url.unicode_len();
    proof {
        reveal_strlit("?");
        assert(q + 1 <= n);
    }
    let name = substr(url, 6, q);
    let query = substr(url, q + 1, n);
    proof {
        assert(url@.subrange(q as int, q + 1)[0] == url@[q as int]);
        assert(url@[q as int] == '?');
        assert forall|k: int| 6 <= k < q implies url@[k] != '?' by {
            if url@[k] == '?' {
                assert(url@.subrange(k, k + 1) =~= "?"@);
                assert(occurs_at(url@, "?"@, k));
            }
        }
    }
    Some(RemoteSqlQuery { remote_cfg_name: name, select_query: query })
}

impl RemoteSqlQuery {
    /// The URL form of a remote query, as stored in a member attribute.
    pub fn to_url(&self) -> (r: String)
        ensures
            r@ == "sql://"@ + self.remote_cfg_name@ + "?"@ + self.select_query@,
    {
        let r = concat3("sql://", self.remote_cfg_name.as_str(), "?").concat(
            self.select_query.as_str(),
        );
        proof {
            assert(r@ =~= "sql://"@ + self.remote_cfg_name@ + "?"@ + self.select_query@);
        }
        r
    }
}

/// The one place a remote query may stand in direct members: a list of
/// exactly one URL in query form. Any other list resolves as plain URLs.
pub fn direct_members_to_remote_sql_query(urls: &Vec<String>) -> (r: Option<RemoteSqlQuery>)
    ensures
        match r {
            Some(rq) => urls@.len() == 1 && parsed_sql_url(
                urls.deep_view()[0],
                rq.remote_cfg_name@,
                rq.select_query@,
            ),
            None => urls@.len() != 1 || not_sql_url(urls.deep_view()[0]),
        },
{
    if urls.len() != 1 {
        return None;
    }
    proof {
        assert(urls.deep_view()[0] == urls@[0]@);
    }
    parse_sql_url(urls[0].as_str())
}

} // verus!
