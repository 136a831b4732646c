//! Parsing of a single-sign-on ticket validation response. The HTTP call
//! itself lives outside; this module decides what the response body says:
//! a successful validation carries the authenticated user id between the
//! user tags.

use vstd::prelude::*;
use vstd::string::StrSliceExecFns;
use crate::str_utils::{find_str_from, occurs_at, substr};

verus! {

/// The text between the first occurrence of `start_tag` and the next
/// occurrence of `end_tag` after it, if both are found.
pub fn between(s: &str, start_tag: &str, end_tag: &str) -> (r: Option<String>)
    ensures
        match r {
            Some(x) => exists|i: int, j: int|
                {
                    &&& #[trigger] occurs_at(s@, start_tag@, i)
                    &&& forall|k: int| 0 <= k < i ==> !occurs_at(s@, start_tag@, k)
                    &&& i + start_tag@.len() <= j
                    &&& #[trigger] occurs_at(s@, end_tag@, j)
                    &&& forall|k: int|
                        i + start_tag@.len() <= k < j ==> !occurs_at(s@, end_tag@, k)
                    &&& x@ == s@.subrange(i + start_tag@.len(), j)
                },
            None => (forall|i: int| !occurs_at(s@, start_tag@, i)) || exists|i: int|
                {
                    &&& #[trigger] occurs_at(s@, start_tag@, i)
                    &&& forall|k: int| 0 <= k < i ==> !occurs_at(s@, start_tag@, k)
                    &&& forall|k: int| i + start_tag@.len() <= k ==> !occurs_at(s@, end_tag@, k)
                },
        },
{
    let n = s.unicode_len();
    let i = match find_str_from(s, start_tag, 0) {
        Some(i) => i,
        None => {
            proof {
                assert forall|k: int| !occurs_at(s@, start_tag@, k) by {
                    if occurs_at(s@, start_tag@, k) {
                        assert(0 <= k);
                    }
                }
            }
            return None;
        },
    };
    let from = i + start_tag.unicode_len();
    let j = match find_str_from(s, end_tag, from) {
        Some(j) => j,
        None => {
            return None;
        },
    };
    Some(substr(s, from, j))
}

/// The marker of a successful validation.
pub fn cas_success_tag() -> (r: &'static str)
    ensures
        r@ == "<cas:authenticationSuccess>"@,
{
    "<cas:authenticationSuccess>"
}

/// Reads the authenticated user out of a ticket validation response: the
/// text between the user tags, provided the body reports success.
pub fn parse_cas_response(body: &str) -> (r: Option<String>)
    ensures
        (forall|i: int| !occurs_at(body@, "<cas:authenticationSuccess>"@, i)) ==> r is None,
        r matches Some(x) ==> exists|i: int, j: int|
            {
                &&& #[trigger] occurs_at(body@, "<cas:user>"@, i)
                &&& forall|k: int| 0 <= k < i ==> !occurs_at(body@, "<cas:user>"@, k)
                &&& i + "<cas:user>"@.len() <= j
                &&& #[trigger] occurs_at(body@, "</"@, j)
                &&& forall|k: int| i + "<cas:user>"@.len() <= k < j ==> !occurs_at(body@, "</"@, k)
                &&& x@ == body@.subrange(i + "<cas:user>"@.len(), j)
            },
{
    match find_str_from(body, cas_success_tag(), 0) {
        Some(_) => between(body, "<cas:user>", "</"),
        None => None,
    }
}

} // verus!
