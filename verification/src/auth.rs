//! Extraction of the shared-secret token from a query string of
//! `&`-separated `key=value` segments.

use vstd::prelude::*;
use vstd::string::StrSliceExecFns;

use crate::strutil::str_eq;

verus! {

/// The key and value of one segment, split at its first `=` from position
/// `i` on; nothing when no `=` remains.
pub open spec fn eq_split_from(seg: Seq<char>, i: int) -> Option<(Seq<char>, Seq<char>)>
    decreases seg.len() - i,
{
    if i < 0 || i >= seg.len() {
        None
    } else if seg[i] == '=' {
        Some((seg.take(i), seg.skip(i + 1)))
    } else {
        eq_split_from(seg, i + 1)
    }
}

/// The token one segment supplies: the part after its first `=` when the
/// part before it is exactly `auth_key`.
pub open spec fn segment_token(seg: Seq<char>) -> Option<Seq<char>> {
    match eq_split_from(seg, 0) {
        Some((k, v)) => if k == "auth_key"@ {
            Some(v)
        } else {
            None
        },
        None => None,
    }
}

/// Scans the query from position `i` with the current segment starting at
/// `start`: the token of the first matching segment from there on.
pub open spec fn token_from(q: Seq<char>, start: int, i: int) -> Option<Seq<char>>
    decreases q.len() - i,
{
    if i < 0 || start < 0 || start > i {
        None
    } else if i >= q.len() {
        segment_token(q.subrange(start, q.len() as int))
    } else if q[i] == '&' {
        match segment_token(q.subrange(start, i)) {
            Some(v) => Some(v),
            None => token_from(q, i + 1, i + 1),
        }
    } else {
        token_from(q, start, i + 1)
    }
}

/// The token carried by the first `auth_key=...` segment of the query
/// string, if any.
pub open spec fn auth_token_of(q: Seq<char>) -> Option<Seq<char>> {
    token_from(q, 0, 0)
}

fn segment_auth(seg: &str) -> (r: Option<String>)
    ensures
        match r {
            Some(v) => segment_token(seg@) == Some(v@),
            None => segment_token(seg@) is None,
        },
{
    let n = seg.unicode_len();
    let mut j: usize = 0;
    while j < n
        invariant
            n == seg@.len(),
            0 <= j <= n,
            eq_split_from(seg@, 0) == eq_split_from(seg@, j as int),
        decreases n - j,
    {
        if seg.get_char(j) == '=' {
            let key = seg.substring_char(0, j);
            proof {
                assert(key@ =~= seg@.take(j as int));
            }
            if str_eq(key, "auth_key") {
                let v = seg.substring_char(j + 1, n);
                proof {
                    assert(v@ =~= seg@.skip(j + 1));
                }
                return Some(v.to_owned());
            } else {
                return None;
            }
        }
        j = j + 1;
    }
    None
}

/// Finds the token of the first `auth_key=...` segment in a query string,
/// exactly as `auth_token_of` describes: segments are separated by `&`,
/// each is split at its first `=`, and one without an `=` never matches.
pub fn find_auth_key(query: &str) -> (r: Option<String>)
    ensures
        match r {
            Some(v) => auth_token_of(query@) == Some(v@),
            None => auth_token_of(query@) is None,
        },
{
    let n = query.unicode_len();
    let mut start: usize = 0;
    let mut i: usize = 0;
    while i < n
        invariant
            n == query@.len(),
            0 <= start <= i <= n,
            auth_token_of(query@) == token_from(query@, start as int, i as int),
        decreases n - i,
    {
        if query.get_char(i) == '&' {
            let seg = query.substring_char(start, i);
            proof {
                assert(seg@ =~= query@.subrange(start as int, i as int));
            }
            match segment_auth(seg) {
                Some(v) => {
                    return Some(v);
                },
                None => {
                    start = i + 1;
                },
            }
        }
        i = i + 1;
    }
    let seg = query.substring_char(start, n);
    proof {
        assert(seg@ =~= query@.subrange(start as int, n as int));
    }
    segment_auth(seg)
}

/// Picks the request's token by fixed priority: the authorization header,
/// else the cookie, else the first `auth_key` query segment.
pub fn auth_token(header: Option<String>, cookie: Option<String>, query: &str) -> (r: Option<
    String,
>)
    ensures
        (match header {
            Some(h) => r == Some(h),
            None => match cookie {
                Some(c) => r == Some(c),
                None => match r {
                    Some(v) => auth_token_of(query@) == Some(v@),
                    None => auth_token_of(query@) is None,
                },
            },
        }),
{
    match header {
        Some(h) => Some(h),
        None => match cookie {
            Some(c) => Some(c),
            None => find_auth_key(query),
        },
    }
}

} // verus!
