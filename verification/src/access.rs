//! Access decisions for device and administrator requests.

use vstd::prelude::*;
use crate::config::opt_view;
use crate::error::AppError;
use crate::text::{chars_of, same_chars};

verus! {

/// `Bearer `, the prefix of a bearer `Authorization` header.
pub open spec fn bearer_prefix() -> Seq<char> {
    seq!['B', 'e', 'a', 'r', 'e', 'r', ' ']
}

/// The token of an `Authorization` header value, when it is a bearer header
/// (`str::strip_prefix("Bearer ")`).
pub open spec fn bearer_of(header: Option<Seq<char>>) -> Option<Seq<char>> {
    match header {
        Some(h) => if h.len() >= 7 && h.subrange(0, 7) == bearer_prefix() {
            Some(h.subrange(7, h.len() as int))
        } else {
            None
        },
        None => None,
    }
}

/// Device requests are open when no device token is configured; otherwise
/// they must carry the token as a bearer header or as the `token` query
/// parameter.
pub open spec fn device_allowed(expected: Option<Seq<char>>, header: Option<Seq<char>>, query: Option<Seq<char>>) -> bool {
    match expected {
        None => true,
        Some(e) => bearer_of(header) == Some(e) || query == Some(e),
    }
}

/// Administrator requests always need a configured device token, carried
/// as a bearer header.
pub open spec fn admin_allowed(expected: Option<Seq<char>>, header: Option<Seq<char>>) -> bool {
    match expected {
        None => false,
        Some(e) => bearer_of(header) == Some(e),
    }
}

/// Whether the `Authorization` header value carries `expected` as its
/// bearer token.
fn bearer_matches(header: Option<&str>, expected: &str) -> (b: bool)
    ensures
        b == (bearer_of(opt_view(header)) == Some(expected@)),
{
    match header {
        None => false,
        Some(h) => {
            let v = chars_of(h);
            let want = chars_of(expected);
            if v.len() < 7 {
                return false;
            }
            let mut i: usize = 0;
            while i < 7
                invariant
                    i <= 7 <= v.len(),
                    v@ == h@,
                    opt_view(header) == Some(h@),
                    forall|j: int| 0 <= j < i ==> v@[j] == bearer_prefix()[j],
                decreases 7 - i,
            {
                assert(bearer_prefix()[0] == 'B' && bearer_prefix()[1] == 'e' && bearer_prefix()[2] == 'a'
                    && bearer_prefix()[3] == 'r' && bearer_prefix()[4] == 'e' && bearer_prefix()[5] == 'r'
                    && bearer_prefix()[6] == ' ');
                let c = v[i];
                let ok = if i == 0 {
                    c == 'B'
                } else if i == 1 {
                    c == 'e'
                } else if i == 2 {
                    c == 'a'
                } else if i == 3 {
                    c == 'r'
                } else if i == 4 {
                    c == 'e'
                } else if i == 5 {
                    c == 'r'
                } else {
                    c == ' '
                };
                if !ok {
                    assert(v@.subrange(0, 7)[i as int] != bearer_prefix()[i as int]);
                    return false;
                }
                i = i + 1;
            }
            assert(v@.subrange(0, 7) == bearer_prefix());
            let rest = crate::text::string_of(&v, 7, v.len());
            let r = chars_of(rest.as_str());
            let same = same_chars(&r, &want);
            same
        },
    }
}

/// Admits a device request (see `device_allowed`); `authorization` is the
/// `Authorization` header value, `query_token` the `token` query parameter.
pub fn authorize(expected: Option<&str>, authorization: Option<&str>, query_token: Option<&str>) -> (r: Result<(), AppError>)
    ensures
        r is Ok <==> device_allowed(opt_view(expected), opt_view(authorization), opt_view(query_token)),
        r matches Err(e) ==> e == AppError::Unauthorized,
{
    match expected {
        None => Ok(()),
        Some(e) => {
            if bearer_matches(authorization, e) {
                return Ok(());
            }
            match query_token {
                Some(q) => {
                    let qv = chars_of(q);
                    let ev = chars_of(e);
                    if same_chars(&qv, &ev) {
                        Ok(())
                    } else {
                        Err(AppError::Unauthorized)
                    }
                },
                None => Err(AppError::Unauthorized),
            }
        },
    }
}

/// Admits an administrator request (see `admin_allowed`).
pub fn authorize_admin(expected: Option<&str>, authorization: Option<&str>) -> (r: Result<(), AppError>)
    ensures
        r is Ok <==> admin_allowed(opt_view(expected), opt_view(authorization)),
        r matches Err(e) ==> e == AppError::Unauthorized,
{
    match expected {
        None => Err(AppError::Unauthorized),
        Some(e) => {
            if bearer_matches(authorization, e) {
                Ok(())
            } else {
                Err(AppError::Unauthorized)
            }
        },
    }
}

/// Every request admitted as an administrator's is admitted as a device's.
pub proof fn law_admin_access_implies_device_access(
    expected: Option<Seq<char>>,
    header: Option<Seq<char>>,
    query: Option<Seq<char>>,
)
    ensures
        admin_allowed(expected, header) ==> device_allowed(expected, header, query),
{
}

/// Without a configured device token, device routes are open and
/// administrator routes are closed.
pub proof fn law_no_token_opens_devices_and_closes_admin(header: Option<Seq<char>>, query: Option<Seq<char>>)
    ensures
        device_allowed(None, header, query),
        !admin_allowed(None, header),
{
}

/// With a configured token, a bearer header carrying it admits both device
/// and administrator requests; the token as query parameter admits device
/// requests; a header that is not `Bearer <token>` admits neither through
/// the header.
pub proof fn law_token_admission(token: Seq<char>, other: Seq<char>, query: Option<Seq<char>>)
    ensures
        device_allowed(Some(token), Some("Bearer "@ + token), query),
        admin_allowed(Some(token), Some("Bearer "@ + token)),
        device_allowed(Some(token), None, Some(token)),
        !admin_allowed(Some(token), None),
        other != token ==> !admin_allowed(Some(token), Some("Bearer "@ + other)),
        other != token && query != Some(token) ==> !device_allowed(
            Some(token),
            Some("Bearer "@ + other),
            query,
        ),
{
    reveal_strlit("Bearer ");
    let h = "Bearer "@ + token;
    assert(h.subrange(0, 7) == bearer_prefix());
    assert(h.subrange(7, h.len() as int) == token);
    let g = "Bearer "@ + other;
    assert(g.subrange(0, 7) == bearer_prefix());
    assert(g.subrange(7, g.len() as int) == other);
}

} // verus!
