//! Access control: when an API token is configured, the API answers only
//! requests that present it as a bearer token.
use vstd::prelude::*;
use crate::error::AppError;
use crate::validation::{opt_str_view, opt_view};

verus! {

/// Paths of the API: `/api` and everything under `/api/`.
pub open spec fn is_api_path(path: Seq<char>) -> bool {
    path == seq!['/', 'a', 'p', 'i'] || (path.len() >= 5 && path.take(5) == seq![
        '/',
        'a',
        'p',
        'i',
        '/',
    ])
}

/// The value of an `Authorization` header that presents `token`.
pub open spec fn bearer_value(token: Seq<char>) -> Seq<char> {
    "Bearer "@ + token
}

/// Whether a request for `path` with the `Authorization` header `header` may
/// go through when the configured token is `token`.
pub open spec fn may_pass(token: Option<Seq<char>>, path: Seq<char>, header: Option<Seq<char>>) -> bool {
    match token {
        None => true,
        Some(t) => !is_api_path(path) || header == Some(bearer_value(t)),
    }
}

/// The value of an `Authorization` header that presents `token`.
pub fn bearer(token: &str) -> (h: String)
    ensures
        h@ == bearer_value(token@),
{
    let mut h = String::from_str("Bearer ");
    h.append(token);
    h
}

/// Whether `path` is a path of the API.
pub fn api_path(path: &str) -> (b: bool)
    ensures
        b == is_api_path(path@),
{
    let cs = crate::text::chars_of(path);
    let n = cs.len();
    let starts = n >= 4 && cs[0] == '/' && cs[1] == 'a' && cs[2] == 'p' && cs[3] == 'i';
    let r = starts && (n == 4 || cs[4] == '/');
    proof {
        if path@ == seq!['/', 'a', 'p', 'i'] {
            assert(path@[0] == '/' && path@[3] == 'i');
        }
        if path@.len() >= 5 && path@.take(5) == seq!['/', 'a', 'p', 'i', '/'] {
            assert(path@.take(5)[0] == '/' && path@.take(5)[1] == 'a' && path@.take(5)[2] == 'p'
                && path@.take(5)[3] == 'i' && path@.take(5)[4] == '/');
        }
        if r && n == 4 {
            assert(path@ =~= seq!['/', 'a', 'p', 'i']);
        }
        if r && n > 4 {
            assert(path@.take(5) =~= seq!['/', 'a', 'p', 'i', '/']);
        }
    }
    r
}

/// Lets a request through, or answers `Unauthorized`: with a configured
/// token, requests for API paths must carry `Authorization: Bearer <token>`;
/// without one, and for other paths, every request goes through.
pub fn authorize(token: &Option<String>, path: &str, authorization: Option<&str>) -> (r: Result<
    (),
    AppError,
>)
    ensures
        may_pass(opt_view(*token), path@, opt_str_view(authorization)) ==> r is Ok,
        !may_pass(opt_view(*token), path@, opt_str_view(authorization)) ==> r matches Err(AppError::Unauthorized),
        token is None ==> r is Ok,
        token matches Some(t) && authorization matches Some(h) && h@ == "Bearer "@ + t@ ==> r is Ok,
        token matches Some(t) && is_api_path(path@) && !(authorization matches Some(h) && h@
            == "Bearer "@ + t@) ==> r matches Err(AppError::Unauthorized),
{
    proof {
        if let Some(t) = token {
            law_bearer_token_admits(t@, path@, opt_str_view(authorization));
        }
    }
    match token {
        None => Ok(()),
        Some(t) => {
            if !api_path(path) {
                return Ok(());
            }
            let expected = bearer(t.as_str());
            match authorization {
                Some(h) => if h.eq(expected.as_str()) {
                    Ok(())
                } else {
                    Err(AppError::Unauthorized)
                },
                None => Err(AppError::Unauthorized),
            }
        },
    }
}

/// With a configured token `t`, of any length and content, a request that
/// presents `Authorization: Bearer ` followed by `t` goes through, whatever
/// its path; a request for `/api` or a path under `/api/` that presents
/// anything else, or nothing, is refused; a request for any other path goes
/// through. Without a configured token every request goes through.
pub proof fn law_bearer_token_admits(t: Seq<char>, path: Seq<char>, header: Option<Seq<char>>)
    ensures
        may_pass(None, path, header),
        may_pass(Some(t), path, Some("Bearer "@ + t)),
        (path == seq!['/', 'a', 'p', 'i'] || (path.len() >= 5 && path.take(5) == seq![
            '/',
            'a',
            'p',
            'i',
            '/',
        ])) && header != Some("Bearer "@ + t) ==> !may_pass(Some(t), path, header),
        !(path == seq!['/', 'a', 'p', 'i'] || (path.len() >= 5 && path.take(5) == seq![
            '/',
            'a',
            'p',
            'i',
            '/',
        ])) ==> may_pass(Some(t), path, header),
{
}

} // verus!
