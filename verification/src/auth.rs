//! Detecting authentication hints in crawled page contents.

use vstd::prelude::*;
use vstd::string::StringExecFns;
use crate::text::{contains_seq, contains_sub, lower_of, to_lower};

verus! {

/// Whether a page's path looks like a sign-in location.
pub open spec fn login_path(path: Seq<char>) -> bool {
    contains_seq(path, "login"@) || contains_seq(path, "signin"@) || contains_seq(path, "auth"@)
}

/// Whether a page's case-folded content looks like a login form.
pub open spec fn login_content(content: Seq<char>) -> bool {
    contains_seq(lower_of(content), "password"@) && contains_seq(lower_of(content), "input"@)
}

/// Whether a page's case-folded content hints at bearer-token
/// authentication.
pub open spec fn bearer_content(content: Seq<char>) -> bool {
    contains_seq(lower_of(content), "bearer"@) || contains_seq(lower_of(content), "authorization"@)
}

/// The hint reported for a login page found at `path`.
pub open spec fn login_hint(path: Seq<char>) -> Seq<char> {
    "Login page detected at "@ + path
        + ". Use BasicAuth or form-based authentication. Analyze the form structure for exact selectors."@
}

/// The hint reported when bearer-token authentication seems to be in use.
pub open spec fn bearer_hint() -> Seq<char> {
    "Bearer token authentication likely required. Check API documentation or network requests."@
}

/// The hint reported when no authentication pattern was found.
pub open spec fn no_auth_hint() -> Seq<char> {
    "No specific authentication method detected. Manual analysis required."@
}

/// The authentication hint for crawled pages, each a (path, content) pair,
/// scanned in order: the first page whose path looks like a sign-in
/// location and whose content looks like a login form gives a login hint
/// naming that path; failing that on a page, content mentioning bearer or
/// authorization gives the bearer hint; when no page matches, nothing was
/// detected.
pub open spec fn auth_hint(entries: Seq<(Seq<char>, Seq<char>)>) -> Seq<char>
    decreases entries.len(),
{
    if entries.len() == 0 {
        no_auth_hint()
    } else if login_path(entries.first().0) && login_content(entries.first().1) {
        login_hint(entries.first().0)
    } else if bearer_content(entries.first().1) {
        bearer_hint()
    } else {
        auth_hint(entries.drop_first())
    }
}

/// Scans crawled pages, each a (path, content) pair in order, for common
/// authentication patterns, and returns a human-readable hint: the first
/// detected login page's path, a bearer-token warning, or a default line
/// when nothing matched.
pub fn detect_auth_details(page_contents: &Vec<(String, String)>) -> (r: String)
    ensures
        r@ == auth_hint(page_contents.deep_view()),
{
    let ghost t0 = page_contents.deep_view();
    proof {
        assert(t0.skip(0) =~= t0);
    }
    let mut i: usize = 0;
    while i < page_contents.len()
        invariant
            i <= page_contents@.len(),
            t0 == page_contents.deep_view(),
            t0.len() == page_contents@.len(),
            auth_hint(t0) == auth_hint(t0.skip(i as int)),
        decreases page_contents@.len() - i,
    {
        proof {
            assert(t0.skip(i as int)[0] == t0[0 + i]);
            assert(t0[i as int] == page_contents@[i as int].deep_view());
            assert(t0.skip(i as int).drop_first() =~= t0.skip(i + 1));
        }
        let path = &page_contents[i].0;
        let content = &page_contents[i].1;
        let content_lower = to_lower(content.as_str());
        let on_login_path = contains_sub(path.as_str(), "login") || contains_sub(
            path.as_str(),
            "signin",
        ) || contains_sub(path.as_str(), "auth");
        if on_login_path && contains_sub(content_lower.as_str(), "password") && contains_sub(
            content_lower.as_str(),
            "input",
        ) {
            let mut msg = String::new();
            msg.append("Login page detected at ");
            msg.append(path.as_str());
            msg.append(
                ". Use BasicAuth or form-based authentication. Analyze the form structure for exact selectors.",
            );
            proof {
                assert(msg@ =~= login_hint(t0.skip(i as int).first().0));
            }
            return msg;
        }
        if contains_sub(content_lower.as_str(), "bearer") || contains_sub(
            content_lower.as_str(),
            "authorization",
        ) {
            let mut msg = String::new();
            msg.append(
                "Bearer token authentication likely required. Check API documentation or network requests.",
            );
            proof {
                assert(msg@ =~= bearer_hint());
            }
            return msg;
        }
        i += 1;
    }
    let mut msg = String::new();
    msg.append("No specific authentication method detected. Manual analysis required.");
    proof {
        assert(t0.skip(t0.len() as int).len() == 0);
        assert(msg@ =~= no_auth_hint());
    }
    msg
}

} // verus!
