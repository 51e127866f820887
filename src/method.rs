use vstd::prelude::*;

use crate::text::{chars_equal, chars_of};
use vstd::std_specs::convert::IntoSpec;

verus! {

/// The request methods this server knows; any other token is `NoSupport`.
#[derive(Debug, PartialEq, Eq, Clone, Copy, Hash, Structural)]
pub enum HttpMethod {
    Get,
    Post,
    NoSupport,
}

/// The method that a wire token names.
pub open spec fn method_of(token: Seq<char>) -> HttpMethod {
    if token == seq!['G', 'E', 'T'] {
        HttpMethod::Get
    } else if token == seq!['P', 'O', 'S', 'T'] {
        HttpMethod::Post
    } else {
        HttpMethod::NoSupport
    }
}

/// Reads a method token.
pub fn method_from_str(value: &str) -> (r: HttpMethod)
    ensures
        r == method_of(value@),
{
    proof {
        reveal_strlit("GET");
        reveal_strlit("POST");
        assert("GET"@ =~= seq!['G', 'E', 'T']);
        assert("POST"@ =~= seq!['P', 'O', 'S', 'T']);
    }
    let c = chars_of(value);
    if chars_equal(c.as_slice(), "GET") {
        HttpMethod::Get
    } else if chars_equal(c.as_slice(), "POST") {
        HttpMethod::Post
    } else {
        HttpMethod::NoSupport
    }
}

impl<'a> From<&'a str> for HttpMethod {
    fn from(value: &'a str) -> (r: HttpMethod) {
        method_from_str(value)
    }
}

impl<'a> vstd::std_specs::convert::FromSpecImpl<&'a str> for HttpMethod {
    open spec fn obeys_from_spec() -> bool {
        true
    }

    open spec fn from_spec(v: &'a str) -> HttpMethod {
        method_of(v@)
    }
}

impl From<String> for HttpMethod {
    fn from(value: String) -> (r: HttpMethod) {
        method_from_str(value.as_str())
    }
}

impl vstd::std_specs::convert::FromSpecImpl<String> for HttpMethod {
    open spec fn obeys_from_spec() -> bool {
        true
    }

    open spec fn from_spec(v: String) -> HttpMethod {
        method_of(v@)
    }
}

impl HttpMethod {
    /// Whether `method`, once converted, is a method this server serves.
    pub fn is_support<T: Into<HttpMethod>>(method: T) -> (r: bool)
        ensures
            <T as IntoSpec<HttpMethod>>::obeys_into_spec() ==> r == (<T as IntoSpec<HttpMethod>>::into_spec(method) != HttpMethod::NoSupport),
    {
        let m: HttpMethod = method.into();
        m != HttpMethod::NoSupport
    }
}

} // verus!
