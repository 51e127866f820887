use vstd::prelude::*;

use crate::text::{chars_equal, chars_of};

verus! {

/// The protocol version named on a request line.
#[derive(Debug, PartialEq, Eq, Structural)]
pub enum HttpVersion {
    V1_0,
    V1_1,
    NoSupport,
}

/// The version that a wire token names.
pub open spec fn version_of(token: Seq<char>) -> HttpVersion {
    if token == seq!['H', 'T', 'T', 'P', '/', '1', '.', '0'] {
        HttpVersion::V1_0
    } else if token == seq!['H', 'T', 'T', 'P', '/', '1', '.', '1'] {
        HttpVersion::V1_1
    } else {
        HttpVersion::NoSupport
    }
}

/// How a version is written on the wire.
pub open spec fn version_text(v: HttpVersion) -> Seq<char> {
    match v {
        HttpVersion::V1_0 => seq!['H', 'T', 'T', 'P', '/', '1', '.', '0'],
        HttpVersion::V1_1 => seq!['H', 'T', 'T', 'P', '/', '1', '.', '1'],
        HttpVersion::NoSupport => seq!['N', 'o', 'S', 'u', 'p', 'p', 'o', 'r', 't'],
    }
}

/// Reads a version token.
pub fn version_from_str(value: &str) -> (r: HttpVersion)
    ensures
        r == version_of(value@),
{
    proof {
        reveal_strlit("HTTP/1.0");
        reveal_strlit("HTTP/1.1");
        assert("HTTP/1.0"@ =~= seq!['H', 'T', 'T', 'P', '/', '1', '.', '0']);
        assert("HTTP/1.1"@ =~= seq!['H', 'T', 'T', 'P', '/', '1', '.', '1']);
    }
    let c = chars_of(value);
    if chars_equal(c.as_slice(), "HTTP/1.0") {
        HttpVersion::V1_0
    } else if chars_equal(c.as_slice(), "HTTP/1.1") {
        HttpVersion::V1_1
    } else {
        HttpVersion::NoSupport
    }
}

impl HttpVersion {
    pub fn as_string(&self) -> (r: String)
        ensures
            r@ == version_text(*self),
    {
        proof {
            reveal_strlit("HTTP/1.0");
            reveal_strlit("HTTP/1.1");
            reveal_strlit("NoSupport");
        }
        match self {
            HttpVersion::V1_0 => {
                let r = "HTTP/1.0".to_owned();
                assert(r@ =~= version_text(*self));
                r
            },
            HttpVersion::V1_1 => {
                let r = "HTTP/1.1".to_owned();
                assert(r@ =~= version_text(*self));
                r
            },
            HttpVersion::NoSupport => {
                let r = "NoSupport".to_owned();
                assert(r@ =~= version_text(*self));
                r
            },
        }
    }

    pub fn is_supported(&self) -> (r: bool)
        ensures
            r == !(*self is NoSupport),
    {
        !matches!(self, HttpVersion::NoSupport)
    }
}

impl Default for HttpVersion {
    fn default() -> (r: HttpVersion)
        ensures
            r == HttpVersion::V1_1,
    {
        HttpVersion::V1_1
    }
}

impl<'a> From<&'a str> for HttpVersion {
    fn from(value: &'a str) -> (r: HttpVersion) {
        version_from_str(value)
    }
}

impl<'a> vstd::std_specs::convert::FromSpecImpl<&'a str> for HttpVersion {
    open spec fn obeys_from_spec() -> bool {
        true
    }

    open spec fn from_spec(v: &'a str) -> HttpVersion {
        version_of(v@)
    }
}

} // verus!
