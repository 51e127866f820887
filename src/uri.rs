use vstd::prelude::*;

verus! {

/// The raw path of a request target; no scheme, host or query is split off.
#[derive(Debug)]
pub struct HttpUri {
    pub path: String,
}

impl HttpUri {
    pub fn new() -> (r: HttpUri)
        ensures
            r.path@ == Seq::<char>::empty(),
    {
        HttpUri { path: String::new() }
    }

    pub fn as_string(&self) -> (r: String)
        ensures
            r@ == self.path@,
    {
        self.path.clone()
    }
}

impl Default for HttpUri {
    fn default() -> (r: HttpUri)
        ensures
            r.path@ == Seq::<char>::empty(),
    {
        HttpUri::new()
    }
}

impl<'a> From<&'a str> for HttpUri {
    fn from(value: &'a str) -> (r: HttpUri)
        ensures
            r.path@ == value@,
    {
        HttpUri { path: value.to_owned() }
    }
}

/// A copied path cannot be written as a spec value, so the conversion from `&str` states
/// its result in its own `ensures`.
impl<'a> vstd::std_specs::convert::FromSpecImpl<&'a str> for HttpUri {
    open spec fn obeys_from_spec() -> bool {
        false
    }

    open spec fn from_spec(v: &'a str) -> HttpUri {
        arbitrary()
    }
}

impl From<String> for HttpUri {
    fn from(value: String) -> (r: HttpUri)
        ensures
            r.path@ == value@,
    {
        HttpUri { path: value }
    }
}

impl vstd::std_specs::convert::FromSpecImpl<String> for HttpUri {
    open spec fn obeys_from_spec() -> bool {
        true
    }

    open spec fn from_spec(v: String) -> HttpUri {
        HttpUri { path: v }
    }
}

} // verus!
