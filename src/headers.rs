use vstd::prelude::*;

verus! {

/// Header fields as (name, value) pairs of characters, in insertion order.
pub type HeaderSeq = Seq<(Seq<char>, Seq<char>)>;

/// No two fields share a name.
pub open spec fn names_unique(s: HeaderSeq) -> bool {
    forall|i: int, j: int| 0 <= i < j < s.len() ==> #[trigger] s[i].0 != #[trigger] s[j].0
}

/// The name-to-value mapping that a field list stands for; a later field wins.
pub open spec fn fields_map(s: HeaderSeq) -> Map<Seq<char>, Seq<char>>
    decreases s.len(),
{
    if s.len() == 0 {
        Map::empty()
    } else {
        fields_map(s.drop_last()).insert(s.last().0, s.last().1)
    }
}

/// The name and value characters of one stored field.
pub open spec fn field_view(e: (String, String)) -> (Seq<char>, Seq<char>) {
    (e.0@, e.1@)
}

/// The names present in a field list are exactly the keys of its mapping.
pub proof fn lemma_fields_map_domain(s: HeaderSeq, k: Seq<char>)
    ensures
        fields_map(s).contains_key(k) <==> exists|i: int| 0 <= i < s.len() && #[trigger] s[i].0 == k,
    decreases s.len(),
{
    if s.len() > 0 {
        lemma_fields_map_domain(s.drop_last(), k);
        if fields_map(s.drop_last()).contains_key(k) {
            let i = choose|i: int| 0 <= i < s.drop_last().len() && #[trigger] s.drop_last()[i].0 == k;
            assert(s[i].0 == k);
        }
        if exists|i: int| 0 <= i < s.len() && #[trigger] s[i].0 == k {
            let i = choose|i: int| 0 <= i < s.len() && #[trigger] s[i].0 == k;
            if i < s.len() - 1 {
                assert(s.drop_last()[i].0 == k);
            }
        }
    }
}

/// With unique names, each field's value is what its name maps to.
pub proof fn lemma_fields_map_at(s: HeaderSeq, i: int)
    requires
        names_unique(s),
        0 <= i < s.len(),
    ensures
        fields_map(s).contains_key(s[i].0),
        fields_map(s)[s[i].0] == s[i].1,
    decreases s.len(),
{
    if i < s.len() - 1 {
        let t = s.drop_last();
        assert(t[i] == s[i]);
        assert(names_unique(t));
        lemma_fields_map_at(t, i);
    }
}

/// Replacing the value of the field at `i` replaces the value of its name.
pub proof fn lemma_fields_map_update(s: HeaderSeq, i: int, v: Seq<char>)
    requires
        names_unique(s),
        0 <= i < s.len(),
    ensures
        names_unique(s.update(i, (s[i].0, v))),
        fields_map(s.update(i, (s[i].0, v))) == fields_map(s).insert(s[i].0, v),
    decreases s.len(),
{
    let u = s.update(i, (s[i].0, v));
    assert(names_unique(u)) by {
        assert forall|a: int, b: int| 0 <= a < b < u.len() implies #[trigger] u[a].0 != #[trigger] u[b].0 by {
            assert(u[a].0 == s[a].0 && u[b].0 == s[b].0);
        }
    }
    if i == s.len() - 1 {
        assert(u.drop_last() == s.drop_last());
    } else {
        let t = s.drop_last();
        assert(names_unique(t));
        lemma_fields_map_update(t, i, v);
        assert(u.drop_last() == t.update(i, (t[i].0, v)));
        assert(s.last().0 != s[i].0);
        assert(fields_map(u) =~= fields_map(s).insert(s[i].0, v));
    }
}

/// Header fields; a name appears at most once, and setting a name again replaces its value.
#[derive(Debug)]
pub struct HttpHeaders {
    entries: Vec<(String, String)>,
}

impl View for HttpHeaders {
    type V = HeaderSeq;

    closed spec fn view(&self) -> HeaderSeq {
        self.entries@.map_values(|e: (String, String)| field_view(e))
    }
}

impl HttpHeaders {
    /// Well-formed: no name appears twice. Every value built by these methods is.
    pub open spec fn wf(&self) -> bool {
        names_unique(self@)
    }

    /// The fields as a mapping from name to value.
    pub open spec fn map(&self) -> Map<Seq<char>, Seq<char>> {
        fields_map(self@)
    }

    pub fn new() -> (r: HttpHeaders)
        ensures
            r.wf(),
            r@ == HeaderSeq::empty(),
    {
        let r = HttpHeaders { entries: Vec::new() };
        assert(r@ =~= HeaderSeq::empty());
        r
    }

    /// Position of the field named `k`, if any.
    fn position(&self, k: &String) -> (r: Option<usize>)
        ensures
            match r {
                Some(i) => i < self@.len() && self@[i as int].0 == k@,
                None => forall|i: int| 0 <= i < self@.len() ==> #[trigger] self@[i].0 != k@,
            },
    {
        let n = self.entries.len();
        let mut i: usize = 0;
        while i < n
            invariant
                n == self.entries@.len(),
                n == self@.len(),
                i <= n,
                forall|j: int| 0 <= j < i ==> #[trigger] self@[j].0 != k@,
            decreases n - i,
        {
            if self.entries[i].0 == *k {
                return Some(i);
            }
            i = i + 1;
        }
        None
    }

    /// Sets header `k` to `v`: the value of an existing field is replaced in place,
    /// otherwise the field is appended.
    pub fn insert(&mut self, k: &str, v: &str)
        requires
            old(self).wf(),
        ensures
            final(self).wf(),
            forall|i: int|
                0 <= i < old(self)@.len() && #[trigger] old(self)@[i].0 == k@
                    ==> final(self)@ == old(self)@.update(i, (k@, v@)),
            (forall|i: int| 0 <= i < old(self)@.len() ==> #[trigger] old(self)@[i].0 != k@)
                ==> final(self)@ == old(self)@.push((k@, v@)),
            final(self).map() == old(self).map().insert(k@, v@),
    {
        let key = k.to_owned();
        let val = v.to_owned();
        match self.position(&key) {
            Some(i) => {
                proof {
                    lemma_fields_map_update(self@, i as int, v@);
                }
                self.entries.set(i, (key, val));
                assert(self@ =~= old(self)@.update(i as int, (k@, v@)));
            },
            None => {
                self.entries.push((key, val));
                assert(self@ =~= old(self)@.push((k@, v@)));
                assert(self@.drop_last() == old(self)@);
            },
        }
    }

    /// The value of header `k`, if set.
    pub fn get(&self, k: &str) -> (r: Option<&String>)
        requires
            self.wf(),
        ensures
            match r {
                Some(v) => self.map().contains_key(k@) && self.map()[k@] == v@,
                None => !self.map().contains_key(k@),
            },
    {
        let key = k.to_owned();
        match self.position(&key) {
            Some(i) => {
                proof {
                    lemma_fields_map_at(self@, i as int);
                }
                Some(&self.entries[i].1)
            },
            None => {
                proof {
                    lemma_fields_map_domain(self@, k@);
                }
                None
            },
        }
    }

    /// Whether header `key` is set.
    pub fn contains_key(&self, key: &str) -> (r: bool)
        ensures
            r == self.map().contains_key(key@),
    {
        proof {
            lemma_fields_map_domain(self@, key@);
        }
        let k = key.to_owned();
        match self.position(&k) {
            Some(_) => true,
            None => false,
        }
    }

    /// The fields in insertion order.
    pub fn iter(&self) -> (r: &[(String, String)])
        ensures
            r@.map_values(|e: (String, String)| field_view(e)) == self@,
    {
        self.entries.as_slice()
    }

    /// The number of fields.
    pub fn len(&self) -> (r: usize)
        ensures
            r == self@.len(),
    {
        self.entries.len()
    }
}

impl Default for HttpHeaders {
    fn default() -> (r: HttpHeaders)
        ensures
            r.wf(),
            r@ == HeaderSeq::empty(),
    {
        HttpHeaders::new()
    }
}

} // verus!
