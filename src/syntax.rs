use vstd::prelude::*;

verus! {

// Lines, tokens and fields of header text, over characters.

/// A character with the Unicode White_Space property.
pub open spec fn is_ws(c: char) -> bool {
    let u = c as u32;
    ||| 9 <= u <= 13
    ||| u == 32
    ||| u == 0x85
    ||| u == 0xa0
    ||| u == 0x1680
    ||| 0x2000 <= u <= 0x200a
    ||| u == 0x2028
    ||| u == 0x2029
    ||| u == 0x202f
    ||| u == 0x205f
    ||| u == 0x3000
}

pub fn is_whitespace(c: char) -> (r: bool)
    ensures
        r == is_ws(c),
{
    let u = c as u32;
    (9 <= u && u <= 13) || u == 32 || u == 0x85 || u == 0xa0 || u == 0x1680 || (0x2000 <= u && u
        <= 0x200a) || u == 0x2028 || u == 0x2029 || u == 0x202f || u == 0x205f || u == 0x3000
}

/// A line without the `\r` that preceded its `\n`.
pub open spec fn strip_cr(l: Seq<char>) -> Seq<char> {
    if l.len() > 0 && l.last() == '\r' {
        l.drop_last()
    } else {
        l
    }
}

/// The finished lines of `t` and the line still open at its end.
pub open spec fn line_state(t: Seq<char>) -> (Seq<Seq<char>>, Seq<char>)
    decreases t.len(),
{
    if t.len() == 0 {
        (Seq::empty(), Seq::empty())
    } else {
        let (done, cur) = line_state(t.drop_last());
        if t.last() == '\n' {
            (done.push(strip_cr(cur)), Seq::empty())
        } else {
            (done, cur.push(t.last()))
        }
    }
}

/// The lines of `t`: split at `\n`, a `\r` before it dropped; a last line needs no `\n`.
pub open spec fn lines_of(t: Seq<char>) -> Seq<Seq<char>> {
    let (done, cur) = line_state(t);
    if cur.len() > 0 {
        done.push(cur)
    } else {
        done
    }
}

/// The finished tokens of `t` and the token still open at its end.
pub open spec fn token_state(t: Seq<char>) -> (Seq<Seq<char>>, Seq<char>)
    decreases t.len(),
{
    if t.len() == 0 {
        (Seq::empty(), Seq::empty())
    } else {
        let (done, cur) = token_state(t.drop_last());
        if is_ws(t.last()) {
            if cur.len() > 0 {
                (done.push(cur), Seq::empty())
            } else {
                (done, cur)
            }
        } else {
            (done, cur.push(t.last()))
        }
    }
}

/// The maximal runs of non-whitespace characters of `t`.
pub open spec fn tokens_of(t: Seq<char>) -> Seq<Seq<char>> {
    let (done, cur) = token_state(t);
    if cur.len() > 0 {
        done.push(cur)
    } else {
        done
    }
}

/// `s` without leading whitespace.
pub open spec fn trim_start(s: Seq<char>) -> Seq<char>
    decreases s.len(),
{
    if s.len() > 0 && is_ws(s[0]) {
        trim_start(s.drop_first())
    } else {
        s
    }
}

/// `s` without trailing whitespace.
pub open spec fn trim_end(s: Seq<char>) -> Seq<char>
    decreases s.len(),
{
    if s.len() > 0 && is_ws(s.last()) {
        trim_end(s.drop_last())
    } else {
        s
    }
}

/// `s` without leading or trailing whitespace.
pub open spec fn trim(s: Seq<char>) -> Seq<char> {
    trim_end(trim_start(s))
}

/// `p` is the position of the first `c` in `s`.
pub open spec fn first_at(s: Seq<char>, c: char, p: int) -> bool {
    &&& 0 <= p < s.len()
    &&& s[p] == c
    &&& forall|j: int| 0 <= j < p ==> s[j] != c
}

/// The field that a header line holds: split at its first `:`, both sides trimmed.
pub open spec fn field_of_line(l: Seq<char>) -> Option<(Seq<char>, Seq<char>)> {
    if exists|p: int| first_at(l, ':', p) {
        let p = choose|p: int| first_at(l, ':', p);
        Some((trim(l.take(p)), trim(l.skip(p + 1))))
    } else {
        None
    }
}

/// The fields of a run of header lines, in order; lines without `:` are skipped.
pub open spec fn fields_of_lines(ls: Seq<Seq<char>>) -> Seq<(Seq<char>, Seq<char>)>
    decreases ls.len(),
{
    if ls.len() == 0 {
        Seq::empty()
    } else {
        let f = fields_of_lines(ls.drop_last());
        match field_of_line(ls.last()) {
            Some(p) => f.push(p),
            None => f,
        }
    }
}

/// The index of the first empty line at or after `i`, or the number of lines.
pub open spec fn blank_from(ls: Seq<Seq<char>>, i: int) -> int
    decreases ls.len() - i,
{
    if i >= ls.len() {
        ls.len() as int
    } else if ls[i].len() == 0 {
        i
    } else {
        blank_from(ls, i + 1)
    }
}

pub proof fn lemma_blank_from_bounds(ls: Seq<Seq<char>>, i: int)
    requires
        0 <= i,
    ensures
        i <= ls.len() ==> i <= blank_from(ls, i) <= ls.len(),
        blank_from(ls, i) < ls.len() ==> ls[blank_from(ls, i)].len() == 0,
        forall|j: int| i <= j < blank_from(ls, i) ==> #[trigger] ls[j].len() > 0,
    decreases ls.len() - i,
{
    if i < ls.len() && ls[i].len() != 0 {
        lemma_blank_from_bounds(ls, i + 1);
    }
}

/// The characters of lines of `t`, split as `lines_of` does.
pub fn split_lines(t: &[char]) -> (r: Vec<Vec<char>>)
    ensures
        r@.map_values(|v: Vec<char>| v@) == lines_of(t@),
{
    let n = t.len();
    let mut done: Vec<Vec<char>> = Vec::new();
    let mut cur: Vec<char> = Vec::new();
    let mut i: usize = 0;
    while i < n
        invariant
            n == t@.len(),
            i <= n,
            (done@.map_values(|v: Vec<char>| v@), cur@) == line_state(t@.take(i as int)),
        decreases n - i,
    {
        assert(t@.take(i + 1).drop_last() == t@.take(i as int));
        let c = t[i];
        if c == '\n' {
            let mut line = cur;
            let len = line.len();
            if len > 0 && line[len - 1] == '\r' {
                line.pop();
            }
            proof {
                let ghost (d0, c0) = line_state(t@.take(i as int));
                assert(line@ == strip_cr(c0));
            }
            done.push(line);
            cur = Vec::new();
            assert(done@.map_values(|v: Vec<char>| v@) =~= line_state(t@.take(i + 1)).0);
            assert(cur@ =~= line_state(t@.take(i + 1)).1);
        } else {
            cur.push(c);
        }
        i = i + 1;
    }
    assert(t@.take(n as int) == t@);
    if cur.len() > 0 {
        done.push(cur);
        assert(done@.map_values(|v: Vec<char>| v@) =~= lines_of(t@));
    }
    done
}

/// The whitespace-separated tokens of `t`.
pub fn split_tokens(t: &[char]) -> (r: Vec<Vec<char>>)
    ensures
        r@.map_values(|v: Vec<char>| v@) == tokens_of(t@),
{
    let n = t.len();
    let mut done: Vec<Vec<char>> = Vec::new();
    let mut cur: Vec<char> = Vec::new();
    let mut i: usize = 0;
    while i < n
        invariant
            n == t@.len(),
            i <= n,
            (done@.map_values(|v: Vec<char>| v@), cur@) == token_state(t@.take(i as int)),
        decreases n - i,
    {
        assert(t@.take(i + 1).drop_last() == t@.take(i as int));
        let c = t[i];
        if is_whitespace(c) {
            if cur.len() > 0 {
                done.push(cur);
                cur = Vec::new();
                assert(done@.map_values(|v: Vec<char>| v@) =~= token_state(t@.take(i + 1)).0);
                assert(cur@ =~= token_state(t@.take(i + 1)).1);
            }
        } else {
            cur.push(c);
        }
        i = i + 1;
    }
    assert(t@.take(n as int) == t@);
    if cur.len() > 0 {
        done.push(cur);
        assert(done@.map_values(|v: Vec<char>| v@) =~= tokens_of(t@));
    }
    done
}

/// The characters of `t` from `lo` up to `hi`, without leading or trailing whitespace.
pub fn trimmed(t: &[char], lo: usize, hi: usize) -> (r: Vec<char>)
    requires
        lo <= hi <= t@.len(),
    ensures
        r@ == trim(t@.subrange(lo as int, hi as int)),
{
    let mut a: usize = lo;
    while a < hi && is_whitespace(t[a])
        invariant
            lo <= a <= hi <= t@.len(),
            trim_start(t@.subrange(lo as int, hi as int)) == trim_start(t@.subrange(a as int, hi as int)),
        decreases hi - a,
    {
        assert(t@.subrange(a as int, hi as int).drop_first() == t@.subrange(a + 1, hi as int));
        a = a + 1;
    }
    let ghost s = t@.subrange(a as int, hi as int);
    assert(trim_start(s) == s);
    let mut b: usize = hi;
    while b > a && is_whitespace(t[b - 1])
        invariant
            lo <= a <= b <= hi <= t@.len(),
            trim_end(s) == trim_end(t@.subrange(a as int, b as int)),
        decreases b - a,
    {
        assert(t@.subrange(a as int, b as int).drop_last() == t@.subrange(a as int, b - 1));
        b = b - 1;
    }
    assert(trim_end(t@.subrange(a as int, b as int)) == t@.subrange(a as int, b as int));
    let mut out: Vec<char> = Vec::new();
    let mut k: usize = a;
    while k < b
        invariant
            a <= k <= b <= t@.len(),
            out@ == t@.subrange(a as int, k as int),
        decreases b - k,
    {
        out.push(t[k]);
        k = k + 1;
        assert(out@ =~= t@.subrange(a as int, k as int));
    }
    out
}

/// The field that header line `l` holds, as `field_of_line` says.
pub fn parse_field(l: &[char]) -> (r: Option<(Vec<char>, Vec<char>)>)
    ensures
        match r {
            Some(p) => field_of_line(l@) == Some((p.0@, p.1@)),
            None => field_of_line(l@) is None,
        },
{
    let n = l.len();
    let mut p: usize = 0;
    while p < n
        invariant
            n == l@.len(),
            p <= n,
            forall|j: int| 0 <= j < p ==> l@[j] != ':',
        decreases n - p,
    {
        if l[p] == ':' {
            assert(first_at(l@, ':', p as int));
            proof {
                let q = choose|q: int| first_at(l@, ':', q);
                assert(q == p);
            }
            let name = trimmed(l, 0, p);
            let value = trimmed(l, p + 1, n);
            assert(l@.take(p as int) == l@.subrange(0, p as int));
            assert(l@.skip(p + 1) == l@.subrange(p + 1, n as int));
            return Some((name, value));
        }
        p = p + 1;
    }
    None
}

} // verus!
