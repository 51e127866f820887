use vstd::prelude::*;

use vstd::utf8::{
    char_is_scalar, decode_utf8, encode_scalar, encode_utf8, encode_utf8_decode_utf8,
    encode_utf8_valid_utf8, has_width_1_encoding, is_ascii_chars, is_ascii_chars_encode_utf8,
    valid_utf8,
};

use crate::body::HttpBody;
use crate::numfmt::decimal;
use crate::request::{content_length_name, head_fields, header_lines};
use crate::response::{status_line, HttpResponse};
use crate::syntax::blank_from;
use crate::utils::{is_terminator_at, no_terminator_before};
use crate::version::{version_text, HttpVersion};

use crate::headers::{fields_map, lemma_fields_map_domain, HeaderSeq};
use crate::numfmt::{digit_char, digits};
use crate::response::{crlf, field_line, fields_text};
use crate::syntax::{
    field_of_line, fields_of_lines, first_at, is_ws, line_state, lines_of, strip_cr, trim, trim_end,
    trim_start,
};

verus! {

/// No line break in `s`.
pub open spec fn no_breaks(s: Seq<char>) -> bool {
    forall|i: int| 0 <= i < s.len() ==> #[trigger] s[i] != '\r' && s[i] != '\n'
}

/// `\r\n\r\n` starts at position `j` of `t`.
pub open spec fn blank_line_at(t: Seq<char>, j: int) -> bool {
    &&& 0 <= j
    &&& j + 4 <= t.len()
    &&& t[j] == '\r'
    &&& t[j + 1] == '\n'
    &&& t[j + 2] == '\r'
    &&& t[j + 3] == '\n'
}

/// Appending characters without `\n` extends the open line.
pub proof fn lemma_line_state_extend(p: Seq<char>, t: Seq<char>)
    requires
        forall|i: int| 0 <= i < t.len() ==> #[trigger] t[i] != '\n',
    ensures
        line_state(p + t) == (line_state(p).0, line_state(p).1 + t),
    decreases t.len(),
{
    if t.len() == 0 {
        assert(p + t =~= p);
        assert(line_state(p).1 + t =~= line_state(p).1);
    } else {
        let u = t.drop_last();
        lemma_line_state_extend(p, u);
        assert((p + t).drop_last() =~= p + u);
        assert((p + t).last() == t.last());
        assert(line_state(p).1 + u.push(t.last()) =~= line_state(p).1 + t);
        assert(u.push(t.last()) =~= t);
    }
}

/// Appending a line without breaks, then `\r\n`, to text whose last line is closed adds
/// exactly that line.
pub proof fn lemma_line_state_line(p: Seq<char>, l: Seq<char>)
    requires
        line_state(p).1.len() == 0,
        no_breaks(l),
    ensures
        line_state(p + l + crlf()) == (line_state(p).0.push(l), Seq::<char>::empty()),
{
    let lr = l.push('\r');
    assert forall|i: int| 0 <= i < lr.len() implies #[trigger] lr[i] != '\n' by {
        if i < l.len() {
            assert(lr[i] == l[i]);
        }
    }
    lemma_line_state_extend(p, lr);
    assert(line_state(p).1 + lr =~= lr);
    let whole = p + l + crlf();
    assert(whole.drop_last() =~= p + lr);
    assert(whole.last() == '\n');
    assert(strip_cr(lr) =~= l);
}

/// Appending a non-empty line without breaks, then `\r\n`, makes no `\r\n\r\n` that was
/// not there.
pub proof fn lemma_no_blank_line_append(p: Seq<char>, l: Seq<char>)
    requires
        forall|j: int| !#[trigger] blank_line_at(p, j),
        l.len() > 0,
        no_breaks(l),
    ensures
        forall|j: int| !#[trigger] blank_line_at(p + l + crlf(), j),
{
    let t = p + l + crlf();
    assert forall|j: int| !#[trigger] blank_line_at(t, j) by {
        if blank_line_at(t, j) {
            if j + 4 <= p.len() {
                assert(blank_line_at(p, j));
            } else {
                let k = if j >= p.len() { j } else { p.len() as int };
                assert(p.len() <= k < p.len() + l.len());
                assert(t[k] == l[k - p.len()]);
            }
        }
    }
}

/// A header line without its line end: `name: value`.
pub open spec fn field_text(name: Seq<char>, value: Seq<char>) -> Seq<char> {
    name + seq![':', ' '] + value
}

/// The header lines of `fs`, without line ends.
pub open spec fn field_texts(fs: HeaderSeq) -> Seq<Seq<char>> {
    fs.map_values(|p: (Seq<char>, Seq<char>)| field_text(p.0, p.1))
}

/// A field that comes back unchanged through writing and parsing: no line breaks, a name
/// without `:`, and neither side with whitespace at its ends.
pub open spec fn field_round_trips(name: Seq<char>, value: Seq<char>) -> bool {
    &&& no_breaks(name)
    &&& no_breaks(value)
    &&& forall|i: int| 0 <= i < name.len() ==> #[trigger] name[i] != ':'
    &&& trim(name) == name
    &&& trim(value) == value
}

/// Every field of `fs` comes back unchanged.
pub open spec fn fields_round_trip(fs: HeaderSeq) -> bool {
    forall|i: int| 0 <= i < fs.len() ==> field_round_trips(#[trigger] fs[i].0, fs[i].1)
}

/// A line `name: value` of a field that round-trips parses back to that field.
pub proof fn lemma_field_of_text(name: Seq<char>, value: Seq<char>)
    requires
        field_round_trips(name, value),
    ensures
        field_of_line(field_text(name, value)) == Some((name, value)),
{
    let l = field_text(name, value);
    let p = name.len() as int;
    assert(l[p] == ':');
    assert forall|j: int| 0 <= j < p implies l[j] != ':' by {
        assert(l[j] == name[j]);
    }
    assert(first_at(l, ':', p));
    let q = choose|q: int| first_at(l, ':', q);
    assert(q == p) by {
        if q < p {
            assert(l[q] == name[q]);
        } else if q > p {
            assert(l[p] == ':');
        }
    }
    assert(l.take(p) =~= name);
    let rest = l.skip(p + 1);
    assert(rest =~= seq![' '] + value);
    assert(is_ws(rest[0]));
    assert(rest.drop_first() =~= value);
    assert(trim_start(rest) == trim_start(value));
}

/// Writing fields as lines after closed text adds one line per field.
pub proof fn lemma_fields_text_lines(base: Seq<char>, fs: HeaderSeq)
    requires
        line_state(base).1.len() == 0,
        fields_round_trip(fs),
    ensures
        line_state(base + fields_text(fs)) == (line_state(base).0 + field_texts(fs), Seq::<char>::empty()),
    decreases fs.len(),
{
    if fs.len() == 0 {
        assert(base + fields_text(fs) =~= base);
        assert(line_state(base).0 + field_texts(fs) =~= line_state(base).0);
    } else {
        let init = fs.drop_last();
        assert forall|i: int| 0 <= i < init.len() implies field_round_trips(#[trigger] init[i].0, init[i].1) by {
            assert(init[i] == fs[i]);
        }
        lemma_fields_text_lines(base, init);
        let (k, v) = fs.last();
        assert(field_round_trips(fs[fs.len() - 1].0, fs[fs.len() - 1].1));
        let t = field_text(k, v);
        assert(no_breaks(t)) by {
            assert forall|i: int| 0 <= i < t.len() implies #[trigger] t[i] != '\r' && t[i] != '\n' by {
                if i < k.len() {
                    assert(t[i] == k[i]);
                } else if i >= k.len() + 2 {
                    assert(t[i] == v[i - k.len() - 2]);
                }
            }
        }
        let prev = base + fields_text(init);
        lemma_line_state_line(prev, t);
        assert(base + fields_text(fs) =~= prev + t + crlf());
        assert(field_texts(fs) =~= field_texts(init).push(t));
        assert(line_state(base).0 + field_texts(fs) =~= (line_state(base).0 + field_texts(init)).push(t));
    }
}

/// Writing fields as lines after text with no `\r\n\r\n` adds none.
pub proof fn lemma_fields_text_no_blank(base: Seq<char>, fs: HeaderSeq)
    requires
        forall|j: int| !#[trigger] blank_line_at(base, j),
        fields_round_trip(fs),
    ensures
        forall|j: int| !#[trigger] blank_line_at(base + fields_text(fs), j),
    decreases fs.len(),
{
    if fs.len() == 0 {
        assert(base + fields_text(fs) =~= base);
    } else {
        let init = fs.drop_last();
        assert forall|i: int| 0 <= i < init.len() implies field_round_trips(#[trigger] init[i].0, init[i].1) by {
            assert(init[i] == fs[i]);
        }
        lemma_fields_text_no_blank(base, init);
        let (k, v) = fs.last();
        assert(field_round_trips(fs[fs.len() - 1].0, fs[fs.len() - 1].1));
        let t = field_text(k, v);
        assert(no_breaks(t)) by {
            assert forall|i: int| 0 <= i < t.len() implies #[trigger] t[i] != '\r' && t[i] != '\n' by {
                if i < k.len() {
                    assert(t[i] == k[i]);
                } else if i >= k.len() + 2 {
                    assert(t[i] == v[i - k.len() - 2]);
                }
            }
        }
        assert(t[k.len() as int] == ':');
        lemma_no_blank_line_append(base + fields_text(init), t);
        assert(base + fields_text(fs) =~= base + fields_text(init) + t + crlf());
    }
}

/// Parsing the lines of a first field followed by the lines of `fs` gives those fields.
pub proof fn lemma_fields_of_texts(first: (Seq<char>, Seq<char>), fs: HeaderSeq)
    requires
        field_round_trips(first.0, first.1),
        fields_round_trip(fs),
    ensures
        fields_of_lines(seq![field_text(first.0, first.1)] + field_texts(fs)) == seq![first] + fs,
    decreases fs.len(),
{
    let ls = seq![field_text(first.0, first.1)] + field_texts(fs);
    if fs.len() == 0 {
        lemma_field_of_text(first.0, first.1);
        assert(field_texts(fs) =~= Seq::<Seq<char>>::empty());
        assert(ls =~= seq![field_text(first.0, first.1)]);
        assert(ls.drop_last() =~= Seq::<Seq<char>>::empty());
        assert(ls.last() == field_text(first.0, first.1));
        assert(fields_of_lines(ls.drop_last()) =~= Seq::<(Seq<char>, Seq<char>)>::empty());
        assert(seq![first] + fs =~= seq![first]);
        assert(Seq::<(Seq<char>, Seq<char>)>::empty().push(first) =~= seq![first]);
    } else {
        let init = fs.drop_last();
        assert forall|i: int| 0 <= i < init.len() implies field_round_trips(#[trigger] init[i].0, init[i].1) by {
            assert(init[i] == fs[i]);
        }
        lemma_fields_of_texts(first, init);
        assert(ls.drop_last() =~= seq![field_text(first.0, first.1)] + field_texts(init));
        let (k, v) = fs.last();
        assert(field_round_trips(fs[fs.len() - 1].0, fs[fs.len() - 1].1));
        lemma_field_of_text(k, v);
        assert(field_texts(fs) =~= field_texts(init).push(field_text(k, v)));
        assert(ls.last() == field_text(k, v));
        assert(fields_of_lines(ls) == fields_of_lines(ls.drop_last()).push((k, v)));
        assert(seq![first] + fs =~= (seq![first] + init).push((k, v)));
    }
}

/// A field in front of others whose names differ from its own: the mapping is theirs with
/// that field added.
pub proof fn lemma_fields_map_front(first: (Seq<char>, Seq<char>), fs: HeaderSeq)
    requires
        !fields_map(fs).contains_key(first.0),
    ensures
        fields_map(seq![first] + fs) == fields_map(fs).insert(first.0, first.1),
    decreases fs.len(),
{
    if fs.len() == 0 {
        assert((seq![first] + fs).drop_last() =~= Seq::<(Seq<char>, Seq<char>)>::empty());
        assert(fields_map(Seq::<(Seq<char>, Seq<char>)>::empty()) == Map::<Seq<char>, Seq<char>>::empty());
        assert(fields_map(seq![first] + fs) =~= fields_map(fs).insert(first.0, first.1));
    } else {
        let init = fs.drop_last();
        lemma_fields_map_domain(fs, first.0);
        lemma_fields_map_domain(init, first.0);
        if fields_map(init).contains_key(first.0) {
            let i = choose|i: int| 0 <= i < init.len() && #[trigger] init[i].0 == first.0;
            assert(fs[i].0 == first.0);
        }
        lemma_fields_map_front(first, init);
        assert((seq![first] + fs).drop_last() =~= seq![first] + init);
        assert(fs.last().0 != first.0) by {
            assert(fs[fs.len() - 1].0 == fs.last().0);
        }
        assert(fields_map(seq![first] + fs) =~= fields_map(fs).insert(first.0, first.1));
    }
}

/// The digits of a number are `0`-`9` or `A`-`F`, and there is at least one.
pub proof fn lemma_digits_chars(n: nat, base: nat)
    requires
        2 <= base <= 16,
    ensures
        digits(n, base).len() > 0,
        forall|i: int|
            0 <= i < digits(n, base).len() ==> {
                let u = (#[trigger] digits(n, base)[i]) as int;
                (48 <= u <= 57) || (65 <= u <= 70)
            },
    decreases n,
{
    if n >= base {
        assert(n / base < n) by (nonlinear_arith)
            requires
                base >= 2,
                n >= base,
        ;
        lemma_digits_chars(n / base, base);
        assert(n % base < base) by (nonlinear_arith)
            requires
                base >= 2,
        ;
        let d = digits(n / base, base);
        assert forall|i: int| 0 <= i < digits(n, base).len() implies {
            let u = (#[trigger] digits(n, base)[i]) as int;
            (48 <= u <= 57) || (65 <= u <= 70)
        } by {
            if i < d.len() {
                assert(digits(n, base)[i] == d[i]);
            }
        }
    }
}

/// Text with no whitespace at either end is its own trim.
pub proof fn lemma_trim_plain(s: Seq<char>)
    requires
        s.len() > 0 ==> !is_ws(s[0]) && !is_ws(s.last()),
    ensures
        trim(s) == s,
{
}

/// Digits round-trip as a header value.
pub proof fn lemma_digits_plain(n: nat, base: nat)
    requires
        2 <= base <= 16,
    ensures
        no_breaks(digits(n, base)),
        trim(digits(n, base)) == digits(n, base),
{
    lemma_digits_chars(n, base);
    let d = digits(n, base);
    assert(d[0] == d[0]);
    assert(d.last() == d[d.len() - 1]);
    lemma_trim_plain(d);
}

/// Joining text without line breaks keeps it so.
pub proof fn lemma_no_breaks_join(a: Seq<char>, b: Seq<char>)
    requires
        no_breaks(a),
        no_breaks(b),
    ensures
        no_breaks(a + b),
{
    assert forall|i: int| 0 <= i < (a + b).len() implies #[trigger] (a + b)[i] != '\r' && (a + b)[i] != '\n' by {
        if i < a.len() {
            assert((a + b)[i] == a[i]);
        } else {
            assert((a + b)[i] == b[i - a.len()]);
        }
    }
}

/// Encoding a concatenation concatenates the encodings.
pub proof fn lemma_encode_concat(a: Seq<char>, b: Seq<char>)
    ensures
        encode_utf8(a + b) == encode_utf8(a) + encode_utf8(b),
    decreases a.len(),
{
    if a.len() == 0 {
        assert(a + b =~= b);
        assert(encode_utf8(a) =~= Seq::<u8>::empty());
        assert(Seq::<u8>::empty() + encode_utf8(b) =~= encode_utf8(b));
    } else {
        lemma_encode_concat(a.drop_first(), b);
        assert((a + b).drop_first() =~= a.drop_first() + b);
        assert((a + b)[0] == a[0]);
    }
}

/// Every byte of the encoding of a character outside ASCII is at least `0x80`; an ASCII
/// character is encoded as its own single byte.
pub proof fn lemma_encode_scalar_bytes(c: char)
    ensures
        (c as int) < 128 ==> encode_scalar(c as u32) == seq![c as u8] && (c as u8) as int == c as int,
        (c as int) >= 128 ==> forall|k: int|
            0 <= k < encode_scalar(c as u32).len() ==> #[trigger] encode_scalar(c as u32)[k] >= 0x80,
        encode_scalar(c as u32).len() >= 1,
{
    char_is_scalar(c);
    let v = c as u32;
    if has_width_1_encoding(v) {
        assert((v & 0x7F) as u8 == v as u8) by (bit_vector)
            requires
                v <= 0x7F,
        ;
    } else {
        assert(forall|y: u8| #[trigger] (0x80u8 | y) >= 0x80u8) by (bit_vector);
        assert(forall|y: u8| #[trigger] (0xC0u8 | y) >= 0x80u8) by (bit_vector);
        assert(forall|y: u8| #[trigger] (0xE0u8 | y) >= 0x80u8) by (bit_vector);
        assert(forall|y: u8| #[trigger] (0xF0u8 | y) >= 0x80u8) by (bit_vector);
        let e = encode_scalar(v);
        assert forall|k: int| 0 <= k < e.len() implies #[trigger] e[k] >= 0x80 by {}
    }
}

/// A `\r\n\r\n` in the encoding of `h` comes from one in `h`, at the byte offset of
/// that position.
pub proof fn lemma_encoded_terminator(h: Seq<char>, j: int)
    requires
        is_terminator_at(encode_utf8(h), j),
    ensures
        exists|i: int| #[trigger] blank_line_at(h, i) && encode_utf8(h.take(i)).len() == j,
    decreases h.len(),
{
    let e = encode_utf8(h);
    let rest = h.drop_first();
    lemma_encode_scalar_bytes(h[0]);
    let w = encode_scalar(h[0] as u32).len() as int;
    assert(e == encode_scalar(h[0] as u32) + encode_utf8(rest));
    if j >= w {
        assert(is_terminator_at(encode_utf8(rest), j - w)) by {
            assert(encode_utf8(rest)[j - w] == e[j]);
            assert(encode_utf8(rest)[j - w + 1] == e[j + 1]);
            assert(encode_utf8(rest)[j - w + 2] == e[j + 2]);
            assert(encode_utf8(rest)[j - w + 3] == e[j + 3]);
        }
        lemma_encoded_terminator(rest, j - w);
        let i = choose|i: int| #[trigger] blank_line_at(rest, i) && encode_utf8(rest.take(i)).len() == j - w;
        assert(blank_line_at(h, i + 1));
        assert(h.take(i + 1).drop_first() =~= rest.take(i));
        assert(h.take(i + 1)[0] == h[0]);
    } else {
        assert(e[j] == encode_scalar(h[0] as u32)[j]);
        assert((h[0] as int) < 128);
        assert(j == 0 && w == 1);
        assert(h[0] == '\r');
        // The next three bytes are ASCII too, so each is one character.
        lemma_encode_scalar_bytes(rest[0]);
        let r1 = rest.drop_first();
        assert(encode_utf8(rest) == encode_scalar(rest[0] as u32) + encode_utf8(r1));
        assert(encode_utf8(rest)[0] == e[1]);
        assert(rest[0] == '\n');
        lemma_encode_scalar_bytes(r1[0]);
        let r2 = r1.drop_first();
        assert(encode_utf8(r1) == encode_scalar(r1[0] as u32) + encode_utf8(r2));
        assert(encode_utf8(r1)[0] == e[2]);
        assert(r1[0] == '\r');
        lemma_encode_scalar_bytes(r2[0]);
        assert(encode_utf8(r2) == encode_scalar(r2[0] as u32) + encode_utf8(r2.drop_first()));
        assert(encode_utf8(r2)[0] == e[3]);
        assert(r2[0] == '\n');
        assert(blank_line_at(h, 0));
        assert(h.take(0) =~= Seq::<char>::empty());
    }
}

/// A version is written as a non-empty word without line breaks.
pub proof fn lemma_version_text_plain(v: HttpVersion)
    ensures
        version_text(v).len() > 0,
        no_breaks(version_text(v)),
{
}

/// The index of the first empty line at or after `i`, when the lines from `i` up to `b`
/// are not empty and line `b` is.
pub proof fn lemma_blank_from_at(ls: Seq<Seq<char>>, i: int, b: int)
    requires
        0 <= i <= b < ls.len(),
        ls[b].len() == 0,
        forall|j: int| i <= j < b ==> #[trigger] ls[j].len() > 0,
    ensures
        blank_from(ls, i) == b,
    decreases b - i,
{
    if i < b {
        lemma_blank_from_at(ls, i + 1, b);
    }
}

/// Text ending in a non-empty line and then a blank line holds its first `\r\n\r\n` at
/// the very end, when it held none before.
pub proof fn lemma_block_end(x: Seq<char>, t: Seq<char>)
    requires
        forall|j: int| !#[trigger] blank_line_at(x + t + crlf(), j),
        t.len() > 0,
        no_breaks(t),
    ensures
        blank_line_at(x + t + crlf() + crlf(), (x + t + crlf() + crlf()).len() - 4),
        forall|j: int|
            j < (x + t + crlf() + crlf()).len() - 4 ==> !#[trigger] blank_line_at(
                x + t + crlf() + crlf(),
                j,
            ),
{
    let y = x + t + crlf();
    let h = y + crlf();
    assert(h[h.len() - 4] == '\r');
    assert(h[h.len() - 3] == '\n');
    assert forall|j: int| j < h.len() - 4 implies !#[trigger] blank_line_at(h, j) by {
        if blank_line_at(h, j) {
            if j + 4 <= y.len() {
                assert(blank_line_at(y, j));
            } else {
                assert(j == y.len() - 3);
                assert(h[j] == t[t.len() - 1]);
            }
        }
    }
}

/// Header text whose only `\r\n\r\n` closes it, encoded and followed by a body: the
/// block ends just after the first `\r\n\r\n` of the bytes, decodes back to the text,
/// and the body follows it unchanged.
pub proof fn lemma_block_framing(h: Seq<char>, data: Seq<u8>)
    requires
        h.len() >= 4,
        blank_line_at(h, h.len() - 4),
        forall|j: int| j < h.len() - 4 ==> !#[trigger] blank_line_at(h, j),
    ensures
        ({
            let bytes = encode_utf8(h) + data;
            let n = encode_utf8(h).len() as int;
            &&& n >= 4
            &&& is_terminator_at(bytes, n - 4)
            &&& no_terminator_before(bytes, n - 4)
            &&& valid_utf8(bytes.take(n))
            &&& decode_utf8(bytes.take(n)) == h
            &&& bytes.skip(n) == data
        }),
{
    let enc = encode_utf8(h);
    encode_utf8_decode_utf8(h);
    encode_utf8_valid_utf8(h);
    let bytes = enc + data;
    let n = enc.len() as int;
    assert(bytes.take(n) =~= enc);
    assert(bytes.skip(n) =~= data);
    let q = h.take(h.len() - 4);
    let last4 = h.skip(h.len() - 4);
    assert(q + last4 =~= h);
    lemma_encode_concat(q, last4);
    assert(last4 =~= seq!['\r', '\n', '\r', '\n']);
    assert(is_ascii_chars(last4)) by {
        assert forall|i: int| 0 <= i < 4 implies '\0' <= #[trigger] last4[i] <= '\u{7f}' by {}
    }
    is_ascii_chars_encode_utf8(last4);
    let tail = encode_utf8(last4);
    assert(tail[0] == 13 && tail[1] == 10 && tail[2] == 13 && tail[3] == 10) by {
        assert(last4[0] as u8 == tail[0]);
        assert(last4[1] as u8 == tail[1]);
        assert(last4[2] as u8 == tail[2]);
        assert(last4[3] as u8 == tail[3]);
    }
    assert(n == encode_utf8(q).len() + 4);
    assert(is_terminator_at(bytes, n - 4)) by {
        assert(bytes[n - 4] == tail[0]);
        assert(bytes[n - 3] == tail[1]);
        assert(bytes[n - 2] == tail[2]);
        assert(bytes[n - 1] == tail[3]);
    }
    assert forall|j: int| 0 <= j < n - 4 implies !#[trigger] is_terminator_at(bytes, j) by {
        if is_terminator_at(bytes, j) {
            assert(is_terminator_at(enc, j)) by {
                assert(bytes[j] == enc[j] && bytes[j + 1] == enc[j + 1]);
                assert(bytes[j + 2] == enc[j + 2] && bytes[j + 3] == enc[j + 3]);
            }
            lemma_encoded_terminator(h, j);
            let i = choose|i: int| #[trigger] blank_line_at(h, i) && encode_utf8(h.take(i)).len() == j;
            assert(i == h.len() - 4);
            assert(h.take(i) == q);
        }
    }
}

/// The in-memory data of a body, if it has any.
pub open spec fn memory_data<R>(b: HttpBody<R>) -> Seq<u8> {
    match b {
        HttpBody::InMemory { data } => data@,
        _ => Seq::empty(),
    }
}

/// Serializing a response with an in-memory body, not chunked and with no
/// `Content-Length` set, then parsing the bytes back, gives the header block's end just
/// after the first `\r\n\r\n`, the status line, the header fields plus a
/// `Content-Length` equal to the body's length, and the body verbatim. The reason and the
/// fields hold no line breaks, names hold no `:`, and no name or value has whitespace at
/// its ends.
pub proof fn law_serialized_response_parses_back<R>(r: HttpResponse<R>)
    requires
        r.wf(),
        r.content() is InMemory,
        !r.chunked(),
        !r.fields().map().contains_key(content_length_name()),
        no_breaks(r.reason()),
        fields_round_trip(r.fields()@),
    ensures
        ({
            let bytes = r.wire();
            let h = r.head_text();
            let n = encode_utf8(h).len() as int;
            let data = memory_data(r.content());
            &&& n >= 4
            &&& is_terminator_at(bytes, n - 4)
            &&& no_terminator_before(bytes, n - 4)
            &&& valid_utf8(bytes.take(n))
            &&& decode_utf8(bytes.take(n)) == h
            &&& lines_of(h)[0] == version_text(r.protocol()) + seq![' '] + decimal(r.status() as nat)
                + seq![' '] + r.reason()
            &&& fields_map(head_fields(h)) == r.fields().map().insert(
                content_length_name(),
                decimal(data.len()),
            )
            &&& bytes.skip(n) == data
        }),
{
    let fs = r.fields()@;
    let data = memory_data(r.content());
    let v = version_text(r.protocol());
    let code = decimal(r.status() as nat);
    let sl = v + seq![' '] + code + seq![' '] + r.reason();
    let cln = content_length_name();
    let dl = decimal(data.len());
    let clt = field_text(cln, dl);
    let h = r.head_text();
    assert(r.added_length() == Some(data.len()));
    assert(status_line(r.protocol(), r.status(), r.reason()) =~= sl + crlf());
    assert(field_line(cln, dl) =~= clt + crlf());
    let p1 = sl + crlf();
    let p2 = p1 + clt + crlf();
    let p3 = p2 + fields_text(fs);
    assert(h =~= p3 + crlf());

    // Pieces of the status line and the length line.
    lemma_version_text_plain(r.protocol());
    lemma_digits_plain(r.status() as nat, 10);
    lemma_digits_plain(data.len(), 10);
    assert(no_breaks(seq![' '])) by {
        let space = seq![' '];
        assert forall|i: int| 0 <= i < 1 implies #[trigger] space[i] != '\r' && space[i] != '\n' by {}
    }
    lemma_no_breaks_join(v, seq![' ']);
    lemma_no_breaks_join(v + seq![' '], code);
    lemma_no_breaks_join(v + seq![' '] + code, seq![' ']);
    lemma_no_breaks_join(v + seq![' '] + code + seq![' '], r.reason());
    assert(field_round_trips(cln, dl)) by {
        assert(no_breaks(cln)) by {
            assert forall|i: int| 0 <= i < cln.len() implies #[trigger] cln[i] != '\r' && cln[i] != '\n' by {}
        }
        assert forall|i: int| 0 <= i < cln.len() implies #[trigger] cln[i] != ':' by {}
        lemma_trim_plain(cln);
    }
    assert(no_breaks(clt)) by {
        assert forall|i: int| 0 <= i < clt.len() implies #[trigger] clt[i] != '\r' && clt[i] != '\n' by {
            if i < cln.len() {
                assert(clt[i] == cln[i]);
            } else if i >= cln.len() + 2 {
                assert(clt[i] == dl[i - cln.len() - 2]);
            }
        }
    }

    // The lines.
    let e = Seq::<char>::empty();
    assert(line_state(e) == (Seq::<Seq<char>>::empty(), e));
    lemma_line_state_line(e, sl);
    assert(e + sl + crlf() =~= p1);
    lemma_line_state_line(p1, clt);
    lemma_fields_text_lines(p2, fs);
    lemma_line_state_line(p3, e);
    assert(p3 + e + crlf() =~= h);
    let ls = seq![sl, clt] + field_texts(fs);
    assert(seq![sl].push(clt) =~= seq![sl, clt]);
    assert(Seq::<Seq<char>>::empty().push(sl) =~= seq![sl]);
    assert(line_state(h) == (ls.push(e), e));
    assert(lines_of(h) == ls.push(e));
    let all = ls.push(e);
    assert(all[0] == sl);

    // The header block's lines and fields.
    assert forall|j: int| 1 <= j < all.len() - 1 implies #[trigger] all[j].len() > 0 by {
        if j == 1 {
            assert(all[1] == clt);
        } else {
            assert(all[j] == field_texts(fs)[j - 2]);
            let (k, val) = fs[j - 2];
            assert(field_text(k, val)[k.len() as int] == ':');
        }
    }
    lemma_blank_from_at(all, 1, all.len() - 1);
    assert(header_lines(all) =~= seq![clt] + field_texts(fs));
    lemma_fields_of_texts((cln, dl), fs);
    lemma_fields_map_front((cln, dl), fs);

    // No blank line before the end.
    assert forall|j: int| !#[trigger] blank_line_at(e, j) by {}
    lemma_no_blank_line_append(e, sl);
    lemma_no_blank_line_append(p1, clt);
    lemma_fields_text_no_blank(p2, fs);
    if fs.len() == 0 {
        assert(p3 =~= p1 + clt + crlf());
        lemma_block_end(p1, clt);
    } else {
        let init = fs.drop_last();
        let (k, val) = fs.last();
        assert(field_round_trips(fs[fs.len() - 1].0, fs[fs.len() - 1].1));
        let t = field_text(k, val);
        assert(no_breaks(t)) by {
            assert forall|i: int| 0 <= i < t.len() implies #[trigger] t[i] != '\r' && t[i] != '\n' by {
                if i < k.len() {
                    assert(t[i] == k[i]);
                } else if i >= k.len() + 2 {
                    assert(t[i] == val[i - k.len() - 2]);
                }
            }
        }
        assert(t[k.len() as int] == ':');
        assert(p3 =~= (p2 + fields_text(init)) + t + crlf());
        lemma_block_end(p2 + fields_text(init), t);
    }

    // The bytes.
    assert(r.body_wire() =~= data);
    assert(r.wire() =~= encode_utf8(h) + data);
    lemma_block_framing(h, data);
}

} // verus!
