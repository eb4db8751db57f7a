//! The query codec: serialises a filter specification to a URL query
//! string of the form `join=<true|false>[&category=<v>][&series=<v>]
//! [&author=<v>]`, values escaped per the usual form-encoding rules, and
//! parses an arbitrary query string back into a filter specification.
//!
//! Decoding is total: unknown keys are ignored, the last occurrence of a
//! repeated key wins, `join` is true only for the exact value `true`, and
//! a missing or malformed field falls back to its default. A
//! percent-escaped byte is taken as one code point; the round-trip
//! guarantee below is stated for ASCII field values.
use vstd::prelude::*;

use crate::filter::{empty_filter, FilterSpec, FilterView};
use crate::text::{push_char, str_eq};

verus! {

// ---------------------------------------------------------------------
// Escaping
// ---------------------------------------------------------------------
/// Characters that encoding keeps as they are: ASCII alphanumerics and
/// `- . _ *`.
pub open spec fn is_safe_char(c: char) -> bool {
    let n = c as u32;
    (97 <= n && n <= 122) || (65 <= n && n <= 90) || (48 <= n && n <= 57) || c == '-' || c == '.'
        || c == '_' || c == '*'
}

/// The uppercase hex digit for `n` in `0 .. 16`.
pub open spec fn spec_hex_digit(n: int) -> char {
    if n < 10 {
        (48 + n) as char
    } else {
        (55 + n) as char
    }
}

/// One byte as a `%XX` escape.
pub open spec fn spec_escape_byte(b: u8) -> Seq<char> {
    seq!['%', spec_hex_digit(b as int / 16), spec_hex_digit(b as int % 16)]
}

/// The UTF-8 encoding of one character, one to four bytes.
pub open spec fn spec_utf8_bytes(c: char) -> Seq<u8> {
    let n = c as int;
    if n < 0x80 {
        seq![n as u8]
    } else if n < 0x800 {
        seq![(0xC0 + n / 64) as u8, (0x80 + n % 64) as u8]
    } else if n < 0x10000 {
        seq![(0xE0 + n / 4096) as u8, (0x80 + (n / 64) % 64) as u8, (0x80 + n % 64) as u8]
    } else {
        seq![
            (0xF0 + n / 262144) as u8,
            (0x80 + (n / 4096) % 64) as u8,
            (0x80 + (n / 64) % 64) as u8,
            (0x80 + n % 64) as u8,
        ]
    }
}

/// `%XX` escapes for a run of bytes.
pub open spec fn spec_escape_bytes(bs: Seq<u8>) -> Seq<char>
    decreases bs.len(),
{
    if bs.len() == 0 {
        Seq::empty()
    } else {
        spec_escape_byte(bs[0]) + spec_escape_bytes(bs.drop_first())
    }
}

/// How one character of a value is encoded: safe characters stand as
/// they are, a space becomes `+`, everything else becomes the `%XX`
/// escapes of its UTF-8 bytes.
pub open spec fn spec_escape_char(c: char) -> Seq<char> {
    if is_safe_char(c) {
        seq![c]
    } else if c == ' ' {
        seq!['+']
    } else {
        spec_escape_bytes(spec_utf8_bytes(c))
    }
}

/// A whole value, encoded character by character.
pub open spec fn spec_escape(s: Seq<char>) -> Seq<char>
    decreases s.len(),
{
    if s.len() == 0 {
        Seq::empty()
    } else {
        spec_escape_char(s[0]) + spec_escape(s.drop_first())
    }
}

// ---------------------------------------------------------------------
// Encoding
// ---------------------------------------------------------------------
/// One optional field of the query string: its `&key=` prefix followed by
/// the escaped value when set, nothing when absent.
pub open spec fn spec_opt_part(prefix: Seq<char>, o: Option<Seq<char>>) -> Seq<char> {
    match o {
        Some(v) => prefix + spec_escape(v),
        None => Seq::empty(),
    }
}

/// The query string for a filter: the join flag always, then the set
/// fields in the fixed order category, series, author.
pub open spec fn spec_encode(f: FilterView) -> Seq<char> {
    (if f.join {
        "join=true"@
    } else {
        "join=false"@
    }) + spec_opt_part("&category="@, f.category) + spec_opt_part("&series="@, f.series)
        + spec_opt_part("&author="@, f.author)
}

/// `spec_escape_bytes` written out for up to four bytes.
proof fn lemma_escape_bytes4(bs: Seq<u8>)
    requires
        1 <= bs.len() <= 4,
    ensures
        bs.len() == 1 ==> spec_escape_bytes(bs) == spec_escape_byte(bs[0]),
        bs.len() == 2 ==> spec_escape_bytes(bs) == spec_escape_byte(bs[0]) + spec_escape_byte(
            bs[1],
        ),
        bs.len() == 3 ==> spec_escape_bytes(bs) == spec_escape_byte(bs[0]) + spec_escape_byte(
            bs[1],
        ) + spec_escape_byte(bs[2]),
        bs.len() == 4 ==> spec_escape_bytes(bs) == spec_escape_byte(bs[0]) + spec_escape_byte(
            bs[1],
        ) + spec_escape_byte(bs[2]) + spec_escape_byte(bs[3]),
    decreases bs.len(),
{
    reveal_with_fuel(spec_escape_bytes, 2);
    if bs.len() == 1 {
        assert(bs.drop_first() =~= Seq::<u8>::empty());
        assert(spec_escape_bytes(bs) =~= spec_escape_byte(bs[0]) + spec_escape_bytes(
            Seq::<u8>::empty(),
        ));
        assert(spec_escape_bytes(bs) =~= spec_escape_byte(bs[0]));
    } else {
        lemma_escape_bytes4(bs.drop_first());
        if bs.len() == 2 {
            assert(spec_escape_bytes(bs) =~= spec_escape_byte(bs[0]) + spec_escape_byte(bs[1]));
        } else if bs.len() == 3 {
            assert(spec_escape_bytes(bs) =~= spec_escape_byte(bs[0]) + spec_escape_byte(bs[1])
                + spec_escape_byte(bs[2]));
        } else {
            assert(spec_escape_bytes(bs) =~= spec_escape_byte(bs[0]) + spec_escape_byte(bs[1])
                + spec_escape_byte(bs[2]) + spec_escape_byte(bs[3]));
        }
    }
}

/// Appends the uppercase hex digit of `n`.
fn push_hex_digit(out: &mut String, n: u8)
    requires
        n < 16,
    ensures
        final(out)@ == old(out)@.push(spec_hex_digit(n as int)),
{
    let b: u8 = if n < 10 {
        48 + n
    } else {
        55 + n
    };
    push_char(out, b as char);
}

/// Appends the `%XX` escape of one byte.
fn push_escaped_byte(out: &mut String, b: u8)
    ensures
        final(out)@ == old(out)@ + spec_escape_byte(b),
{
    push_char(out, '%');
    push_hex_digit(out, b / 16);
    push_hex_digit(out, b % 16);
    proof {
        assert(out@ =~= old(out)@ + spec_escape_byte(b));
    }
}

/// Decides `is_safe_char`.
fn is_safe(c: char) -> (r: bool)
    ensures
        r == is_safe_char(c),
{
    let n: u32 = c as u32;
    (97 <= n && n <= 122) || (65 <= n && n <= 90) || (48 <= n && n <= 57) || c == '-' || c == '.'
        || c == '_' || c == '*'
}

/// Appends the encoding of one character of a value.
fn push_escaped_char(out: &mut String, c: char)
    ensures
        final(out)@ == old(out)@ + spec_escape_char(c),
{
    if is_safe(c) {
        push_char(out, c);
        proof {
            assert(out@ =~= old(out)@ + spec_escape_char(c));
        }
    } else if c == ' ' {
        push_char(out, '+');
        proof {
            assert(out@ =~= old(out)@ + spec_escape_char(c));
        }
    } else {
        let n: u32 = c as u32;
        if n < 0x80 {
            push_escaped_byte(out, n as u8);
        } else if n < 0x800 {
            push_escaped_byte(out, (0xC0 + n / 64) as u8);
            push_escaped_byte(out, (0x80 + n % 64) as u8);
        } else if n < 0x10000 {
            push_escaped_byte(out, (0xE0 + n / 4096) as u8);
            push_escaped_byte(out, (0x80 + (n / 64) % 64) as u8);
            push_escaped_byte(out, (0x80 + n % 64) as u8);
        } else {
            push_escaped_byte(out, (0xF0 + n / 262144) as u8);
            push_escaped_byte(out, (0x80 + (n / 4096) % 64) as u8);
            push_escaped_byte(out, (0x80 + (n / 64) % 64) as u8);
            push_escaped_byte(out, (0x80 + n % 64) as u8);
        }
        proof {
            lemma_escape_bytes4(spec_utf8_bytes(c));
            assert(out@ =~= old(out)@ + spec_escape_char(c));
        }
    }
}

/// Appends the encoding of a whole value.
fn push_escaped(out: &mut String, v: &str)
    ensures
        final(out)@ == old(out)@ + spec_escape(v@),
{
    let n = v.unicode_len();
    let mut i: usize = 0;
    proof {
        assert(v@.skip(0) =~= v@);
    }
    while i < n
        invariant
            n == v@.len(),
            i <= n,
            out@ + spec_escape(v@.skip(i as int)) == old(out)@ + spec_escape(v@),
        decreases n - i,
    {
        proof {
            assert(v@.skip(i as int).drop_first() =~= v@.skip(i as int + 1));
            assert(v@.skip(i as int)[0] == v@[i as int]);
        }
        let ghost prev = out@;
        push_escaped_char(out, v.get_char(i));
        proof {
            assert(out@ + spec_escape(v@.skip(i as int + 1)) =~= prev + spec_escape(
                v@.skip(i as int),
            ));
        }
        i = i + 1;
    }
    proof {
        assert(v@.skip(n as int) =~= Seq::<char>::empty());
        assert(out@ =~= old(out)@ + spec_escape(v@));
    }
}

/// Serialises a filter specification to its query string.
pub fn encode(f: &FilterSpec) -> (r: String)
    ensures
        r@ == spec_encode(f@),
{
    let mut out = String::new();
    if f.join {
        out.append("join=true");
    } else {
        out.append("join=false");
    }
    match &f.category {
        Some(v) => {
            out.append("&category=");
            push_escaped(&mut out, v.as_str());
        },
        None => {},
    }
    match &f.series {
        Some(v) => {
            out.append("&series=");
            push_escaped(&mut out, v.as_str());
        },
        None => {},
    }
    match &f.author {
        Some(v) => {
            out.append("&author=");
            push_escaped(&mut out, v.as_str());
        },
        None => {},
    }
    proof {
        assert(out@ =~= spec_encode(f@));
    }
    out
}

// ---------------------------------------------------------------------
// Unescaping
// ---------------------------------------------------------------------
/// Hex digits, either case.
pub open spec fn is_hex_char(c: char) -> bool {
    let n = c as u32;
    (48 <= n && n <= 57) || (65 <= n && n <= 70) || (97 <= n && n <= 102)
}

/// The value of a hex digit.
pub open spec fn spec_hex_val(c: char) -> int {
    let n = c as int;
    if n <= 57 {
        n - 48
    } else if n <= 70 {
        n - 55
    } else {
        n - 87
    }
}

/// Undoes the escaping: `+` becomes a space, `%` followed by two hex
/// digits becomes the code point of that byte, everything else stands.
pub open spec fn spec_unescape(s: Seq<char>) -> Seq<char>
    decreases s.len(),
{
    if s.len() == 0 {
        Seq::empty()
    } else if s[0] == '+' {
        seq![' '] + spec_unescape(s.drop_first())
    } else if s[0] == '%' && s.len() >= 3 && is_hex_char(s[1]) && is_hex_char(s[2]) {
        seq![((16 * spec_hex_val(s[1]) + spec_hex_val(s[2])) as u8) as char] + spec_unescape(
            s.skip(3),
        )
    } else {
        seq![s[0]] + spec_unescape(s.drop_first())
    }
}

/// Decides `is_hex_char`.
fn is_hex(c: char) -> (r: bool)
    ensures
        r == is_hex_char(c),
{
    let n: u32 = c as u32;
    (48 <= n && n <= 57) || (65 <= n && n <= 70) || (97 <= n && n <= 102)
}

/// The value of a hex digit, below sixteen.
fn hex_val(c: char) -> (r: u8)
    requires
        is_hex_char(c),
    ensures
        r == spec_hex_val(c),
        r < 16,
{
    let n: u32 = c as u32;
    if n <= 57 {
        (n - 48) as u8
    } else if n <= 70 {
        (n - 55) as u8
    } else {
        (n - 87) as u8
    }
}

/// Undoes the escaping of one query-string token.
pub fn unescape(s: &str) -> (r: String)
    ensures
        r@ == spec_unescape(s@),
{
    let n = s.unicode_len();
    let mut out = String::new();
    let mut i: usize = 0;
    proof {
        assert(s@.skip(0) =~= s@);
    }
    while i < n
        invariant
            n == s@.len(),
            i <= n,
            out@ + spec_unescape(s@.skip(i as int)) == spec_unescape(s@),
        decreases n - i,
    {
        proof {
            assert(s@.skip(i as int).drop_first() =~= s@.skip(i as int + 1));
            assert(s@.skip(i as int)[0] == s@[i as int]);
        }
        let ghost prev = out@;
        let c = s.get_char(i);
        if c == '+' {
            push_char(&mut out, ' ');
            proof {
                assert(out@ + spec_unescape(s@.skip(i as int + 1)) =~= prev + spec_unescape(
                    s@.skip(i as int),
                ));
            }
            i = i + 1;
        } else if c == '%' && n - i >= 3 {
            let h1 = s.get_char(i + 1);
            let h2 = s.get_char(i + 2);
            proof {
                assert(s@.skip(i as int)[1] == s@[i as int + 1]);
                assert(s@.skip(i as int)[2] == s@[i as int + 2]);
                assert(s@.skip(i as int).skip(3) =~= s@.skip(i as int + 3));
            }
            if is_hex(h1) && is_hex(h2) {
                let b: u8 = 16 * hex_val(h1) + hex_val(h2);
                push_char(&mut out, b as char);
                proof {
                    assert(out@ + spec_unescape(s@.skip(i as int + 3)) =~= prev + spec_unescape(
                        s@.skip(i as int),
                    ));
                }
                i = i + 3;
            } else {
                push_char(&mut out, c);
                proof {
                    assert(out@ + spec_unescape(s@.skip(i as int + 1)) =~= prev + spec_unescape(
                        s@.skip(i as int),
                    ));
                }
                i = i + 1;
            }
        } else {
            push_char(&mut out, c);
            proof {
                assert(out@ + spec_unescape(s@.skip(i as int + 1)) =~= prev + spec_unescape(
                    s@.skip(i as int),
                ));
            }
            i = i + 1;
        }
    }
    proof {
        assert(s@.skip(n as int) =~= Seq::<char>::empty());
        assert(out@ =~= spec_unescape(s@));
    }
    out
}

// ---------------------------------------------------------------------
// Splitting
// ---------------------------------------------------------------------
/// Splits on a separator. An empty input is one empty segment; every
/// separator opens a new segment.
pub open spec fn spec_split(s: Seq<char>, sep: char) -> Seq<Seq<char>>
    decreases s.len(),
{
    if s.len() == 0 {
        seq![Seq::<char>::empty()]
    } else {
        let rest = spec_split(s.drop_first(), sep);
        if s[0] == sep {
            seq![Seq::<char>::empty()] + rest
        } else {
            seq![seq![s[0]] + rest[0]] + rest.drop_first()
        }
    }
}

/// A split yields at least one segment.
proof fn lemma_split_nonempty(s: Seq<char>, sep: char)
    ensures
        spec_split(s, sep).len() >= 1,
    decreases s.len(),
{
    if s.len() > 0 {
        lemma_split_nonempty(s.drop_first(), sep);
    }
}

/// Splits a query string on a separator character.
pub fn split_on(s: &str, sep: char) -> (r: Vec<String>)
    ensures
        r@.map_values(|t: String| t@) == spec_split(s@, sep),
{
    let n = s.unicode_len();
    let mut segs: Vec<String> = Vec::new();
    let mut cur = String::new();
    let mut i: usize = 0;
    proof {
        assert(s@.skip(0) =~= s@);
    }
    while i < n
        invariant
            n == s@.len(),
            i <= n,
            ({
                let sp = spec_split(s@.skip(i as int), sep);
                spec_split(s@, sep) == segs@.map_values(|t: String| t@) + seq![cur@ + sp[0]]
                    + sp.drop_first()
            }),
        decreases n - i,
    {
        proof {
            assert(s@.skip(i as int).drop_first() =~= s@.skip(i as int + 1));
            assert(s@.skip(i as int)[0] == s@[i as int]);
            lemma_split_nonempty(s@.skip(i as int + 1), sep);
        }
        let ghost old_segs = segs@;
        let ghost old_cur = cur@;
        let c = s.get_char(i);
        if c == sep {
            segs.push(cur);
            cur = String::new();
            proof {
                let sp1 = spec_split(s@.skip(i as int + 1), sep);
                assert(segs@.map_values(|t: String| t@) =~~= old_segs.map_values(
                    |t: String| t@,
                ).push(old_cur));
                assert(old_segs.map_values(|t: String| t@) + seq![old_cur + Seq::<char>::empty()]
                    + sp1 =~~= segs@.map_values(|t: String| t@) + seq![cur@ + sp1[0]]
                    + sp1.drop_first());
            }
        } else {
            push_char(&mut cur, c);
            proof {
                let sp1 = spec_split(s@.skip(i as int + 1), sep);
                assert(old_cur + (seq![s@[i as int]] + sp1[0]) =~= cur@ + sp1[0]);
                assert(old_segs.map_values(|t: String| t@) + seq![old_cur + (seq![s@[i as int]]
                    + sp1[0])] + sp1.drop_first() =~~= segs@.map_values(|t: String| t@) + seq![cur@
                    + sp1[0]] + sp1.drop_first());
            }
        }
        i = i + 1;
    }
    proof {
        assert(s@.skip(n as int) =~= Seq::<char>::empty());
    }
    let ghost old_segs = segs@;
    let ghost old_cur = cur@;
    segs.push(cur);
    proof {
        assert(old_cur + Seq::<char>::empty() =~= old_cur);
        assert(segs@.map_values(|t: String| t@) =~~= old_segs.map_values(|t: String| t@).push(
            old_cur,
        ));
        assert(segs@.map_values(|t: String| t@) =~~= spec_split(s@, sep));
    }
    segs
}

// ---------------------------------------------------------------------
// Key / value
// ---------------------------------------------------------------------
/// A segment split at its first `=`: everything before it is the key,
/// everything after it the value. Without `=` the whole segment is the
/// key and the value is empty.
pub open spec fn spec_key_value(seg: Seq<char>) -> (Seq<char>, Seq<char>)
    decreases seg.len(),
{
    if seg.len() == 0 {
        (Seq::empty(), Seq::empty())
    } else if seg[0] == '=' {
        (Seq::empty(), seg.drop_first())
    } else {
        let r = spec_key_value(seg.drop_first());
        (seq![seg[0]] + r.0, r.1)
    }
}

/// Splits one segment into its raw key and value.
pub fn key_value(seg: &str) -> (r: (String, String))
    ensures
        r.0@ == spec_key_value(seg@).0,
        r.1@ == spec_key_value(seg@).1,
{
    let n = seg.unicode_len();
    let mut key = String::new();
    let mut i: usize = 0;
    proof {
        assert(seg@.skip(0) =~= seg@);
    }
    while i < n
        invariant
            n == seg@.len(),
            i <= n,
            spec_key_value(seg@).0 == key@ + spec_key_value(seg@.skip(i as int)).0,
            spec_key_value(seg@).1 == spec_key_value(seg@.skip(i as int)).1,
        decreases n - i,
    {
        proof {
            assert(seg@.skip(i as int).drop_first() =~= seg@.skip(i as int + 1));
            assert(seg@.skip(i as int)[0] == seg@[i as int]);
        }
        let ghost prev = key@;
        let c = seg.get_char(i);
        if c == '=' {
            let value = seg.substring_char(i + 1, n).to_owned();
            proof {
                assert(seg@.subrange(i as int + 1, n as int) =~= seg@.skip(i as int + 1));
                assert(key@ + Seq::<char>::empty() =~= key@);
            }
            return (key, value);
        }
        push_char(&mut key, c);
        proof {
            assert(key@ + spec_key_value(seg@.skip(i as int + 1)).0 =~= prev + spec_key_value(
                seg@.skip(i as int),
            ).0);
        }
        i = i + 1;
    }
    proof {
        assert(seg@.skip(n as int) =~= Seq::<char>::empty());
        assert(key@ + Seq::<char>::empty() =~= key@);
    }
    (key, String::new())
}

// ---------------------------------------------------------------------
// Decoding
// ---------------------------------------------------------------------
/// Folds one raw key/value pair into the filter being built: the key and
/// value are unescaped, known keys set their field, unknown keys are
/// ignored, `join` is true only for the exact value `true`.
pub open spec fn spec_apply_pair(acc: FilterView, kv: (Seq<char>, Seq<char>)) -> FilterView {
    let k = spec_unescape(kv.0);
    let v = spec_unescape(kv.1);
    if k == "join"@ {
        FilterView { join: v == "true"@, category: acc.category, series: acc.series, author: acc.author }
    } else if k == "category"@ {
        FilterView { join: acc.join, category: Some(v), series: acc.series, author: acc.author }
    } else if k == "series"@ {
        FilterView { join: acc.join, category: acc.category, series: Some(v), author: acc.author }
    } else if k == "author"@ {
        FilterView { join: acc.join, category: acc.category, series: acc.series, author: Some(v) }
    } else {
        acc
    }
}

/// Folds the segments left to right, so a later occurrence of a key wins.
pub open spec fn spec_fold_pairs(acc: FilterView, segs: Seq<Seq<char>>) -> FilterView
    decreases segs.len(),
{
    if segs.len() == 0 {
        acc
    } else {
        spec_fold_pairs(spec_apply_pair(acc, spec_key_value(segs[0])), segs.drop_first())
    }
}

/// What decoding a query string yields, starting from the defaults.
pub open spec fn spec_decode(q: Seq<char>) -> FilterView {
    spec_fold_pairs(empty_filter(), spec_split(q, '&'))
}

/// Parses a query string into a filter specification. Total: any input
/// yields a filter, fields defaulting as described above.
pub fn decode(q: &str) -> (r: FilterSpec)
    ensures
        r@ == spec_decode(q@),
{
    let segs = split_on(q, '&');
    let ghost all = spec_split(q@, '&');
    let mut f = FilterSpec::empty();
    let n = segs.len();
    let mut i: usize = 0;
    proof {
        assert(all.skip(0) =~~= all);
    }
    while i < n
        invariant
            n == segs@.len(),
            segs@.map_values(|t: String| t@) == all,
            all == spec_split(q@, '&'),
            i <= n,
            spec_decode(q@) == spec_fold_pairs(f@, all.skip(i as int)),
        decreases n - i,
    {
        proof {
            assert(all.skip(i as int).drop_first() =~~= all.skip(i as int + 1));
            assert(all.skip(i as int)[0] == segs@[i as int]@);
        }
        let ghost acc = f@;
        let (k, v) = key_value(segs[i].as_str());
        let ku = unescape(k.as_str());
        let vu = unescape(v.as_str());
        if str_eq(ku.as_str(), "join") {
            f.join = str_eq(vu.as_str(), "true");
        } else if str_eq(ku.as_str(), "category") {
            f.category = Some(vu);
        } else if str_eq(ku.as_str(), "series") {
            f.series = Some(vu);
        } else if str_eq(ku.as_str(), "author") {
            f.author = Some(vu);
        }
        proof {
            assert(f@ == spec_apply_pair(acc, spec_key_value(segs@[i as int]@)));
        }
        i = i + 1;
    }
    proof {
        assert(all.skip(n as int) =~~= Seq::<Seq<char>>::empty());
    }
    f
}


// ---------------------------------------------------------------------
// Round trip
// ---------------------------------------------------------------------
/// No position of the sequence holds the character.
pub open spec fn has_no_char(s: Seq<char>, c: char) -> bool {
    forall|i: int| 0 <= i < s.len() ==> s[i] != c
}

/// Every character is ASCII.
pub open spec fn ascii_chars(s: Seq<char>) -> bool {
    forall|i: int| 0 <= i < s.len() ==> (s[i] as u32) < 128
}

/// An absent field, or a present one of ASCII characters.
pub open spec fn ascii_opt(o: Option<Seq<char>>) -> bool {
    match o {
        Some(s) => ascii_chars(s),
        None => true,
    }
}

/// The hex digit of `n` is a hex character whose value is `n` again, and
/// is neither `&` nor `=` nor `+` nor `%`.
proof fn lemma_hex_digit(n: int)
    requires
        0 <= n < 16,
    ensures
        is_hex_char(spec_hex_digit(n)),
        spec_hex_val(spec_hex_digit(n)) == n,
        spec_hex_digit(n) != '&',
        spec_hex_digit(n) != '=',
{
}

/// A `%XX` escape holds neither `&` nor `=`.
proof fn lemma_escape_byte_clean(b: u8)
    ensures
        has_no_char(spec_escape_byte(b), '&'),
        has_no_char(spec_escape_byte(b), '='),
{
    lemma_hex_digit(b as int / 16);
    lemma_hex_digit(b as int % 16);
    assert forall|i: int| 0 <= i < spec_escape_byte(b).len() implies spec_escape_byte(b)[i] != '&'
        && spec_escape_byte(b)[i] != '=' by {
        if i == 0 {
        } else if i == 1 {
        } else {
        }
    }
}

/// Concatenation keeps a character out when both halves do.
proof fn lemma_no_char_concat(a: Seq<char>, b: Seq<char>, c: char)
    requires
        has_no_char(a, c),
        has_no_char(b, c),
    ensures
        has_no_char(a + b, c),
{
    assert forall|i: int| 0 <= i < (a + b).len() implies (a + b)[i] != c by {
        if i < a.len() {
            assert((a + b)[i] == a[i]);
        } else {
            assert((a + b)[i] == b[i - a.len()]);
        }
    }
}

/// The encoding of one character holds neither `&` nor `=`.
proof fn lemma_escape_char_clean(c: char)
    ensures
        has_no_char(spec_escape_char(c), '&'),
        has_no_char(spec_escape_char(c), '='),
{
    if is_safe_char(c) {
    } else if c == ' ' {
    } else {
        let bs = spec_utf8_bytes(c);
        lemma_escape_bytes4(bs);
        lemma_escape_byte_clean(bs[0]);
        if bs.len() >= 2 {
            lemma_escape_byte_clean(bs[1]);
            lemma_no_char_concat(spec_escape_byte(bs[0]), spec_escape_byte(bs[1]), '&');
            lemma_no_char_concat(spec_escape_byte(bs[0]), spec_escape_byte(bs[1]), '=');
        }
        if bs.len() >= 3 {
            lemma_escape_byte_clean(bs[2]);
            lemma_no_char_concat(
                spec_escape_byte(bs[0]) + spec_escape_byte(bs[1]),
                spec_escape_byte(bs[2]),
                '&',
            );
            lemma_no_char_concat(
                spec_escape_byte(bs[0]) + spec_escape_byte(bs[1]),
                spec_escape_byte(bs[2]),
                '=',
            );
        }
        if bs.len() == 4 {
            lemma_escape_byte_clean(bs[3]);
            lemma_no_char_concat(
                spec_escape_byte(bs[0]) + spec_escape_byte(bs[1]) + spec_escape_byte(bs[2]),
                spec_escape_byte(bs[3]),
                '&',
            );
            lemma_no_char_concat(
                spec_escape_byte(bs[0]) + spec_escape_byte(bs[1]) + spec_escape_byte(bs[2]),
                spec_escape_byte(bs[3]),
                '=',
            );
        }
    }
}

/// An escaped value holds neither `&` nor `=`: the separators of the
/// query string cannot occur inside an encoded field.
proof fn lemma_escape_clean(v: Seq<char>)
    ensures
        has_no_char(spec_escape(v), '&'),
        has_no_char(spec_escape(v), '='),
    decreases v.len(),
{
    if v.len() > 0 {
        lemma_escape_char_clean(v[0]);
        lemma_escape_clean(v.drop_first());
        lemma_no_char_concat(spec_escape_char(v[0]), spec_escape(v.drop_first()), '&');
        lemma_no_char_concat(spec_escape_char(v[0]), spec_escape(v.drop_first()), '=');
    }
}

/// Splitting distributes over a separator between two halves.
proof fn lemma_split_append(u: Seq<char>, w: Seq<char>, sep: char)
    ensures
        spec_split(u + seq![sep] + w, sep) == spec_split(u, sep) + spec_split(w, sep),
    decreases u.len(),
{
    let s = u + seq![sep] + w;
    if u.len() == 0 {
        assert(s =~= seq![sep] + w);
        assert(s.drop_first() =~= w);
        assert(spec_split(s, sep) =~~= spec_split(u, sep) + spec_split(w, sep));
    } else {
        assert(s[0] == u[0]);
        assert(s.drop_first() =~= u.drop_first() + seq![sep] + w);
        lemma_split_append(u.drop_first(), w, sep);
        lemma_split_nonempty(u.drop_first(), sep);
        let ru = spec_split(u.drop_first(), sep);
        let r = spec_split(s.drop_first(), sep);
        assert(r == ru + spec_split(w, sep));
        assert(r[0] == ru[0]);
        if u[0] == sep {
            assert(spec_split(s, sep) =~~= spec_split(u, sep) + spec_split(w, sep));
        } else {
            assert(r.drop_first() =~~= ru.drop_first() + spec_split(w, sep));
            assert(spec_split(s, sep) =~~= spec_split(u, sep) + spec_split(w, sep));
        }
    }
}

/// A sequence without the separator is one whole segment.
proof fn lemma_split_whole(a: Seq<char>, sep: char)
    requires
        has_no_char(a, sep),
    ensures
        spec_split(a, sep) == seq![a],
    decreases a.len(),
{
    if a.len() == 0 {
        assert(spec_split(a, sep) =~~= seq![a]);
    } else {
        assert(forall|i: int| 0 <= i < a.drop_first().len() ==> a.drop_first()[i] == a[i + 1]);
        lemma_split_whole(a.drop_first(), sep);
        assert(seq![a[0]] + a.drop_first() =~= a);
        assert(spec_split(a, sep) =~~= seq![a]);
    }
}

/// Splitting a key, `=`, value concatenation at the first `=` yields the
/// key and the value.
proof fn lemma_key_value_concat(k: Seq<char>, w: Seq<char>)
    requires
        has_no_char(k, '='),
    ensures
        spec_key_value(k + seq!['='] + w) == (k, w),
    decreases k.len(),
{
    let s = k + seq!['='] + w;
    if k.len() == 0 {
        assert(s =~= seq!['='] + w);
        assert(s.drop_first() =~= w);
        assert(spec_key_value(s).0 =~= k);
        assert(spec_key_value(s).1 =~= w);
    } else {
        assert(s[0] == k[0]);
        assert(s.drop_first() =~= k.drop_first() + seq!['='] + w);
        assert(forall|i: int| 0 <= i < k.drop_first().len() ==> k.drop_first()[i] == k[i + 1]);
        lemma_key_value_concat(k.drop_first(), w);
        assert(spec_key_value(s).0 =~= k);
        assert(spec_key_value(s).1 =~= w);
    }
}

/// Unescaping leaves a sequence of safe characters as it is.
proof fn lemma_unescape_identity(s: Seq<char>)
    requires
        forall|i: int| 0 <= i < s.len() ==> is_safe_char(#[trigger] s[i]),
    ensures
        spec_unescape(s) == s,
    decreases s.len(),
{
    if s.len() > 0 {
        assert(forall|i: int| 0 <= i < s.drop_first().len() ==> s.drop_first()[i] == s[i + 1]);
        lemma_unescape_identity(s.drop_first());
        assert(spec_unescape(s) =~= s);
    }
}

/// Unescaping the encoding of one ASCII character, followed by anything,
/// yields that character followed by the unescaped remainder.
proof fn lemma_unescape_escape_char(c: char, rest: Seq<char>)
    requires
        (c as u32) < 128,
    ensures
        spec_unescape(spec_escape_char(c) + rest) == seq![c] + spec_unescape(rest),
{
    let s = spec_escape_char(c) + rest;
    if is_safe_char(c) {
        assert(s[0] == c);
        assert(s.drop_first() =~= rest);
        assert(spec_unescape(s) =~= seq![c] + spec_unescape(rest));
    } else if c == ' ' {
        assert(s[0] == '+');
        assert(s.drop_first() =~= rest);
        assert(spec_unescape(s) =~= seq![c] + spec_unescape(rest));
    } else {
        let b = (c as int) as u8;
        assert(spec_utf8_bytes(c) =~= seq![b]);
        lemma_escape_bytes4(spec_utf8_bytes(c));
        assert(spec_escape_char(c) =~= spec_escape_byte(b));
        let h1 = spec_hex_digit(b as int / 16);
        let h2 = spec_hex_digit(b as int % 16);
        lemma_hex_digit(b as int / 16);
        lemma_hex_digit(b as int % 16);
        assert(s.len() >= 3);
        assert(s[0] == '%' && s[1] == h1 && s[2] == h2);
        assert(16 * spec_hex_val(h1) + spec_hex_val(h2) == b as int);
        assert(((b as int) as u8) as char == c);
        assert(s.skip(3) =~= rest);
        assert(spec_unescape(s) =~= seq![c] + spec_unescape(rest));
    }
}

/// Unescaping undoes escaping on ASCII values.
proof fn lemma_unescape_escape(v: Seq<char>)
    requires
        ascii_chars(v),
    ensures
        spec_unescape(spec_escape(v)) == v,
    decreases v.len(),
{
    if v.len() > 0 {
        assert(forall|i: int| 0 <= i < v.drop_first().len() ==> v.drop_first()[i] == v[i + 1]);
        lemma_unescape_escape(v.drop_first());
        lemma_unescape_escape_char(v[0], spec_escape(v.drop_first()));
        assert(spec_unescape(spec_escape(v)) =~= v);
    }
}

/// Folding distributes over appending one segment at the end.
proof fn lemma_fold_snoc(acc: FilterView, segs: Seq<Seq<char>>, x: Seq<char>)
    ensures
        spec_fold_pairs(acc, segs.push(x)) == spec_apply_pair(
            spec_fold_pairs(acc, segs),
            spec_key_value(x),
        ),
    decreases segs.len(),
{
    if segs.len() == 0 {
        assert(segs.push(x)[0] == x);
        assert(segs.push(x).drop_first() =~~= Seq::<Seq<char>>::empty());
        let acc1 = spec_apply_pair(acc, spec_key_value(x));
        assert(spec_fold_pairs(acc1, Seq::<Seq<char>>::empty()) == acc1);
        assert(spec_fold_pairs(acc, Seq::<Seq<char>>::empty()) == acc);
    } else {
        assert(segs.push(x)[0] == segs[0]);
        assert(segs.push(x).drop_first() =~~= segs.drop_first().push(x));
        lemma_fold_snoc(spec_apply_pair(acc, spec_key_value(segs[0])), segs.drop_first(), x);
    }
}


/// Round trip: decoding the encoding of a filter specification restores
/// it exactly, whenever its set fields hold ASCII characters only.
#[verifier::rlimit(100)]
pub proof fn lemma_codec_round_trip(v: FilterView)
    requires
        ascii_opt(v.category),
        ascii_opt(v.series),
        ascii_opt(v.author),
    ensures
        spec_decode(spec_encode(v)) == v,
{
    reveal_strlit("join=true");
    reveal_strlit("join=false");
    reveal_strlit("join");
    reveal_strlit("true");
    reveal_strlit("false");
    reveal_strlit("category");
    reveal_strlit("series");
    reveal_strlit("author");
    reveal_strlit("&category=");
    reveal_strlit("&series=");
    reveal_strlit("&author=");
    reveal_strlit("category=");
    reveal_strlit("series=");
    reveal_strlit("author=");

    let jv = if v.join {
        "true"@
    } else {
        "false"@
    };
    let j = if v.join {
        "join=true"@
    } else {
        "join=false"@
    };
    assert(j =~= "join"@ + seq!['='] + jv);
    lemma_key_value_concat("join"@, jv);
    lemma_unescape_identity("join"@);
    lemma_unescape_identity(jv);
    assert("false"@ != "true"@) by {
        assert("false"@.len() != "true"@.len());
    }
    let acc1 = spec_apply_pair(empty_filter(), spec_key_value(j));
    assert(acc1 == FilterView { join: v.join, category: None, series: None, author: None });
    lemma_split_whole(j, '&');
    let segs1 = seq![j];
    assert(spec_fold_pairs(empty_filter(), segs1) == acc1) by {
        assert(segs1[0] == j);
        assert(segs1.drop_first() =~~= Seq::<Seq<char>>::empty());
        assert(spec_fold_pairs(acc1, Seq::<Seq<char>>::empty()) == acc1);
    }

    // category
    let q2 = j + spec_opt_part("&category="@, v.category);
    let segs2 = match v.category {
        Some(c) => segs1.push("category="@ + spec_escape(c)),
        None => segs1,
    };
    let acc2 = match v.category {
        Some(c) => FilterView {
            join: acc1.join,
            category: Some(c),
            series: acc1.series,
            author: acc1.author,
        },
        None => acc1,
    };
    match v.category {
        Some(c) => {
            let body = "category="@ + spec_escape(c);
            lemma_escape_clean(c);
            assert(has_no_char("category="@, '&'));
            lemma_no_char_concat("category="@, spec_escape(c), '&');
            assert(q2 =~= j + seq!['&'] + body);
            lemma_split_append(j, body, '&');
            lemma_split_whole(body, '&');
            assert(spec_split(q2, '&') =~~= segs2);
            assert(body =~= "category"@ + seq!['='] + spec_escape(c));
            assert(has_no_char("category"@, '='));
            lemma_key_value_concat("category"@, spec_escape(c));
            lemma_unescape_identity("category"@);
            lemma_unescape_escape(c);
            assert("category"@ != "join"@) by {
                assert("category"@.len() != "join"@.len());
            }
            lemma_fold_snoc(empty_filter(), segs1, body);
            assert(spec_apply_pair(acc1, spec_key_value(body)) == acc2);
            assert(spec_fold_pairs(empty_filter(), segs2) == acc2);
        },
        None => {
            assert(q2 =~= j);
            assert(spec_split(q2, '&') =~~= segs2);
        },
    }
    assert(spec_split(q2, '&') == segs2);
    assert(spec_fold_pairs(empty_filter(), segs2) == acc2);

    // series
    let q3 = q2 + spec_opt_part("&series="@, v.series);
    let segs3 = match v.series {
        Some(c) => segs2.push("series="@ + spec_escape(c)),
        None => segs2,
    };
    let acc3 = match v.series {
        Some(c) => FilterView {
            join: acc2.join,
            category: acc2.category,
            series: Some(c),
            author: acc2.author,
        },
        None => acc2,
    };
    match v.series {
        Some(c) => {
            let body = "series="@ + spec_escape(c);
            lemma_escape_clean(c);
            assert(has_no_char("series="@, '&'));
            lemma_no_char_concat("series="@, spec_escape(c), '&');
            assert(q3 =~= q2 + seq!['&'] + body);
            lemma_split_append(q2, body, '&');
            lemma_split_whole(body, '&');
            assert(spec_split(q3, '&') =~~= segs3);
            assert(body =~= "series"@ + seq!['='] + spec_escape(c));
            assert(has_no_char("series"@, '='));
            lemma_key_value_concat("series"@, spec_escape(c));
            lemma_unescape_identity("series"@);
            lemma_unescape_escape(c);
            assert("series"@ != "join"@) by {
                assert("series"@.len() != "join"@.len());
            }
            assert("series"@ != "category"@) by {
                assert("series"@.len() != "category"@.len());
            }
            lemma_fold_snoc(empty_filter(), segs2, body);
            assert(spec_apply_pair(acc2, spec_key_value(body)) == acc3);
            assert(spec_fold_pairs(empty_filter(), segs3) == acc3);
        },
        None => {
            assert(q3 =~= q2);
            assert(spec_split(q3, '&') =~~= segs3);
        },
    }
    assert(spec_split(q3, '&') == segs3);
    assert(spec_fold_pairs(empty_filter(), segs3) == acc3);

    // author
    let q4 = q3 + spec_opt_part("&author="@, v.author);
    let segs4 = match v.author {
        Some(c) => segs3.push("author="@ + spec_escape(c)),
        None => segs3,
    };
    let acc4 = match v.author {
        Some(c) => FilterView {
            join: acc3.join,
            category: acc3.category,
            series: acc3.series,
            author: Some(c),
        },
        None => acc3,
    };
    match v.author {
        Some(c) => {
            let body = "author="@ + spec_escape(c);
            lemma_escape_clean(c);
            assert(has_no_char("author="@, '&'));
            lemma_no_char_concat("author="@, spec_escape(c), '&');
            assert(q4 =~= q3 + seq!['&'] + body);
            lemma_split_append(q3, body, '&');
            lemma_split_whole(body, '&');
            assert(spec_split(q4, '&') =~~= segs4);
            assert(body =~= "author"@ + seq!['='] + spec_escape(c));
            assert(has_no_char("author"@, '='));
            lemma_key_value_concat("author"@, spec_escape(c));
            lemma_unescape_identity("author"@);
            lemma_unescape_escape(c);
            assert("author"@ != "join"@) by {
                assert("author"@.len() != "join"@.len());
            }
            assert("author"@ != "category"@) by {
                assert("author"@.len() != "category"@.len());
            }
            assert("author"@ != "series"@) by {
                assert("author"@[0] != "series"@[0]);
            }
            lemma_fold_snoc(empty_filter(), segs3, body);
            assert(spec_apply_pair(acc3, spec_key_value(body)) == acc4);
            assert(spec_fold_pairs(empty_filter(), segs4) == acc4);
        },
        None => {
            assert(q4 =~= q3);
            assert(spec_split(q4, '&') =~~= segs4);
        },
    }
    assert(spec_split(q4, '&') == segs4);
    assert(spec_fold_pairs(empty_filter(), segs4) == acc4);

    assert(spec_encode(v) =~= q4);
    assert(acc4 == v);
}

} // verus!
