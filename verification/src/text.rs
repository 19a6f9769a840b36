//! Text primitives the IR printer is built from. Every spelling the backend
//! produces is assembled from these, so each one is stated over the character
//! sequence (`Seq<char>`) a `String` or `&str` views as.

use crate::builder::{escaped_byte, escaped_bytes, hex_digit, kept_byte};
use vstd::prelude::*;
use vstd::string::StrSliceExecFns;
use vstd::string::StringExecFns;

verus! {

/// `String::push` appends one character at the end of the string, as its
/// documentation says; nothing else of the string changes.
pub assume_specification[ String::push ](s: &mut String, ch: char)
    ensures
        final(s)@ == old(s)@.push(ch),
;

/// `p` is a prefix of `s`.
pub open spec fn has_prefix(s: Seq<char>, p: Seq<char>) -> bool {
    p.len() <= s.len() && s.subrange(0, p.len() as int) == p
}

/// `p` is a suffix of `s`.
pub open spec fn has_suffix(s: Seq<char>, p: Seq<char>) -> bool {
    p.len() <= s.len() && s.subrange(s.len() - p.len(), s.len() as int) == p
}

/// A fresh `String` holding the characters of `s`.
pub fn owned(s: &str) -> (r: String)
    ensures
        r@ == s@,
{
    String::from_str(s)
}

/// The characters of `s`, one per element.
pub fn chars_of(s: &str) -> (v: Vec<char>)
    ensures
        v@ == s@,
{
    let n = s.unicode_len();
    let mut v: Vec<char> = Vec::new();
    let mut i: usize = 0;
    while i < n
        invariant
            n == s@.len(),
            i <= n,
            v@ == s@.subrange(0, i as int),
        decreases n - i,
    {
        let c = s.get_char(i);
        v.push(c);
        i = i + 1;
        assert(v@ =~= s@.subrange(0, i as int));
    }
    assert(v@ =~= s@);
    v
}

/// `a` and `b` spell the same characters.
pub fn str_eq(a: &str, b: &str) -> (r: bool)
    ensures
        r == (a@ == b@),
{
    let n = a.unicode_len();
    if n != b.unicode_len() {
        return false;
    }
    let mut i: usize = 0;
    while i < n
        invariant
            n == a@.len(),
            n == b@.len(),
            i <= n,
            forall|j: int| 0 <= j < i ==> a@[j] == b@[j],
        decreases n - i,
    {
        if a.get_char(i) != b.get_char(i) {
            return false;
        }
        i = i + 1;
    }
    assert(a@ =~= b@);
    true
}

/// `s` begins with `p`.
pub fn starts_with(s: &str, p: &str) -> (r: bool)
    ensures
        r == has_prefix(s@, p@),
{
    let n = s.unicode_len();
    let m = p.unicode_len();
    if m > n {
        return false;
    }
    let mut i: usize = 0;
    while i < m
        invariant
            n == s@.len(),
            m == p@.len(),
            m <= n,
            i <= m,
            forall|j: int| 0 <= j < i ==> s@[j] == p@[j],
        decreases m - i,
    {
        if s.get_char(i) != p.get_char(i) {
            assert(s@.subrange(0, m as int)[i as int] != p@[i as int]);
            return false;
        }
        i = i + 1;
    }
    assert(s@.subrange(0, m as int) =~= p@);
    true
}

/// `s` ends with `p`.
pub fn ends_with(s: &str, p: &str) -> (r: bool)
    ensures
        r == has_suffix(s@, p@),
{
    let n = s.unicode_len();
    let m = p.unicode_len();
    if m > n {
        return false;
    }
    let off = n - m;
    let mut i: usize = 0;
    while i < m
        invariant
            n == s@.len(),
            m == p@.len(),
            m <= n,
            off == n - m,
            i <= m,
            forall|j: int| 0 <= j < i ==> s@[off + j] == p@[j],
        decreases m - i,
    {
        if s.get_char(off + i) != p.get_char(i) {
            assert(s@.subrange(off as int, n as int)[i as int] != p@[i as int]);
            return false;
        }
        i = i + 1;
    }
    assert(s@.subrange(off as int, n as int) =~= p@);
    true
}

/// The characters of `s` from index `from` (inclusive) to `to` (exclusive).
pub fn slice_chars(s: &str, from: usize, to: usize) -> (r: String)
    requires
        from <= to <= s@.len(),
    ensures
        r@ == s@.subrange(from as int, to as int),
{
    let mut r = String::new();
    let mut i: usize = from;
    while i < to
        invariant
            from <= i <= to,
            to <= s@.len(),
            r@ == s@.subrange(from as int, i as int),
        decreases to - i,
    {
        let c = s.get_char(i);
        r.push(c);
        i = i + 1;
        assert(r@ =~= s@.subrange(from as int, i as int));
    }
    r
}

/// `s` with the prefix `p` removed, or `None` when `s` does not begin with it.
pub fn strip_prefix(s: &str, p: &str) -> (r: Option<String>)
    ensures
        r is Some <==> has_prefix(s@, p@),
        r matches Some(rest) ==> rest@ == s@.skip(p@.len() as int),
{
    if starts_with(s, p) {
        let n = s.unicode_len();
        let m = p.unicode_len();
        let rest = slice_chars(s, m, n);
        assert(rest@ =~= s@.skip(p@.len() as int));
        Some(rest)
    } else {
        None
    }
}

/// The characters Unicode classifies `White_Space`, which `str::trim` removes.
pub open spec fn is_white_space(c: char) -> bool {
    let u = c as u32;
    (0x09 <= u && u <= 0x0D) || u == 0x20 || u == 0x85 || u == 0xA0 || u == 0x1680 || (0x2000
        <= u && u <= 0x200A) || u == 0x2028 || u == 0x2029 || u == 0x202F || u == 0x205F || u
        == 0x3000
}

/// Whether `c` is Unicode white space.
pub fn white_space(c: char) -> (r: bool)
    ensures
        r == is_white_space(c),
{
    let u = c as u32;
    (0x09 <= u && u <= 0x0D) || u == 0x20 || u == 0x85 || u == 0xA0 || u == 0x1680 || (0x2000
        <= u && u <= 0x200A) || u == 0x2028 || u == 0x2029 || u == 0x202F || u == 0x205F || u
        == 0x3000
}

/// `s` without its leading white space.
pub open spec fn trim_start(s: Seq<char>) -> Seq<char>
    decreases s.len(),
{
    if s.len() > 0 && is_white_space(s[0]) {
        trim_start(s.drop_first())
    } else {
        s
    }
}

/// `s` without its trailing white space.
pub open spec fn trim_end(s: Seq<char>) -> Seq<char>
    decreases s.len(),
{
    if s.len() > 0 && is_white_space(s.last()) {
        trim_end(s.drop_last())
    } else {
        s
    }
}

/// `s` without leading and trailing white space.
pub open spec fn trimmed(s: Seq<char>) -> Seq<char> {
    trim_end(trim_start(s))
}

/// What `trim_start` leaves starts with no white space.
proof fn lemma_trim_start_clean(s: Seq<char>)
    ensures
        trim_start(s).len() > 0 ==> !is_white_space(trim_start(s)[0]),
    decreases s.len(),
{
    if s.len() > 0 && is_white_space(s[0]) {
        lemma_trim_start_clean(s.drop_first());
    }
}

/// What `trim_end` leaves is a prefix of `s` ending in no white space.
proof fn lemma_trim_end_prefix(s: Seq<char>)
    ensures
        trim_end(s) == s.subrange(0, trim_end(s).len() as int),
        trim_end(s).len() <= s.len(),
        trim_end(s).len() > 0 ==> !is_white_space(trim_end(s).last()),
    decreases s.len(),
{
    if s.len() > 0 && is_white_space(s.last()) {
        lemma_trim_end_prefix(s.drop_last());
        assert(s.drop_last().subrange(0, trim_end(s).len() as int) =~= s.subrange(
            0,
            trim_end(s).len() as int,
        ));
    } else {
        assert(s.subrange(0, s.len() as int) =~= s);
    }
}

/// Trimming twice is trimming once.
pub proof fn lemma_trimmed_idempotent(s: Seq<char>)
    ensures
        trimmed(trimmed(s)) == trimmed(s),
{
    let u = trim_start(s);
    let t = trim_end(u);
    lemma_trim_start_clean(s);
    lemma_trim_end_prefix(u);
    if t.len() > 0 {
        assert(t[0] == u[0]);
    }
    assert(trim_start(t) == t);
    assert(trim_end(t) == t);
}

/// `s` with leading and trailing white space removed.
pub fn trim(s: &str) -> (r: String)
    ensures
        r@ == trimmed(s@),
{
    let n = s.unicode_len();
    let mut lo: usize = 0;
    assert(s@.subrange(0, n as int) =~= s@);
    while lo < n && white_space(s.get_char(lo))
        invariant
            n == s@.len(),
            lo <= n,
            trim_start(s@) == trim_start(s@.subrange(lo as int, n as int)),
        decreases n - lo,
    {
        assert(s@.subrange(lo as int, n as int).drop_first() =~= s@.subrange(
            lo + 1,
            n as int,
        ));
        lo = lo + 1;
    }
    assert(trim_start(s@) == s@.subrange(lo as int, n as int));
    let mut hi: usize = n;
    while hi > lo && white_space(s.get_char(hi - 1))
        invariant
            n == s@.len(),
            lo <= hi <= n,
            trimmed(s@) == trim_end(s@.subrange(lo as int, hi as int)),
        decreases hi - lo,
    {
        assert(s@.subrange(lo as int, hi as int).drop_last() =~= s@.subrange(
            lo as int,
            hi - 1,
        ));
        hi = hi - 1;
    }
    slice_chars(s, lo, hi)
}

/// The decimal spelling of `n`, most significant digit first, no sign.
pub open spec fn decimal(n: nat) -> Seq<char>
    decreases n,
{
    if n < 10 {
        seq![digit_char(n)]
    } else {
        decimal(n / 10).push(digit_char(n % 10))
    }
}

/// The ASCII digit for `d < 10`.
pub open spec fn digit_char(d: nat) -> char {
    if d == 0 {
        '0'
    } else if d == 1 {
        '1'
    } else if d == 2 {
        '2'
    } else if d == 3 {
        '3'
    } else if d == 4 {
        '4'
    } else if d == 5 {
        '5'
    } else if d == 6 {
        '6'
    } else if d == 7 {
        '7'
    } else if d == 8 {
        '8'
    } else {
        '9'
    }
}

/// The ASCII digit for `d`.
fn digit(d: u64) -> (c: char)
    requires
        d < 10,
    ensures
        c == digit_char(d as nat),
{
    if d == 0 {
        '0'
    } else if d == 1 {
        '1'
    } else if d == 2 {
        '2'
    } else if d == 3 {
        '3'
    } else if d == 4 {
        '4'
    } else if d == 5 {
        '5'
    } else if d == 6 {
        '6'
    } else if d == 7 {
        '7'
    } else if d == 8 {
        '8'
    } else {
        '9'
    }
}

/// Append the decimal spelling of `n` to `out`.
pub fn push_decimal(out: &mut String, n: u64)
    ensures
        final(out)@ == old(out)@ + decimal(n as nat),
    decreases n,
{
    if n < 10 {
        out.push(digit(n));
        assert(decimal(n as nat) =~= seq![digit_char(n as nat)]);
    } else {
        push_decimal(out, n / 10);
        out.push(digit(n % 10));
        assert(old(out)@ + decimal(n as nat) =~= old(out)@ + decimal((n / 10) as nat) + seq![
            digit_char((n % 10) as nat),
        ]);
    }
}

/// The decimal spelling of `n`, with a leading `-` when negative.
pub open spec fn signed_decimal(n: int) -> Seq<char> {
    if n < 0 {
        seq!['-'] + decimal((-n) as nat)
    } else {
        decimal(n as nat)
    }
}

/// A decimal spelling is never empty and starts with a digit.
pub proof fn lemma_decimal_first(n: nat)
    ensures
        decimal(n).len() > 0,
        decimal(n)[0] != '%',
    decreases n,
{
    if n >= 10 {
        lemma_decimal_first(n / 10);
    }
}

/// A signed decimal spelling is never empty and starts with a digit or `-`.
pub proof fn lemma_signed_first(n: int)
    ensures
        signed_decimal(n).len() > 0,
        signed_decimal(n)[0] != '%',
{
    if n < 0 {
        lemma_decimal_first((-n) as nat);
    } else {
        lemma_decimal_first(n as nat);
    }
}

/// Append the signed decimal spelling of `n` to `out`.
pub fn push_signed(out: &mut String, n: i64)
    ensures
        final(out)@ == old(out)@ + signed_decimal(n as int),
{
    if n < 0 {
        out.push('-');
        let magnitude: u64 = if n == i64::MIN {
            9223372036854775808u64
        } else {
            (-n) as u64
        };
        push_decimal(out, magnitude);
        assert(final(out)@ =~= old(out)@ + signed_decimal(n as int));
    } else {
        push_decimal(out, n as u64);
    }
}

/// `c` is one of `set`.
pub open spec fn in_set(c: char, set: Seq<char>) -> bool {
    exists|i: int| 0 <= i < set.len() && set[i] == c
}

/// Whether `c` is one of `set`.
pub fn char_in(c: char, set: &[char]) -> (r: bool)
    ensures
        r == in_set(c, set@),
{
    let mut i: usize = 0;
    while i < set.len()
        invariant
            i <= set@.len(),
            forall|j: int| 0 <= j < i ==> set@[j] != c,
        decreases set@.len() - i,
    {
        if set[i] == c {
            return true;
        }
        i = i + 1;
    }
    false
}

/// `s` without its leading characters from `set`.
pub open spec fn strip_start_in(s: Seq<char>, set: Seq<char>) -> Seq<char>
    decreases s.len(),
{
    if s.len() > 0 && in_set(s[0], set) {
        strip_start_in(s.drop_first(), set)
    } else {
        s
    }
}

/// `s` without its trailing characters from `set`.
pub open spec fn strip_end_in(s: Seq<char>, set: Seq<char>) -> Seq<char>
    decreases s.len(),
{
    if s.len() > 0 && in_set(s.last(), set) {
        strip_end_in(s.drop_last(), set)
    } else {
        s
    }
}

/// `s` with every leading and trailing character from `set` removed — the
/// behaviour of `str::trim_matches` with a character set.
pub fn trim_matches(s: &str, set: &[char]) -> (r: String)
    ensures
        r@ == strip_end_in(strip_start_in(s@, set@), set@),
{
    let n = s.unicode_len();
    let mut lo: usize = 0;
    assert(s@.subrange(0, n as int) =~= s@);
    while lo < n && char_in(s.get_char(lo), set)
        invariant
            n == s@.len(),
            lo <= n,
            strip_start_in(s@, set@) == strip_start_in(s@.subrange(lo as int, n as int), set@),
        decreases n - lo,
    {
        assert(s@.subrange(lo as int, n as int).drop_first() =~= s@.subrange(
            lo + 1,
            n as int,
        ));
        lo = lo + 1;
    }
    assert(strip_start_in(s@, set@) == s@.subrange(lo as int, n as int));
    let mut hi: usize = n;
    while hi > lo && char_in(s.get_char(hi - 1), set)
        invariant
            n == s@.len(),
            lo <= hi <= n,
            strip_end_in(strip_start_in(s@, set@), set@) == strip_end_in(
                s@.subrange(lo as int, hi as int),
                set@,
            ),
        decreases hi - lo,
    {
        assert(s@.subrange(lo as int, hi as int).drop_last() =~= s@.subrange(
            lo as int,
            hi - 1,
        ));
        hi = hi - 1;
    }
    slice_chars(s, lo, hi)
}

/// `s` with every occurrence of `from` replaced by `to`.
pub open spec fn replaced(s: Seq<char>, from: char, to: char) -> Seq<char> {
    Seq::new(s.len(), |i: int| if s[i] == from { to } else { s[i] })
}

/// `s` with every `from` character replaced by `to`.
pub fn replace_char(s: &str, from: char, to: char) -> (r: String)
    ensures
        r@ == replaced(s@, from, to),
{
    let n = s.unicode_len();
    let mut r = String::new();
    let mut i: usize = 0;
    while i < n
        invariant
            n == s@.len(),
            i <= n,
            r@ == replaced(s@.subrange(0, i as int), from, to),
        decreases n - i,
    {
        let c = s.get_char(i);
        if c == from {
            r.push(to);
        } else {
            r.push(c);
        }
        i = i + 1;
        assert(r@ =~= replaced(s@.subrange(0, i as int), from, to));
    }
    assert(s@.subrange(0, n as int) =~= s@);
    r
}

/// The value of an uppercase hexadecimal digit.
pub open spec fn hex_value(c: char) -> int {
    if '0' <= c && c <= '9' {
        c as int - '0' as int
    } else if 'A' <= c && c <= 'F' {
        c as int - 'A' as int + 10
    } else {
        0
    }
}

/// The bytes a C-string body spells: `\HH` is the byte `0xHH`, any other
/// character is itself.
pub open spec fn decoded(cs: Seq<char>) -> Seq<u8>
    decreases cs.len(),
{
    if cs.len() == 0 {
        Seq::empty()
    } else if cs[0] == '\\' && cs.len() >= 3 {
        seq![(hex_value(cs[1]) * 16 + hex_value(cs[2])) as u8] + decoded(cs.subrange(3, cs.len() as int))
    } else {
        seq![cs[0] as u8] + decoded(cs.drop_first())
    }
}

/// Every character of `cs` is printable ASCII other than `"`.
pub open spec fn printable(cs: Seq<char>) -> bool {
    forall|j: int| 0 <= j < cs.len() ==> ' ' <= #[trigger] cs[j] && cs[j] <= '~' && cs[j] != '"'
}

/// Escaping is done byte by byte.
proof fn lemma_escaped_concat(a: Seq<u8>, b: Seq<u8>)
    ensures
        escaped_bytes(a + b) == escaped_bytes(a) + escaped_bytes(b),
    decreases b.len(),
{
    if b.len() == 0 {
        assert(a + b =~= a);
        assert(escaped_bytes(a) + escaped_bytes(b) =~= escaped_bytes(a));
    } else {
        lemma_escaped_concat(a, b.drop_last());
        assert((a + b).drop_last() =~= a + b.drop_last());
        assert(escaped_bytes(a) + escaped_bytes(b) =~= escaped_bytes(a) + escaped_bytes(b.drop_last()) + escaped_byte(b.last()));
    }
}

/// A hexadecimal digit reads back as its value.
proof fn lemma_hex_value(d: nat)
    requires
        d < 16,
    ensures
        hex_value(hex_digit(d)) == d,
{
}

/// One escaped byte, followed by anything, decodes to that byte first.
proof fn lemma_decoded_unit(b: u8, rest: Seq<char>)
    ensures
        decoded(escaped_byte(b) + rest) == seq![b] + decoded(rest),
{
    let u = escaped_byte(b) + rest;
    if kept_byte(b) {
        assert(u[0] == b as char);
        assert(u.drop_first() =~= rest);
        assert((b as char) as u8 == b);
    } else {
        lemma_hex_value((b / 16) as nat);
        lemma_hex_value((b % 16) as nat);
        assert(u[0] == '\\');
        assert(u.subrange(3, u.len() as int) =~= rest);
        assert(hex_value(u[1]) * 16 + hex_value(u[2]) == b);
    }
}

/// The escaped bytes decode back to the bytes.
proof fn lemma_decoded_escaped(bs: Seq<u8>, tail: Seq<char>)
    ensures
        decoded(escaped_bytes(bs) + tail) == bs + decoded(tail),
    decreases bs.len(),
{
    if bs.len() == 0 {
        assert(escaped_bytes(bs) + tail =~= tail);
        assert(bs + decoded(tail) =~= decoded(tail));
    } else {
        lemma_escaped_concat(seq![bs[0]], bs.drop_first());
        assert(seq![bs[0]] + bs.drop_first() =~= bs);
        let one = seq![bs[0]];
        assert(escaped_bytes(one) =~= escaped_byte(bs[0])) by {
            assert(one.drop_last() =~= Seq::<u8>::empty());
            assert(escaped_bytes(one.drop_last()) =~= Seq::<char>::empty());
            assert(one.last() == bs[0]);
            assert(Seq::<char>::empty() + escaped_byte(bs[0]) =~= escaped_byte(bs[0]));
        }
        lemma_decoded_escaped(bs.drop_first(), tail);
        assert(escaped_bytes(bs) + tail =~= escaped_byte(bs[0]) + (escaped_bytes(bs.drop_first()) + tail));
        lemma_decoded_unit(bs[0], escaped_bytes(bs.drop_first()) + tail);
        assert(seq![bs[0]] + (bs.drop_first() + decoded(tail)) =~= bs + decoded(tail));
    }
}

/// Escaped bytes are printable ASCII with no `"`.
proof fn lemma_escaped_printable(bs: Seq<u8>)
    ensures
        printable(escaped_bytes(bs)),
    decreases bs.len(),
{
    if bs.len() > 0 {
        lemma_escaped_printable(bs.drop_last());
        let b = bs.last();
        let a = escaped_bytes(bs.drop_last());
        let e = escaped_byte(b);
        assert(printable(e)) by {
            if kept_byte(b) {
                assert(e[0] == b as char);
            } else {
                assert(b / 16 < 16 && b % 16 < 16);
            }
        }
        assert forall|j: int| 0 <= j < (a + e).len() implies ' ' <= #[trigger] (a + e)[j] && (a + e)[j] <= '~'
            && (a + e)[j] != '"' by {
            if j < a.len() {
                assert((a + e)[j] == a[j]);
            } else {
                assert((a + e)[j] == e[j - a.len()]);
            }
        }
    }
}

/// The body of a string constant decodes to the text's bytes followed by
/// the terminating NUL, and is printable ASCII with no `"`, so it is safe
/// between the quotes of `c"..."`.
pub proof fn law_escape_round_trip(bs: Seq<u8>)
    ensures
        decoded(escaped_bytes(bs) + seq!['\\', '0', '0']) == bs.push(0),
        printable(escaped_bytes(bs) + seq!['\\', '0', '0']),
{
    let t = seq!['\\', '0', '0'];
    lemma_decoded_escaped(bs, t);
    assert(t.subrange(3, t.len() as int) =~= Seq::<char>::empty());
    assert(decoded(Seq::<char>::empty()) =~= Seq::<u8>::empty());
    assert(hex_value(t[1]) * 16 + hex_value(t[2]) == 0);
    assert(decoded(t) =~= seq![0u8]);
    assert(bs + seq![0u8] =~= bs.push(0));
    lemma_escaped_printable(bs);
    let a = escaped_bytes(bs);
    assert forall|j: int| 0 <= j < (a + t).len() implies ' ' <= #[trigger] (a + t)[j] && (a + t)[j] <= '~' && (a
        + t)[j] != '"' by {
        if j < a.len() {
            assert((a + t)[j] == a[j]);
        } else {
            assert((a + t)[j] == t[j - a.len()]);
        }
    }
}

} // verus!
