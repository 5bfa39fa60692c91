//! Text building blocks: number rendering as `format!` prints it, and
//! appending to a `String` with a stated effect.
use vstd::prelude::*;
use vstd::string::*;

verus! {

/// The character that stands for the digit `d` (0..16); hex letters in the chosen case.
pub open spec fn digit_char(d: int, upper: bool) -> char {
    if d == 0 { '0' } else if d == 1 { '1' } else if d == 2 { '2' } else if d == 3 { '3' }
    else if d == 4 { '4' } else if d == 5 { '5' } else if d == 6 { '6' } else if d == 7 { '7' }
    else if d == 8 { '8' } else if d == 9 { '9' }
    else if upper {
        if d == 10 { 'A' } else if d == 11 { 'B' } else if d == 12 { 'C' } else if d == 13 { 'D' }
        else if d == 14 { 'E' } else { 'F' }
    } else {
        if d == 10 { 'a' } else if d == 11 { 'b' } else if d == 12 { 'c' } else if d == 13 { 'd' }
        else if d == 14 { 'e' } else { 'f' }
    }
}

/// Decimal rendering of a natural number, as `{}` prints it.
pub open spec fn dec(n: nat) -> Seq<char>
    decreases n,
{
    if n < 10 { seq![digit_char(n as int, true)] } else { dec(n / 10).push(digit_char((n % 10) as int, true)) }
}

/// Decimal rendering of an integer, with a leading `-` when negative.
pub open spec fn idec(i: int) -> Seq<char> {
    if i < 0 { seq!['-'] + dec((-i) as nat) } else { dec(i as nat) }
}

/// Hexadecimal rendering without padding, as `{:X}` (or `{:x}`) prints it.
pub open spec fn hex(n: nat, upper: bool) -> Seq<char>
    decreases n,
{
    if n < 16 { seq![digit_char(n as int, upper)] } else { hex(n / 16, upper).push(digit_char((n % 16) as int, upper)) }
}

/// `w` copies of `c`.
pub open spec fn fill(c: char, w: nat) -> Seq<char>
    decreases w,
{
    if w == 0 { seq![] } else { fill(c, (w - 1) as nat).push(c) }
}

/// Hexadecimal rendering zero-padded to at least `w` digits, as `{:0wX}` prints it.
pub open spec fn hex_pad(n: nat, w: nat, upper: bool) -> Seq<char> {
    let h = hex(n, upper);
    if h.len() < w { fill('0', (w - h.len()) as nat) + h } else { h }
}

/// `{:08X}` of a 32-bit value.
pub open spec fn hex8(n: u32) -> Seq<char> {
    hex_pad(n as nat, 8, true)
}

/// The indentation of nesting level `k`: four spaces per level.
pub open spec fn indent(k: nat) -> Seq<char>
    decreases k,
{
    if k == 0 { seq![] } else { indent((k - 1) as nat) + "    "@ }
}

/// Appends one character (`String::push`).
#[verifier::external_body]
pub(crate) fn push_char(s: &mut String, c: char)
    ensures
        final(s)@ == old(s)@.push(c),
{
    s.push(c);
}

fn digit(d: u64, upper: bool) -> (c: char)
    requires
        d < 16,
    ensures
        c == digit_char(d as int, upper),
{
    if d == 0 { '0' } else if d == 1 { '1' } else if d == 2 { '2' } else if d == 3 { '3' }
    else if d == 4 { '4' } else if d == 5 { '5' } else if d == 6 { '6' } else if d == 7 { '7' }
    else if d == 8 { '8' } else if d == 9 { '9' }
    else if upper {
        if d == 10 { 'A' } else if d == 11 { 'B' } else if d == 12 { 'C' } else if d == 13 { 'D' }
        else if d == 14 { 'E' } else { 'F' }
    } else {
        if d == 10 { 'a' } else if d == 11 { 'b' } else if d == 12 { 'c' } else if d == 13 { 'd' }
        else if d == 14 { 'e' } else { 'f' }
    }
}

/// Appends the decimal rendering of `n`.
pub fn push_dec(s: &mut String, n: u64)
    ensures
        final(s)@ == old(s)@ + dec(n as nat),
    decreases n,
{
    if n < 10 {
        push_char(s, digit(n, true));
    } else {
        push_dec(s, n / 10);
        push_char(s, digit(n % 10, true));
    }
}

/// Appends the decimal rendering of a signed value.
pub fn push_idec(s: &mut String, i: i64)
    requires
        i > i64::MIN,
    ensures
        final(s)@ == old(s)@ + idec(i as int),
{
    if i < 0 {
        push_char(s, '-');
        push_dec(s, (-i) as u64);
        assert(final(s)@ =~= old(s)@ + idec(i as int));
    } else {
        push_dec(s, i as u64);
    }
}

fn push_hex_digits(s: &mut String, n: u64, upper: bool)
    ensures
        final(s)@ == old(s)@ + hex(n as nat, upper),
    decreases n,
{
    if n < 16 {
        push_char(s, digit(n, upper));
    } else {
        push_hex_digits(s, n / 16, upper);
        push_char(s, digit(n % 16, upper));
    }
}

fn hex_len(n: u64, upper: bool) -> (l: u64)
    ensures
        l == hex(n as nat, upper).len(),
    decreases n,
{
    if n < 16 {
        1
    } else {
        proof {
            assert(pow16(0) == 1);
            assert(pow16(1) == 16);
            assert(pow16(2) == 256);
            assert(pow16(3) == 4096);
            assert(pow16(4) == 65536);
            assert(pow16(5) == 1048576);
            assert(pow16(6) == 16777216);
            assert(pow16(7) == 268435456);
            assert(pow16(8) == 4294967296);
            assert(pow16(9) == 68719476736);
            assert(pow16(10) == 1099511627776);
            assert(pow16(11) == 17592186044416);
            assert(pow16(12) == 281474976710656);
            assert(pow16(13) == 4503599627370496);
            assert(pow16(14) == 72057594037927936);
            assert(pow16(15) == 1152921504606846976);
            lemma_hex_len_le(n as nat / 16, upper, 15);
        }
        1 + hex_len(n / 16, upper)
    }
}

/// `hex(n)` has at most `k` digits whenever `n < 16^k`.
proof fn lemma_hex_len_le(n: nat, upper: bool, k: nat)
    requires
        k >= 1,
        n < pow16(k),
    ensures
        hex(n, upper).len() <= k,
    decreases k,
{
    if n >= 16 {
        assert(k >= 2) by {
            if k == 1 {
                assert(pow16(1) == 16 * pow16(0));
            }
        }
        assert(n / 16 < pow16((k - 1) as nat)) by {
            assert(pow16(k) == 16 * pow16((k - 1) as nat));
        }
        lemma_hex_len_le(n / 16, upper, (k - 1) as nat);
    }
}

spec fn pow16(k: nat) -> nat
    decreases k,
{
    if k == 0 { 1 } else { 16 * pow16((k - 1) as nat) }
}

fn push_fill(s: &mut String, c: char, w: u64)
    ensures
        final(s)@ == old(s)@ + fill(c, w as nat),
    decreases w,
{
    if w > 0 {
        push_fill(s, c, w - 1);
        push_char(s, c);
        assert(final(s)@ =~= old(s)@ + fill(c, w as nat));
    } else {
        assert(final(s)@ =~= old(s)@ + fill(c, w as nat));
    }
}

/// Appends `n` in hexadecimal, zero-padded to at least `w` digits.
pub fn push_hex_pad(s: &mut String, n: u64, w: u64, upper: bool)
    ensures
        final(s)@ == old(s)@ + hex_pad(n as nat, w as nat, upper),
{
    let l = hex_len(n, upper);
    let ghost s0 = s@;
    if l < w {
        push_fill(s, '0', w - l);
        push_hex_digits(s, n, upper);
        assert(final(s)@ =~= s0 + hex_pad(n as nat, w as nat, upper));
    } else {
        push_hex_digits(s, n, upper);
    }
}

/// Appends `{:08X}` of `n`.
pub fn push_hex8(s: &mut String, n: u32)
    ensures
        final(s)@ == old(s)@ + hex8(n),
{
    push_hex_pad(s, n as u64, 8, true);
}

/// Appends the indentation of level `k`.
pub fn push_indent(s: &mut String, k: usize)
    ensures
        final(s)@ == old(s)@ + indent(k as nat),
    decreases k,
{
    if k > 0 {
        push_indent(s, k - 1);
        s.append("    ");
        assert(final(s)@ =~= old(s)@ + indent(k as nat));
    } else {
        assert(final(s)@ =~= old(s)@ + indent(k as nat));
    }
}

/// Appends the text of `t`.
pub fn push_str(s: &mut String, t: &str)
    ensures
        final(s)@ == old(s)@ + t@,
{
    s.append(t);
}

/// Appends the text of `t`.
pub fn push_string(s: &mut String, t: &String)
    ensures
        final(s)@ == old(s)@ + t@,
{
    s.append(t.as_str());
}


/// Whether `char::is_alphanumeric` holds of `c` (Unicode Alphabetic or Numeric).
pub uninterp spec fn char_is_alphanumeric(c: char) -> bool;

/// Whether `char::is_numeric` holds of `c` (Unicode Numeric).
pub uninterp spec fn char_is_numeric(c: char) -> bool;

/// ASCII letter or digit.
pub open spec fn ascii_alnum(c: char) -> bool {
    ('0' <= c && c <= '9') || ('a' <= c && c <= 'z') || ('A' <= c && c <= 'Z')
}

/// Calls `char::is_alphanumeric`. Its result is named; on ASCII characters
/// std documents it as "is an ASCII letter or digit".
#[verifier::external_body]
pub(crate) fn is_alphanumeric(c: char) -> (r: bool)
    ensures
        r == char_is_alphanumeric(c),
        (c as u32) < 128 ==> (r == ascii_alnum(c)),
{
    c.is_alphanumeric()
}

/// Calls `char::is_numeric`. Its result is named; on ASCII characters std
/// documents it as "is a decimal digit".
#[verifier::external_body]
pub(crate) fn is_numeric(c: char) -> (r: bool)
    ensures
        r == char_is_numeric(c),
        (c as u32) < 128 ==> (r == ('0' <= c && c <= '9')),
{
    c.is_numeric()
}

/// The characters of `s`, in order.
pub fn str_chars(s: &str) -> (r: Vec<char>)
    ensures
        r@ == s@,
{
    let n = s.unicode_len();
    let mut v: Vec<char> = Vec::new();
    for i in 0..n
        invariant
            n == s@.len(),
            v@ == s@.take(i as int),
    {
        v.push(s.get_char(i));
        assert(v@ =~= s@.take(i + 1));
    }
    assert(v@ =~= s@);
    v
}


/// What `str::to_lowercase` gives for the characters `s`.
pub uninterp spec fn lowercase(s: Seq<char>) -> Seq<char>;

/// Calls `str::to_lowercase`; the result is named (Unicode lower-casing).
#[verifier::external_body]
pub(crate) fn to_lowercase(s: &str) -> (r: String)
    ensures
        r@ == lowercase(s@),
{
    s.to_lowercase()
}

/// What `String::from_utf8_lossy` gives for `bytes` that are not valid UTF-8
/// (invalid sequences become U+FFFD).
pub uninterp spec fn utf8_lossy(bytes: Seq<u8>) -> Seq<char>;

/// ASCII bytes as characters.
pub open spec fn ascii_chars(bytes: Seq<u8>) -> Seq<char> {
    bytes.map_values(|b: u8| b as char)
}

/// The text of `bytes` as `String::from_utf8_lossy` reads it: the decoding of
/// valid UTF-8, else the named lossy conversion.
pub open spec fn lossy_text(bytes: Seq<u8>) -> Seq<char> {
    if vstd::utf8::valid_utf8(bytes) { vstd::utf8::decode_utf8(bytes) } else { utf8_lossy(bytes) }
}

/// Calls `String::from_utf8_lossy`. std documents that valid UTF-8 is kept as
/// is (so the result is its decoding, and ASCII bytes become the same
/// characters); for other input the result is named.
#[verifier::external_body]
pub(crate) fn from_utf8_lossy(bytes: &[u8]) -> (r: String)
    ensures
        r@ == lossy_text(bytes@),
        !vstd::utf8::valid_utf8(bytes@) ==> r@ == utf8_lossy(bytes@),
        (forall|i: int| 0 <= i < bytes@.len() ==> bytes@[i] < 128) ==> r@ == ascii_chars(bytes@),
{
    String::from_utf8_lossy(bytes).into_owned()
}

/// Whether two strings hold the same characters.
pub fn str_eq(a: &str, b: &str) -> (r: bool)
    ensures
        r == (a@ == b@),
{
    let x = str_chars(a);
    let y = str_chars(b);
    if x.len() != y.len() {
        return false;
    }
    let mut i: usize = 0;
    while i < x.len()
        invariant
            x@ == a@,
            y@ == b@,
            x@.len() == y@.len(),
            i <= x@.len(),
            forall|j: int| 0 <= j < i ==> x@[j] == y@[j],
        decreases x@.len() - i,
    {
        if x[i] != y[i] {
            return false;
        }
        i = i + 1;
    }
    assert(x@ =~= y@);
    true
}

} // verus!
