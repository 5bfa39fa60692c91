//! Text scanning for `name=0xADDRESS` symbol maps and numeric settings:
//! Unicode whitespace, trimming, line splitting, and the number syntax that
//! `u32::from_str_radix(_, 16)` and `usize::from_str` accept.
use vstd::prelude::*;

verus! {

/// `char::is_whitespace`: the Unicode `White_Space` property.
pub open spec fn is_white(c: char) -> bool {
    ||| ('\u{9}' <= c && c <= '\u{d}')
    ||| c == ' '
    ||| c == '\u{85}'
    ||| c == '\u{a0}'
    ||| c == '\u{1680}'
    ||| ('\u{2000}' <= c && c <= '\u{200a}')
    ||| c == '\u{2028}'
    ||| c == '\u{2029}'
    ||| c == '\u{202f}'
    ||| c == '\u{205f}'
    ||| c == '\u{3000}'
}

/// Whether `c` is Unicode whitespace (as `char::is_whitespace`).
pub fn is_whitespace(c: char) -> (r: bool)
    ensures
        r == is_white(c),
{
    ('\u{9}' <= c && c <= '\u{d}') || c == ' ' || c == '\u{85}' || c == '\u{a0}' || c == '\u{1680}'
        || ('\u{2000}' <= c && c <= '\u{200a}') || c == '\u{2028}' || c == '\u{2029}' || c == '\u{202f}'
        || c == '\u{205f}' || c == '\u{3000}'
}

/// `s` without its leading whitespace.
pub open spec fn trim_front(s: Seq<char>) -> Seq<char>
    decreases s.len(),
{
    if s.len() > 0 && is_white(s[0]) { trim_front(s.drop_first()) } else { s }
}

/// `s` without its trailing whitespace.
pub open spec fn trim_back(s: Seq<char>) -> Seq<char>
    decreases s.len(),
{
    if s.len() > 0 && is_white(s.last()) { trim_back(s.drop_last()) } else { s }
}

/// `s` without leading and trailing whitespace (as `str::trim`).
pub open spec fn trimmed(s: Seq<char>) -> Seq<char> {
    trim_back(trim_front(s))
}

/// `s[lo..hi]` without leading and trailing whitespace.
pub fn trim_range(s: &Vec<char>, lo: usize, hi: usize) -> (r: Vec<char>)
    requires
        lo <= hi <= s@.len(),
    ensures
        r@ == trimmed(s@.subrange(lo as int, hi as int)),
{
    let mut i = lo;
    while i < hi && is_whitespace(s[i])
        invariant
            lo <= i <= hi <= s@.len(),
            trim_front(s@.subrange(lo as int, hi as int)) == trim_front(s@.subrange(i as int, hi as int)),
        decreases hi - i,
    {
        assert(s@.subrange(i as int, hi as int).drop_first() =~= s@.subrange(i + 1, hi as int));
        i = i + 1;
    }
    assert(trim_front(s@.subrange(i as int, hi as int)) == s@.subrange(i as int, hi as int));
    let mut j = hi;
    while j > i && is_whitespace(s[j - 1])
        invariant
            lo <= i <= j <= hi <= s@.len(),
            trim_back(s@.subrange(i as int, hi as int)) == trim_back(s@.subrange(i as int, j as int)),
        decreases j - i,
    {
        assert(s@.subrange(i as int, j as int).drop_last() =~= s@.subrange(i as int, j - 1));
        j = j - 1;
    }
    let mut r: Vec<char> = Vec::new();
    let mut k = i;
    while k < j
        invariant
            i <= k <= j <= s@.len(),
            r@ == s@.subrange(i as int, k as int),
        decreases j - k,
    {
        r.push(s[k]);
        k = k + 1;
        assert(r@ =~= s@.subrange(i as int, k as int));
    }
    r
}

/// The segments of `s` between newline characters, in order (one more than
/// the number of newlines). Empty or whitespace-only segments, including a
/// final empty one, are what `str::lines` would give as blank lines or omit.
pub open spec fn split_lines(s: Seq<char>) -> Seq<Seq<char>>
    decreases s.len(),
{
    if s.len() == 0 {
        seq![seq![]]
    } else {
        let prev = split_lines(s.drop_last());
        if s.last() == '\n' {
            prev.push(seq![])
        } else {
            prev.update(prev.len() - 1, prev.last().push(s.last()))
        }
    }
}

/// There is always at least one segment.
pub proof fn lemma_split_lines_nonempty(s: Seq<char>)
    ensures
        split_lines(s).len() >= 1,
    decreases s.len(),
{
    if s.len() > 0 {
        lemma_split_lines_nonempty(s.drop_last());
    }
}

/// Value of a hexadecimal digit.
pub open spec fn hex_digit(c: char) -> Option<nat> {
    if '0' <= c && c <= '9' {
        Some((c as nat - '0' as nat) as nat)
    } else if 'a' <= c && c <= 'f' {
        Some((c as nat - 'a' as nat + 10) as nat)
    } else if 'A' <= c && c <= 'F' {
        Some((c as nat - 'A' as nat + 10) as nat)
    } else {
        None
    }
}

/// Value of a decimal digit.
pub open spec fn dec_digit(c: char) -> Option<nat> {
    if '0' <= c && c <= '9' { Some((c as nat - '0' as nat) as nat) } else { None }
}

/// Whether every character of `s` is a digit in `radix` (16 or 10).
pub open spec fn all_digits(s: Seq<char>, radix: nat) -> bool {
    forall|i: int| 0 <= i < s.len() ==> (if radix == 16 { hex_digit(s[i]) } else { dec_digit(s[i]) }) is Some
}

/// The value of the digits `s` in `radix`.
pub open spec fn digits_value(s: Seq<char>, radix: nat) -> nat
    decreases s.len(),
{
    if s.len() == 0 {
        0
    } else {
        let d = if radix == 16 { hex_digit(s.last()) } else { dec_digit(s.last()) };
        digits_value(s.drop_last(), radix) * radix + match d { Some(v) => v, None => 0 }
    }
}

/// `s` without one leading `+`.
pub open spec fn unsigned_digits(s: Seq<char>) -> Seq<char> {
    if s.len() > 0 && s[0] == '+' { s.drop_first() } else { s }
}

/// What parsing `s` as an unsigned number in `radix` below `limit` gives
/// (as `from_str_radix` for an unsigned type): an optional `+`, then at least
/// one digit, and a value below `limit`.
pub open spec fn number_value(s: Seq<char>, radix: nat, limit: nat) -> Option<nat> {
    let d = unsigned_digits(s);
    if d.len() == 0 || !all_digits(d, radix) || digits_value(d, radix) >= limit {
        None
    } else {
        Some(digits_value(d, radix))
    }
}

/// Parses `s` in `radix` (16 or 10) with values below `limit`, returning the value.
fn parse_number(s: &Vec<char>, radix: u8, limit: u128) -> (r: Option<u128>)
    requires
        radix == 16 || radix == 10,
        1 <= limit <= 0x1_0000_0000_0000_0000,
    ensures
        match r {
            Some(v) => number_value(s@, radix as nat, limit as nat) == Some(v as nat),
            None => number_value(s@, radix as nat, limit as nat) is None,
        },
{
    let ghost d = unsigned_digits(s@);
    let start: usize = if s.len() > 0 && s[0] == '+' { 1 } else { 0 };
    assert(d =~= s@.subrange(start as int, s@.len() as int));
    if start >= s.len() {
        return None;
    }
    let mut acc: u128 = 0;
    let mut i = start;
    while i < s.len()
        invariant
            radix == 16 || radix == 10,
            1 <= limit <= 0x1_0000_0000_0000_0000,
            start <= i <= s@.len(),
            d == s@.subrange(start as int, s@.len() as int),
            d == unsigned_digits(s@),
            all_digits(d.take(i - start), radix as nat),
            acc == if digits_value(d.take(i - start), radix as nat) >= limit { limit as nat } else { digits_value(d.take(i - start), radix as nat) },
        decreases s@.len() - i,
    {
        let c = s[i];
        let v: u128 = if radix == 16 {
            if '0' <= c && c <= '9' { (c as u32 - '0' as u32) as u128 }
            else if 'a' <= c && c <= 'f' { (c as u32 - 'a' as u32 + 10) as u128 }
            else if 'A' <= c && c <= 'F' { (c as u32 - 'A' as u32 + 10) as u128 }
            else { 100 }
        } else {
            if '0' <= c && c <= '9' { (c as u32 - '0' as u32) as u128 } else { 100 }
        };
        if v == 100 {
            proof {
                let k = i - start;
                assert(d[k] == c);
                assert((if radix == 16 { hex_digit(d[k]) } else { dec_digit(d[k]) }) is None);
                assert(!all_digits(d, radix as nat));
            }
            return None;
        }
        let ghost t = d.take(i - start + 1);
        proof {
            assert(t.drop_last() =~= d.take(i - start));
            assert(t.last() == c);
            assert forall|k: int| 0 <= k < t.len() implies (if radix == 16 { hex_digit(t[k]) } else { dec_digit(t[k]) }) is Some by {
                if k < t.len() - 1 {
                    assert(t[k] == d.take(i - start)[k]);
                }
            }
        }
        if acc == limit {
            proof {
                let pv = digits_value(d.take(i - start), radix as nat);
                assert(digits_value(t, radix as nat) >= pv * radix) by (nonlinear_arith)
                    requires
                        digits_value(t, radix as nat) == pv * radix + v,
                        v >= 0,
                ;
                assert(pv * radix >= pv) by (nonlinear_arith)
                    requires radix >= 1;
            }
        } else {
            assert(acc * (radix as u128) + v < 0x100_0000_0000_0000_0000) by (nonlinear_arith)
                requires
                    acc < 0x1_0000_0000_0000_0000,
                    radix <= 16,
                    v < 16,
            ;
            let next = acc * (radix as u128) + v;
            acc = if next >= limit { limit } else { next };
        }
        i = i + 1;
    }
    assert(d.take(i - start) =~= d);
    if acc >= limit {
        None
    } else {
        Some(acc)
    }
}

/// `u32::from_str_radix(s, 16)`, as an option.
pub fn parse_hex_u32(s: &Vec<char>) -> (r: Option<u32>)
    ensures
        match r {
            Some(v) => number_value(s@, 16, 0x1_0000_0000) == Some(v as nat),
            None => number_value(s@, 16, 0x1_0000_0000) is None,
        },
{
    match parse_number(s, 16, 0x1_0000_0000) {
        Some(v) => Some(v as u32),
        None => None,
    }
}

/// `s.parse::<usize>().ok()`.
pub fn parse_usize(s: &str) -> (r: Option<usize>)
    ensures
        match r {
            Some(v) => number_value(s@, 10, usize::MAX as nat + 1) == Some(v as nat),
            None => number_value(s@, 10, usize::MAX as nat + 1) is None,
        },
{
    let cs = crate::text::str_chars(s);
    match parse_number(&cs, 10, usize::MAX as u128 + 1) {
        Some(v) => Some(v as usize),
        None => None,
    }
}

} // verus!
