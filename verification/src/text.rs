//! Character-level building blocks: decimal digits and runs of them,
//! decimal text of numbers, character replacement, splitting and trimming.
use vstd::prelude::*;

verus! {

// ---------------------------------------------------------------------
// Digits and decimal values
// ---------------------------------------------------------------------

/// An ASCII decimal digit.
pub open spec fn is_digit(c: char) -> bool {
    '0' <= c && c <= '9'
}

/// The value of an ASCII decimal digit (0 for any other character).
pub open spec fn digit_val(c: char) -> nat {
    if is_digit(c) {
        (c as int - '0' as int) as nat
    } else {
        0
    }
}

/// The ASCII digit for a value below ten.
pub open spec fn digit_char(d: nat) -> char {
    ((d + 48) as u8) as char
}

/// The value of a sequence of decimal digits, most significant first.
pub open spec fn dec_value(t: Seq<char>) -> nat
    decreases t.len(),
{
    if t.len() == 0 {
        0
    } else {
        dec_value(t.drop_last()) * 10 + digit_val(t.last())
    }
}

/// The decimal text of a number, without leading zeros (as `Display` writes it).
pub open spec fn dec_text(n: nat) -> Seq<char>
    decreases n,
{
    if n < 10 {
        seq![digit_char(n)]
    } else {
        dec_text(n / 10).push(digit_char(n % 10))
    }
}

/// All characters of `t` are decimal digits.
pub open spec fn all_digits(t: Seq<char>) -> bool {
    forall|k: int| 0 <= k < t.len() ==> #[trigger] is_digit(t[k])
}

pub proof fn lemma_digit_char(d: nat)
    requires
        d < 10,
    ensures
        is_digit(digit_char(d)),
        digit_val(digit_char(d)) == d,
        (digit_char(d) == '0') <==> d == 0,
{
}

/// The decimal text of `n` is a nonempty run of digits without a leading zero,
/// whose value is `n`.
pub proof fn lemma_dec_text(n: nat)
    ensures
        dec_text(n).len() >= 1,
        all_digits(dec_text(n)),
        dec_value(dec_text(n)) == n,
        dec_text(n).len() > 1 ==> dec_text(n)[0] != '0',
        n < 10 <==> dec_text(n).len() == 1,
        !dec_text(n).contains('/'),
    decreases n,
{
    if n < 10 {
        lemma_digit_char(n);
        assert(dec_text(n).drop_last() =~= Seq::<char>::empty());
        assert(dec_text(n)[0] == digit_char(n));
        assert(dec_value(dec_text(n)) == dec_value(Seq::<char>::empty()) * 10 + digit_val(digit_char(n)));
    } else {
        let t = dec_text(n / 10);
        lemma_dec_text(n / 10);
        lemma_digit_char(n % 10);
        assert(dec_text(n).drop_last() =~= t);
        assert(dec_text(n).last() == digit_char(n % 10));
        assert(dec_value(dec_text(n)) == dec_value(t) * 10 + n % 10);
        assert((n / 10) * 10 + n % 10 == n);
        assert(dec_text(n)[0] == t[0]);
        if t.len() == 1 {
            lemma_digit_char(n / 10);
            assert(t[0] == digit_char(n / 10));
        }
        assert forall|k: int| 0 <= k < dec_text(n).len() implies #[trigger] is_digit(
            dec_text(n)[k],
        ) by {
            if k < t.len() {
                assert(dec_text(n)[k] == t[k]);
            }
        }
    }
    assert(!dec_text(n).contains('/')) by {
        if dec_text(n).contains('/') {
            let k = choose|k: int| 0 <= k < dec_text(n).len() && dec_text(n)[k] == '/';
            assert(is_digit(dec_text(n)[k]));
        }
    }
}

/// Appending digits never makes a decimal value smaller.
pub proof fn lemma_dec_value_prefix(t: Seq<char>, k: int)
    requires
        0 <= k <= t.len(),
    ensures
        dec_value(t.take(k)) <= dec_value(t),
    decreases t.len(),
{
    if k < t.len() {
        lemma_dec_value_prefix(t.drop_last(), k);
        assert(t.drop_last().take(k) =~= t.take(k));
    } else {
        assert(t.take(k) =~= t);
    }
}

/// Appends the decimal text of `n` to `v`.
pub fn push_dec(v: &mut Vec<char>, n: u32)
    ensures
        final(v)@ == old(v)@ + dec_text(n as nat),
    decreases n,
{
    if n >= 10 {
        push_dec(v, n / 10);
    }
    let d: u8 = (n % 10) as u8;
    v.push((d + 48) as char);
    proof {
        if n >= 10 {
            assert(old(v)@ + dec_text(n as nat) =~= (old(v)@ + dec_text((n / 10) as nat)).push(
                digit_char((n % 10) as nat),
            ));
        } else {
            assert(old(v)@ + dec_text(n as nat) =~= old(v)@.push(digit_char(n as nat)));
        }
    }
}

pub fn char_is_digit(c: char) -> (r: bool)
    ensures
        r == is_digit(c),
{
    c >= '0' && c <= '9'
}

/// Whether `regex`'s `\d` (a Unicode decimal digit, `\p{Nd}`) matches `c`.
pub uninterp spec fn regex_decimal_digit(c: char) -> bool;

/// `regex`'s `\d` asked of one character: `Regex::is_match` of the pattern
/// `^\d$` on the character's text. Claims: the answer is
/// `regex_decimal_digit(c)`, a function of the character alone. Which characters
/// beyond ASCII it accepts is left to that name.
#[verifier::external_body]
fn regex_is_decimal_digit(c: char) -> (r: bool)
    ensures
        r == regex_decimal_digit(c),
{
    let mut buf = [0u8; 4];
    match regex::Regex::new(r"^\d$") {
        Ok(re) => re.is_match(c.encode_utf8(&mut buf)),
        Err(_) => false,
    }
}

/// A character of the pattern's `\d`: an ASCII digit, or a character beyond
/// ASCII that `regex` counts as a decimal digit (among ASCII characters, Unicode's
/// decimal digits are exactly `0`-`9`).
pub open spec fn is_pattern_digit(c: char) -> bool {
    is_digit(c) || ('\u{7f}' < c && regex_decimal_digit(c))
}

/// Whether `c` is a character of the pattern's `\d`.
pub fn char_is_pattern_digit(c: char) -> (r: bool)
    ensures
        r == is_pattern_digit(c),
{
    if c <= '\u{7f}' {
        char_is_digit(c)
    } else {
        regex_is_decimal_digit(c)
    }
}

/// Whether the characters `v[a..b]` are all ASCII digits.
pub fn ascii_digits(v: &Vec<char>, a: usize, b: usize) -> (r: bool)
    requires
        a <= b <= v.len(),
    ensures
        r == all_digits(v@.subrange(a as int, b as int)),
{
    let mut k: usize = a;
    while k < b
        invariant
            a <= k <= b <= v.len(),
            forall|j: int| a <= j < k ==> #[trigger] is_digit(v@[j]),
        decreases b - k,
    {
        if !char_is_digit(v[k]) {
            assert(!is_digit(v@.subrange(a as int, b as int)[k - a]));
            return false;
        }
        k = k + 1;
    }
    assert forall|j: int| 0 <= j < b - a implies #[trigger] is_digit(
        v@.subrange(a as int, b as int)[j],
    ) by {
        assert(is_digit(v@[a + j]));
    }
    true
}

// ---------------------------------------------------------------------
// Runs of characters
// ---------------------------------------------------------------------

/// The number of consecutive pattern digits (`\d`) in `s` starting at `i`.
pub open spec fn digit_run(s: Seq<char>, i: int) -> nat
    decreases s.len() - i,
{
    if 0 <= i < s.len() && is_pattern_digit(s[i]) {
        1 + digit_run(s, i + 1)
    } else {
        0
    }
}

/// A character of the class `[a-f\d:]`, in which the address of a subnet key's
/// IPv6 half is written.
pub open spec fn is_hex_key_char(c: char) -> bool {
    is_pattern_digit(c) || ('a' <= c && c <= 'f') || c == ':'
}

/// The number of consecutive `[a-f\d:]` characters in `s` starting at `i`.
pub open spec fn hex_run(s: Seq<char>, i: int) -> nat
    decreases s.len() - i,
{
    if 0 <= i < s.len() && is_hex_key_char(s[i]) {
        1 + hex_run(s, i + 1)
    } else {
        0
    }
}

/// The position just after the run of digits that starts at `i`.
pub open spec fn digit_end(s: Seq<char>, i: int) -> int {
    i + digit_run(s, i)
}

/// The position just after the run of `[a-f\d:]` characters that starts at `i`.
pub open spec fn hex_end(s: Seq<char>, i: int) -> int {
    i + hex_run(s, i)
}

/// A run of `k` digits followed by a non-digit (or the end) has length `k`.
pub proof fn lemma_digit_run_exact(s: Seq<char>, i: int, k: int)
    requires
        0 <= i,
        0 <= k,
        i + k <= s.len(),
        forall|j: int| i <= j < i + k ==> #[trigger] is_pattern_digit(s[j]),
        i + k == s.len() || !is_pattern_digit(s[i + k]),
    ensures
        digit_run(s, i) == k,
    decreases k,
{
    if k > 0 {
        assert(is_pattern_digit(s[i]));
        lemma_digit_run_exact(s, i + 1, k - 1);
    }
}

/// A run of `k` `[a-f\d:]` characters followed by another character (or the end)
/// has length `k`.
pub proof fn lemma_hex_run_exact(s: Seq<char>, i: int, k: int)
    requires
        0 <= i,
        0 <= k,
        i + k <= s.len(),
        forall|j: int| i <= j < i + k ==> #[trigger] is_hex_key_char(s[j]),
        i + k == s.len() || !is_hex_key_char(s[i + k]),
    ensures
        hex_run(s, i) == k,
    decreases k,
{
    if k > 0 {
        assert(is_hex_key_char(s[i]));
        lemma_hex_run_exact(s, i + 1, k - 1);
    }
}

/// The end of the run of digits in `v` that starts at `i`.
pub fn digit_run_end(v: &Vec<char>, i: usize) -> (e: usize)
    requires
        i <= v.len(),
    ensures
        e == digit_end(v@, i as int),
        i <= e <= v.len(),
{
    let mut j: usize = i;
    while j < v.len() && char_is_pattern_digit(v[j])
        invariant
            i <= j <= v.len(),
            digit_end(v@, i as int) == digit_end(v@, j as int),
        decreases v.len() - j,
    {
        j = j + 1;
    }
    j
}

/// The end of the run of `[a-f\d:]` characters in `v` that starts at `i`.
pub fn hex_run_end(v: &Vec<char>, i: usize) -> (e: usize)
    requires
        i <= v.len(),
    ensures
        e == hex_end(v@, i as int),
        i <= e <= v.len(),
{
    let mut j: usize = i;
    while j < v.len() && (char_is_pattern_digit(v[j]) || (v[j] >= 'a' && v[j] <= 'f') || v[j] == ':')
        invariant
            i <= j <= v.len(),
            hex_end(v@, i as int) == hex_end(v@, j as int),
        decreases v.len() - j,
    {
        j = j + 1;
    }
    j
}

/// The value of the digits `v[a..b]` as a `u8`, or `None` where it exceeds 255
/// (as `u8::from_str` reads a run of digits).
pub fn digits_to_u8(v: &Vec<char>, a: usize, b: usize) -> (r: Option<u8>)
    requires
        a <= b <= v.len(),
        all_digits(v@.subrange(a as int, b as int)),
    ensures
        r == (if dec_value(v@.subrange(a as int, b as int)) <= 255 {
            Some(dec_value(v@.subrange(a as int, b as int)) as u8)
        } else {
            None::<u8>
        }),
{
    let ghost t = v@.subrange(a as int, b as int);
    let mut acc: u32 = 0;
    let mut j: usize = a;
    assert(v@.subrange(a as int, a as int) =~= Seq::<char>::empty());
    while j < b
        invariant
            a <= j <= b <= v.len(),
            t == v@.subrange(a as int, b as int),
            all_digits(t),
            acc <= 255,
            acc == dec_value(v@.subrange(a as int, j as int)),
        decreases b - j,
    {
        let c = v[j];
        assert(is_digit(t[j - a]));
        let d: u32 = (c as u32) - ('0' as u32);
        let next: u32 = acc * 10 + d;
        assert(v@.subrange(a as int, j + 1).drop_last() =~= v@.subrange(a as int, j as int));
        assert(next == dec_value(v@.subrange(a as int, j + 1)));
        if next > 255 {
            proof {
                assert(t.take(j + 1 - a) =~= v@.subrange(a as int, j + 1));
                lemma_dec_value_prefix(t, j + 1 - a);
            }
            return None;
        }
        acc = next;
        j = j + 1;
    }
    Some(acc as u8)
}

// ---------------------------------------------------------------------
// Replacing, splitting and trimming
// ---------------------------------------------------------------------

/// `s` with every `from` replaced by `to` (as `str::replace` with one-character patterns).
pub open spec fn replace_char(s: Seq<char>, from: char, to: char) -> Seq<char> {
    s.map_values(|c: char| if c == from { to } else { c })
}

pub proof fn lemma_replace_concat(a: Seq<char>, b: Seq<char>, from: char, to: char)
    ensures
        replace_char(a + b, from, to) =~= replace_char(a, from, to) + replace_char(b, from, to),
{
}

pub proof fn lemma_replace_absent(a: Seq<char>, from: char, to: char)
    requires
        !a.contains(from),
    ensures
        replace_char(a, from, to) =~= a,
{
    assert forall|k: int| 0 <= k < a.len() implies replace_char(a, from, to)[k] == a[k] by {
        if a[k] == from {
            assert(a.contains(from));
        }
    }
}

/// `v` with every `from` replaced by `to`.
pub fn replace_chars(v: &Vec<char>, from: char, to: char) -> (r: Vec<char>)
    ensures
        r@ == replace_char(v@, from, to),
{
    let mut r: Vec<char> = Vec::new();
    let mut i: usize = 0;
    while i < v.len()
        invariant
            i <= v.len(),
            r@ =~= replace_char(v@.take(i as int), from, to),
        decreases v.len() - i,
    {
        let c = v[i];
        if c == from {
            r.push(to);
        } else {
            r.push(c);
        }
        assert(v@.take(i + 1) =~= v@.take(i as int).push(c));
        i = i + 1;
    }
    assert(v@.take(v.len() as int) =~= v@);
    r
}

/// The pieces of `s` between the occurrences of `sep` (as `str::split` with a
/// one-character pattern: `n` separators give `n + 1` pieces).
pub open spec fn split_char(s: Seq<char>, sep: char) -> Seq<Seq<char>>
    decreases s.len(),
{
    if s.len() == 0 {
        seq![Seq::<char>::empty()]
    } else {
        let rest = split_char(s.drop_last(), sep);
        if s.last() == sep {
            rest.push(Seq::<char>::empty())
        } else {
            rest.update(rest.len() - 1, rest.last().push(s.last()))
        }
    }
}

/// White space as `char::is_whitespace` has it: the characters of the Unicode
/// `White_Space` property (U+0009 to U+000D, U+0020, U+0085, U+00A0, U+1680,
/// U+2000 to U+200A, U+2028, U+2029, U+202F, U+205F and U+3000).
pub open spec fn is_ws(c: char) -> bool {
    ||| ('\t' <= c && c <= '\r')
    ||| c == ' '
    ||| c == '\u{85}'
    ||| c == '\u{a0}'
    ||| c == '\u{1680}'
    ||| ('\u{2000}' <= c && c <= '\u{200a}')
    ||| c == '\u{2028}'
    ||| c == '\u{2029}'
    ||| c == '\u{202f}'
    ||| c == '\u{205f}'
    ||| c == '\u{3000}'
}

/// Whether `c` is white space (a character of the `White_Space` property).
pub fn char_is_whitespace(c: char) -> (r: bool)
    ensures
        r == is_ws(c),
{
    ('\t' <= c && c <= '\r') || c == ' ' || c == '\u{85}' || c == '\u{a0}' || c == '\u{1680}'
        || ('\u{2000}' <= c && c <= '\u{200a}') || c == '\u{2028}' || c == '\u{2029}'
        || c == '\u{202f}' || c == '\u{205f}' || c == '\u{3000}'
}

/// The number of white-space characters that `s` starts with.
pub open spec fn leading_ws(s: Seq<char>) -> nat
    decreases s.len(),
{
    if s.len() > 0 && is_ws(s[0]) {
        1 + leading_ws(s.drop_first())
    } else {
        0
    }
}

/// The number of white-space characters that `s` ends with.
pub open spec fn trailing_ws(s: Seq<char>) -> nat
    decreases s.len(),
{
    if s.len() > 0 && is_ws(s.last()) {
        1 + trailing_ws(s.drop_last())
    } else {
        0
    }
}

/// `s` without its leading and trailing white space (as `str::trim`).
pub open spec fn trim_seq(s: Seq<char>) -> Seq<char> {
    let t = s.skip(leading_ws(s) as int);
    t.take(t.len() - trailing_ws(t))
}

/// `v[lo..hi]` without its leading and trailing white space.
fn trim_range(v: &Vec<char>, lo: usize, hi: usize) -> (r: Vec<char>)
    requires
        lo <= hi <= v.len(),
    ensures
        r@ == trim_seq(v@.subrange(lo as int, hi as int)),
{
    let ghost s = v@.subrange(lo as int, hi as int);
    let mut a: usize = lo;
    while a < hi && char_is_whitespace(v[a])
        invariant
            lo <= a <= hi,
            hi <= v.len(),
            s == v@.subrange(lo as int, hi as int),
            leading_ws(s) == (a - lo) + leading_ws(v@.subrange(a as int, hi as int)),
        decreases hi - a,
    {
        assert(v@.subrange(a as int, hi as int).drop_first() =~= v@.subrange(a + 1, hi as int));
        a = a + 1;
    }
    assert(leading_ws(s) == a - lo);
    let ghost t = s.skip(leading_ws(s) as int);
    assert(t =~= v@.subrange(a as int, hi as int));
    let mut b: usize = hi;
    while b > a && char_is_whitespace(v[b - 1])
        invariant
            lo <= a <= b <= hi,
            hi <= v.len(),
            t =~= v@.subrange(a as int, hi as int),
            trailing_ws(t) == (hi - b) + trailing_ws(v@.subrange(a as int, b as int)),
        decreases b - a,
    {
        assert(v@.subrange(a as int, b as int).drop_last() =~= v@.subrange(a as int, b - 1));
        b = b - 1;
    }
    assert(trailing_ws(t) == hi - b);
    let mut r: Vec<char> = Vec::new();
    let mut k: usize = a;
    while k < b
        invariant
            a <= k <= b <= v.len(),
            r@ =~= v@.subrange(a as int, k as int),
        decreases b - k,
    {
        r.push(v[k]);
        k = k + 1;
    }
    assert(t.take(t.len() - trailing_ws(t)) =~= v@.subrange(a as int, b as int));
    r
}

/// The characters of `s`.
pub fn chars_of(s: &str) -> (v: Vec<char>)
    ensures
        v@ == s@,
{
    let mut v: Vec<char> = Vec::new();
    for c in it: s.chars()
        invariant
            v@ == it.seq().take(it.index() as int),
            it.seq() == s@,
    {
        v.push(c);
    }
    v
}

/// `String`'s `FromIterator<char>` (std). Claims: the string holds exactly the
/// given characters, in order.
#[verifier::external_body]
pub(crate) fn string_from_chars(v: &Vec<char>) -> (s: String)
    ensures
        s@ == v@,
{
    v.iter().collect()
}

/// The pieces of `s` between the commas, each without its surrounding white space
/// (as `s.split(',')` followed by `trim` on each piece).
pub fn split_commas_trimmed(s: &str) -> (r: Vec<String>)
    ensures
        r@.len() == split_char(s@, ',').len(),
        forall|k: int| 0 <= k < r@.len() ==> #[trigger] r@[k]@ == trim_seq(split_char(s@, ',')[k]),
{
    let v = chars_of(s);
    let mut r: Vec<String> = Vec::new();
    let mut start: usize = 0;
    let mut i: usize = 0;
    while i < v.len()
        invariant
            start <= i <= v.len(),
            v@ == s@,
            r@.len() + 1 == split_char(v@.take(i as int), ',').len(),
            forall|k: int| 0 <= k < r@.len() ==> #[trigger] r@[k]@ == trim_seq(split_char(v@.take(i as int), ',')[k]),
            split_char(v@.take(i as int), ',').last() =~= v@.subrange(start as int, i as int),
        decreases v.len() - i,
    {
        let ghost before = split_char(v@.take(i as int), ',');
        assert(v@.take(i + 1).drop_last() =~= v@.take(i as int));
        if v[i] == ',' {
            let piece = trim_range(&v, start, i);
            r.push(string_from_chars(&piece));
            start = i + 1;
            assert(v@.subrange(start as int, i + 1) =~= Seq::<char>::empty());
        } else {
            assert(v@.subrange(start as int, i + 1) =~= v@.subrange(start as int, i as int).push(v@[i as int]));
        }
        i = i + 1;
    }
    let piece = trim_range(&v, start, i);
    r.push(string_from_chars(&piece));
    assert(v@.take(v.len() as int) =~= v@);
    r
}

} // verus!
