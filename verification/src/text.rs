//! String operations shared by the features: comparison, first-match
//! replacement, ASCII case folding, decimal integers, hexadecimal digits,
//! UTF-16 decoding and whitespace trimming.
use vstd::prelude::*;

verus! {

/// `String::push` appends one character to the end of the string.
pub assume_specification[ String::push ](s: &mut String, c: char)
    ensures
        final(s)@ == old(s)@.push(c),
;

/// `char::from_u32` gives the character with that code point; the code points
/// that are no character are the surrogates and everything above `0x10FFFF`.
pub assume_specification[ char::from_u32 ](i: u32) -> (r: Option<char>)
    ensures
        r == (if i <= 0xD7FF || 0xE000 <= i <= 0x10FFFF {
            Some(i as char)
        } else {
            None
        }),
;

/// The characters behind an optional string slice.
pub open spec fn text_behind(s: Option<&str>) -> Option<Seq<char>> {
    match s {
        Some(s) => Some(s@),
        None => None,
    }
}

/// The characters of an optional string.
pub open spec fn chars_in(s: Option<String>) -> Option<Seq<char>> {
    match s {
        Some(s) => Some(s@),
        None => None,
    }
}

/// The characters of `s`, in order.
pub fn chars_of(s: &str) -> (v: Vec<char>)
    ensures
        v@ == s@,
{
    let mut v: Vec<char> = Vec::new();
    for c in it: s.chars()
        invariant
            v@ == it.seq().take(it.index() as int),
            it.seq() == s@,
    {
        v.push(c);
    }
    v
}

/// Whether `a` and `b` hold the same characters.
pub fn same_text(a: &str, b: &str) -> (r: bool)
    ensures
        r == (a@ == b@),
{
    a.to_owned() == b.to_owned()
}

/// `s` with the leftmost occurrence of `pat` replaced by `with`; `s` itself
/// where `pat` does not occur.
pub open spec fn first_replaced(s: Seq<char>, pat: Seq<char>, with: Seq<char>) -> Seq<char>
    decreases s.len(),
{
    if s.len() < pat.len() {
        s
    } else if s.take(pat.len() as int) == pat {
        with + s.skip(pat.len() as int)
    } else if s.len() == 0 {
        s
    } else {
        seq![s[0]] + first_replaced(s.drop_first(), pat, with)
    }
}

/// Whether `pat` stands in `v` at position `at`.
fn matches_at(v: &Vec<char>, at: usize, pat: &Vec<char>) -> (r: bool)
    requires
        at + pat@.len() <= v@.len(),
    ensures
        r == (v@.subrange(at as int, at + pat@.len()) == pat@),
{
    let n = v.len();
    let mut k: usize = 0;
    while k < pat.len()
        invariant
            n == v@.len(),
            k <= pat@.len(),
            at + pat@.len() <= v@.len(),
            forall|j: int| 0 <= j < k ==> v@[at + j] == pat@[j],
        decreases pat@.len() - k,
    {
        if v[at + k] != pat[k] {
            assert(v@.subrange(at as int, at + pat@.len())[k as int] != pat@[k as int]);
            return false;
        }
        k += 1;
    }
    assert(v@.subrange(at as int, at + pat@.len()) =~= pat@);
    true
}

/// Replaces the leftmost occurrence of `pat` in `s` by `with`.
pub fn replace_first(s: &str, pat: &str, with: &str) -> (r: String)
    ensures
        r@ == first_replaced(s@, pat@, with@),
{
    let v = chars_of(s);
    let p = chars_of(pat);
    let w = chars_of(with);
    let mut out = String::new();
    let mut i: usize = 0;
    assert(v@.skip(0) =~= v@);
    while i < v.len() && p.len() <= v.len() - i && !matches_at(&v, i, &p)
        invariant
            i <= v@.len(),
            v@ == s@,
            p@ == pat@,
            w@ == with@,
            first_replaced(s@, pat@, with@) == out@ + first_replaced(v@.skip(i as int), p@, w@),
        decreases v@.len() - i,
    {
        proof {
            let rest = v@.skip(i as int);
            assert(rest.take(p@.len() as int) =~= v@.subrange(i as int, i + p@.len()));
            assert(rest.drop_first() =~= v@.skip(i + 1));
            assert(rest[0] == v@[i as int]);
            let tail = first_replaced(v@.skip(i + 1), p@, w@);
            assert(out@ + (seq![v@[i as int]] + tail) =~= out@.push(v@[i as int]) + tail);
        }
        out.push(v[i]);
        i += 1;
    }
    let ghost rest = v@.skip(i as int);
    proof {
        if p@.len() <= rest.len() {
            assert(rest.take(p@.len() as int) =~= v@.subrange(i as int, i + p@.len()));
            if rest.len() == 0 {
                assert(p@ =~= Seq::<char>::empty());
                assert(rest.take(0) =~= p@);
            }
        }
    }
    if p.len() <= v.len() - i {
        out.append(with);
        i += p.len();
        assert(rest.skip(p@.len() as int) =~= v@.skip(i as int));
        assert(first_replaced(rest, p@, w@) == w@ + v@.skip(i as int));
    }
    let ghost done = out@;
    let start: usize = i;
    while i < v.len()
        invariant
            start <= i <= v@.len(),
            out@ == done + v@.subrange(start as int, i as int),
        decreases v@.len() - i,
    {
        out.push(v[i]);
        i += 1;
        assert(v@.subrange(start as int, i as int) =~= v@.subrange(start as int, i - 1).push(
            v@[i - 1],
        ));
    }
    assert(v@.subrange(start as int, i as int) =~= v@.skip(start as int));
    out
}

/// `s` with every `from` replaced by `to`.
pub open spec fn char_replaced(s: Seq<char>, from: char, to: char) -> Seq<char> {
    s.map_values(|c: char| if c == from { to } else { c })
}

/// Replaces every `from` in `s` by `to`.
pub fn replace_char(s: &str, from: char, to: char) -> (r: String)
    ensures
        r@ == char_replaced(s@, from, to),
{
    let v = chars_of(s);
    let mut out = String::new();
    let mut i: usize = 0;
    while i < v.len()
        invariant
            i <= v@.len(),
            out@ == char_replaced(v@.take(i as int), from, to),
        decreases v@.len() - i,
    {
        out.push(if v[i] == from { to } else { v[i] });
        i += 1;
        assert(v@.take(i as int) =~= v@.take(i - 1).push(v@[i - 1]));
        assert(char_replaced(v@.take(i as int), from, to) =~= char_replaced(
            v@.take(i - 1),
            from,
            to,
        ).push(if v@[i - 1] == from { to } else { v@[i - 1] }));
    }
    assert(v@.take(i as int) =~= v@);
    out
}

/// The lower-case form of an ASCII upper-case letter; any other character
/// itself.
pub open spec fn ascii_lower_char(c: char) -> char {
    if 'A' <= c <= 'Z' {
        (c as u32 + 32) as char
    } else {
        c
    }
}

/// `s` with its ASCII upper-case letters in lower case.
pub open spec fn ascii_lower(s: Seq<char>) -> Seq<char> {
    s.map_values(|c: char| ascii_lower_char(c))
}

/// Lower-cases the ASCII letters of `s` and leaves everything else alone.
pub fn to_ascii_lower(s: &str) -> (r: String)
    ensures
        r@ == ascii_lower(s@),
{
    let v = chars_of(s);
    let mut out = String::new();
    let mut i: usize = 0;
    while i < v.len()
        invariant
            i <= v@.len(),
            out@ == ascii_lower(v@.take(i as int)),
        decreases v@.len() - i,
    {
        let c = v[i];
        let low = if 'A' <= c && c <= 'Z' {
            (c as u8 + 32) as char
        } else {
            c
        };
        out.push(low);
        i += 1;
        assert(v@.take(i as int) =~= v@.take(i - 1).push(c));
        assert(ascii_lower(v@.take(i as int)) =~= ascii_lower(v@.take(i - 1)).push(low));
    }
    assert(v@.take(i as int) =~= v@);
    out
}

/// Whether `c` is one of the ten decimal digits.
pub open spec fn is_digit(c: char) -> bool {
    '0' <= c <= '9'
}

/// The number that the decimal digits `s` write, most significant first.
pub open spec fn digits_value(s: Seq<char>) -> nat
    decreases s.len(),
{
    if s.len() == 0 {
        0
    } else {
        10 * digits_value(s.drop_last()) + (s.last() as nat - '0' as nat) as nat
    }
}

/// Whether `s` starts with a sign.
pub open spec fn is_signed(s: Seq<char>) -> bool {
    s.len() > 0 && (s[0] == '-' || s[0] == '+')
}

/// `s` without its sign.
pub open spec fn unsigned_part(s: Seq<char>) -> Seq<char> {
    if is_signed(s) {
        s.drop_first()
    } else {
        s
    }
}

/// The integer that `s` writes in decimal: an optional sign followed by at
/// least one digit and nothing else.
pub open spec fn decimal_value(s: Seq<char>) -> Option<int> {
    let digits = unsigned_part(s);
    if digits.len() == 0 || exists|i: int| 0 <= i < digits.len() && !is_digit(#[trigger] digits[i]) {
        None
    } else if s[0] == '-' {
        Some(-(digits_value(digits) as int))
    } else {
        Some(digits_value(digits) as int)
    }
}

/// The integer that `s` writes in decimal, where it fits an `i64`.
pub open spec fn decimal_i64(s: Seq<char>) -> Option<i64> {
    match decimal_value(s) {
        Some(n) => if i64::MIN <= n <= i64::MAX {
            Some(n as i64)
        } else {
            None
        },
        None => None,
    }
}

/// More digits never make a smaller number.
proof fn lemma_digits_value_prefix(s: Seq<char>, k: int)
    requires
        0 <= k <= s.len(),
        forall|i: int| 0 <= i < s.len() ==> is_digit(#[trigger] s[i]),
    ensures
        digits_value(s.take(k)) <= digits_value(s),
    decreases s.len(),
{
    if k == s.len() {
        assert(s.take(k) =~= s);
    } else {
        lemma_digits_value_prefix(s.drop_last(), k);
        assert(s.drop_last().take(k) =~= s.take(k));
    }
}

/// Reads `s` as a decimal `i64`: an optional sign, then digits only.
pub fn parse_i64(s: &str) -> (r: Option<i64>)
    ensures
        r == decimal_i64(s@),
{
    let v = chars_of(s);
    if v.len() == 0 {
        return None;
    }
    let negative = v[0] == '-';
    let start: usize = if negative || v[0] == '+' {
        1
    } else {
        0
    };
    let ghost digits = unsigned_part(s@);
    assert(digits =~= v@.skip(start as int));
    if v.len() == start {
        return None;
    }
    let mut acc: u128 = 0;
    let mut i: usize = start;
    while i < v.len()
        invariant
            start <= i <= v@.len(),
            start <= 1,
            v@ == s@,
            v@.len() > start,
            digits == unsigned_part(s@),
            digits == v@.skip(start as int),
            negative == (s@[0] == '-'),
            acc <= 0x8000_0000_0000_0000,
            acc == digits_value(digits.take(i - start)),
            forall|j: int| 0 <= j < i - start ==> is_digit(#[trigger] digits[j]),
        decreases v@.len() - i,
    {
        let c = v[i];
        assert(c == digits[i - start]);
        if c < '0' || c > '9' {
            return None;
        }
        acc = acc * 10 + (c as u8 - 48) as u128;
        i += 1;
        assert(digits.take(i - start).drop_last() =~= digits.take(i - start - 1));
        if acc > 0x8000_0000_0000_0000 {
            proof {
                if forall|j: int| 0 <= j < digits.len() ==> is_digit(#[trigger] digits[j]) {
                    lemma_digits_value_prefix(digits, i - start);
                }
            }
            return None;
        }
    }
    assert(digits.take(i - start) =~= digits);
    if negative {
        Some((-(acc as i128)) as i64)
    } else if acc < 0x8000_0000_0000_0000 {
        Some(acc as i64)
    } else {
        None
    }
}

/// The lower-case hexadecimal digit of `n`.
pub open spec fn hex_digit(n: int) -> char {
    if n < 10 {
        ('0' as int + n) as char
    } else {
        ('a' as int + n - 10) as char
    }
}

/// Two lower-case hexadecimal digits for each byte, high half first.
pub open spec fn hex_lower(bytes: Seq<u8>) -> Seq<char> {
    Seq::new(
        2 * bytes.len(),
        |i: int|
            if i % 2 == 0 {
                hex_digit(bytes[i / 2] as int / 16)
            } else {
                hex_digit(bytes[i / 2] as int % 16)
            },
    )
}

/// The lower-case hexadecimal digit of `n`.
fn hex_digit_char(n: u8) -> (c: char)
    requires
        n < 16,
    ensures
        c == hex_digit(n as int),
{
    if n < 10 {
        (48 + n) as char
    } else {
        (87 + n) as char
    }
}

/// Writes `bytes` as lower-case hexadecimal digits.
pub fn to_hex_lower(bytes: &[u8]) -> (r: String)
    ensures
        r@ == hex_lower(bytes@),
{
    let mut out = String::new();
    let mut i: usize = 0;
    while i < bytes.len()
        invariant
            i <= bytes@.len(),
            out@ == hex_lower(bytes@.take(i as int)),
        decreases bytes@.len() - i,
    {
        let b = bytes[i];
        out.push(hex_digit_char(b / 16));
        out.push(hex_digit_char(b % 16));
        i += 1;
        assert(out@ =~= hex_lower(bytes@.take(i as int)));
    }
    assert(bytes@.take(i as int) =~= bytes@);
    out
}

/// A UTF-16 unit that starts a surrogate pair.
pub open spec fn is_high_surrogate(u: u16) -> bool {
    0xD800 <= u <= 0xDBFF
}

/// A UTF-16 unit that ends a surrogate pair.
pub open spec fn is_low_surrogate(u: u16) -> bool {
    0xDC00 <= u <= 0xDFFF
}

/// The text that the UTF-16 units `s` encode, with the replacement character
/// `U+FFFD` for each surrogate that is not part of a pair.
pub open spec fn utf16_text(s: Seq<u16>) -> Seq<char>
    decreases s.len(),
{
    if s.len() == 0 {
        Seq::empty()
    } else if is_high_surrogate(s[0]) && s.len() > 1 && is_low_surrogate(s[1]) {
        let code = 0x10000 + (s[0] - 0xD800) * 0x400 + (s[1] - 0xDC00);
        seq![code as char] + utf16_text(s.skip(2))
    } else if is_high_surrogate(s[0]) || is_low_surrogate(s[0]) {
        seq!['\u{FFFD}'] + utf16_text(s.skip(1))
    } else {
        seq![s[0] as char] + utf16_text(s.skip(1))
    }
}

/// Decodes UTF-16, replacing unpaired surrogates by `U+FFFD`.
pub fn decode_utf16_lossy(units: &[u16]) -> (r: String)
    ensures
        r@ == utf16_text(units@),
{
    let mut out = String::new();
    let mut i: usize = 0;
    assert(units@.skip(0) =~= units@);
    while i < units.len()
        invariant
            i <= units@.len(),
            utf16_text(units@) == out@ + utf16_text(units@.skip(i as int)),
        decreases units@.len() - i,
    {
        let ghost rest = units@.skip(i as int);
        let u = units[i] as u32;
        let high = 0xD800 <= u && u <= 0xDBFF;
        let low = 0xDC00 <= u && u <= 0xDFFF;
        let next: u32 = if i + 1 < units.len() {
            units[i + 1] as u32
        } else {
            0
        };
        let pair = high && 0xDC00 <= next && next <= 0xDFFF;
        let code: u32 = if pair {
            0x10000 + (u - 0xD800) * 0x400 + (next - 0xDC00)
        } else if high || low {
            0xFFFD
        } else {
            u
        };
        let width: usize = if pair {
            2
        } else {
            1
        };
        if let Some(c) = char::from_u32(code) {
            proof {
                assert(rest.skip(width as int) =~= units@.skip(i + width));
                let tail = utf16_text(rest.skip(width as int));
                assert(rest[0] == units@[i as int]);
                if rest.len() > 1 {
                    assert(rest[1] == units@[i + 1]);
                }
                assert(code as char == c);
                assert(utf16_text(rest) == seq![c] + tail);
                assert(out@ + (seq![c] + tail) =~= out@.push(c) + tail);
            }
            out.push(c);
        }
        i += width;
    }
    assert(units@.skip(i as int) =~= Seq::<u16>::empty());
    assert(out@ + Seq::<char>::empty() =~= out@);
    out
}

/// Whether `c` has the Unicode property `White_Space`.
pub open spec fn is_white_space(c: char) -> bool {
    let u = c as u32;
    ||| 0x09 <= u <= 0x0D
    ||| u == 0x20
    ||| u == 0x85
    ||| u == 0xA0
    ||| u == 0x1680
    ||| 0x2000 <= u <= 0x200A
    ||| u == 0x2028
    ||| u == 0x2029
    ||| u == 0x202F
    ||| u == 0x205F
    ||| u == 0x3000
}

/// Tests for the Unicode property `White_Space`.
pub fn white_space(c: char) -> (r: bool)
    ensures
        r == is_white_space(c),
{
    let u = c as u32;
    (0x09 <= u && u <= 0x0D) || u == 0x20 || u == 0x85 || u == 0xA0 || u == 0x1680 || (0x2000 <= u
        && u <= 0x200A) || u == 0x2028 || u == 0x2029 || u == 0x202F || u == 0x205F || u == 0x3000
}

/// `s` without its leading white space.
pub open spec fn trimmed_start(s: Seq<char>) -> Seq<char>
    decreases s.len(),
{
    if s.len() > 0 && is_white_space(s[0]) {
        trimmed_start(s.drop_first())
    } else {
        s
    }
}

/// `s` without its trailing white space.
pub open spec fn trimmed_end(s: Seq<char>) -> Seq<char>
    decreases s.len(),
{
    if s.len() > 0 && is_white_space(s.last()) {
        trimmed_end(s.drop_last())
    } else {
        s
    }
}

/// `s` without the white space around it.
pub open spec fn trimmed(s: Seq<char>) -> Seq<char> {
    trimmed_end(trimmed_start(s))
}

/// Removes the white space at both ends of `s`.
pub fn trim(s: &str) -> (r: String)
    ensures
        r@ == trimmed(s@),
{
    let v = chars_of(s);
    let mut from: usize = 0;
    assert(v@.skip(0) =~= v@);
    while from < v.len() && white_space(v[from])
        invariant
            from <= v@.len(),
            trimmed_start(v@) == trimmed_start(v@.skip(from as int)),
        decreases v@.len() - from,
    {
        assert(v@.skip(from as int).drop_first() =~= v@.skip(from + 1));
        from += 1;
    }
    let mut to: usize = v.len();
    assert(v@.skip(from as int) =~= v@.subrange(from as int, to as int));
    while from < to && white_space(v[to - 1])
        invariant
            from <= to <= v@.len(),
            trimmed(v@) == trimmed_end(v@.subrange(from as int, to as int)),
        decreases to - from,
    {
        assert(v@.subrange(from as int, to as int).drop_last() =~= v@.subrange(
            from as int,
            to - 1,
        ));
        to -= 1;
    }
    s.substring_char(from, to).to_owned()
}

/// The leftmost occurrence is replaced and nothing else: what stands before it
/// and behind it stays.
pub proof fn leftmost_occurrence_is_replaced(
    s: Seq<char>,
    pat: Seq<char>,
    with: Seq<char>,
    at: int,
)
    requires
        0 <= at <= at + pat.len() <= s.len(),
        s.subrange(at, at + pat.len()) == pat,
        forall|j: int| 0 <= j < at ==> #[trigger] s.subrange(j, j + pat.len()) != pat,
    ensures
        first_replaced(s, pat, with) == s.take(at) + with + s.skip(at + pat.len()),
    decreases s.len(),
{
    let n = pat.len() as int;
    assert(s.take(n) =~= s.subrange(0, n));
    if at > 0 {
        assert(s.subrange(0, 0 + n) != pat);
        let rest = s.drop_first();
        assert(rest.subrange(at - 1, at - 1 + n) =~= s.subrange(at, at + n));
        assert forall|j: int| 0 <= j < at - 1 implies #[trigger] rest.subrange(j, j + n) != pat by {
            assert(rest.subrange(j, j + n) =~= s.subrange(j + 1, j + 1 + pat.len()));
        }
        leftmost_occurrence_is_replaced(rest, pat, with, at - 1);
        assert(seq![s[0]] + (rest.take(at - 1) + with + rest.skip(at - 1 + n)) =~= s.take(at) + with
            + s.skip(at + n));
    } else {
        assert(s.take(0) + with + s.skip(n) =~= with + s.skip(n));
    }
}

/// A text without an occurrence stays as it is.
pub proof fn text_without_occurrence_stays(s: Seq<char>, pat: Seq<char>, with: Seq<char>)
    requires
        forall|j: int|
            0 <= j <= s.len() - pat.len() ==> #[trigger] s.subrange(j, j + pat.len()) != pat,
    ensures
        first_replaced(s, pat, with) == s,
    decreases s.len(),
{
    let n = pat.len() as int;
    if n <= s.len() {
        assert(s.take(n) =~= s.subrange(0, 0 + n));
        if s.len() > 0 {
            let rest = s.drop_first();
            assert forall|j: int| 0 <= j <= rest.len() - n implies #[trigger] rest.subrange(
                j,
                j + n,
            ) != pat by {
                assert(rest.subrange(j, j + n) =~= s.subrange(j + 1, j + 1 + pat.len()));
            }
            text_without_occurrence_stays(rest, pat, with);
            assert(seq![s[0]] + rest =~= s);
        }
    }
}

/// Replacing a character, and lower-casing, go character by character: each
/// place holds what becomes of the character that was there, and only the
/// replaced character, and only the letters from `A` to `Z`, become another.
pub proof fn characters_are_replaced_in_place(s: Seq<char>, from: char, to: char, i: int)
    requires
        0 <= i < s.len(),
    ensures
        char_replaced(s, from, to).len() == s.len(),
        s[i] == from ==> char_replaced(s, from, to)[i] == to,
        s[i] != from ==> char_replaced(s, from, to)[i] == s[i],
        ascii_lower(s).len() == s.len(),
        'A' <= s[i] <= 'Z' ==> ascii_lower(s)[i] as int == s[i] as int + 32,
        !('A' <= s[i] <= 'Z') ==> ascii_lower(s)[i] == s[i],
{
}

/// What is read as a decimal number: an optional sign, then at least one digit,
/// and nothing else.
pub proof fn only_decimal_is_read(s: Seq<char>)
    ensures
        decimal_value(s) is Some <==> ({
            let start: int = if s.len() > 0 && (s[0] == '-' || s[0] == '+') {
                1
            } else {
                0
            };
            s.len() > start && forall|i: int| start <= i < s.len() ==> '0' <= #[trigger] s[i] <= '9'
        }),
{
    let start: int = if s.len() > 0 && (s[0] == '-' || s[0] == '+') {
        1
    } else {
        0
    };
    let digits = unsigned_part(s);
    assert(digits =~= s.skip(start));
    if decimal_value(s) is Some {
        assert forall|i: int| start <= i < s.len() implies '0' <= #[trigger] s[i] <= '9' by {
            assert(is_digit(digits[i - start]));
        }
    } else if s.len() > start {
        let i = choose|i: int| 0 <= i < digits.len() && !is_digit(#[trigger] digits[i]);
        assert(!('0' <= s[i + start] <= '9'));
    }
}

/// A single digit is read as its value, and a sign in front of it counts.
pub proof fn digit_is_read_as_its_value(d: char)
    requires
        '0' <= d <= '9',
    ensures
        decimal_value(seq![d]) == Some(d as int - '0' as int),
        decimal_value(seq!['+', d]) == Some(d as int - '0' as int),
        decimal_value(seq!['-', d]) == Some('0' as int - d as int),
{
    reveal_with_fuel(digits_value, 2);
    assert(unsigned_part(seq![d]) =~= seq![d]);
    assert(unsigned_part(seq!['+', d]) =~= seq![d]);
    assert(unsigned_part(seq!['-', d]) =~= seq![d]);
    only_decimal_is_read(seq![d]);
    only_decimal_is_read(seq!['+', d]);
    only_decimal_is_read(seq!['-', d]);
}

/// Another digit makes ten times the number, and the digit more, or less where
/// the number has a minus sign.
pub proof fn another_digit_counts_ten_times(s: Seq<char>, d: char, value: int)
    requires
        decimal_value(s) == Some(value),
        '0' <= d <= '9',
    ensures
        s[0] != '-' ==> decimal_value(s.push(d)) == Some(10 * value + (d as int - '0' as int)),
        s[0] == '-' ==> decimal_value(s.push(d)) == Some(10 * value - (d as int - '0' as int)),
{
    let longer = s.push(d);
    only_decimal_is_read(s);
    only_decimal_is_read(longer);
    assert(longer[0] == s[0]);
    assert(unsigned_part(longer) =~= unsigned_part(s).push(d));
    assert(unsigned_part(longer).drop_last() =~= unsigned_part(s));
    assert forall|i: int| 0 <= i < longer.len() implies #[trigger] longer[i] == (if i < s.len() {
        s[i]
    } else {
        d
    }) by {}
}

/// The digits of `n` in decimal.
pub open spec fn digits_of(n: nat) -> Seq<char>
    decreases n,
{
    if n < 10 {
        seq![('0' as int + n) as char]
    } else {
        digits_of(n / 10).push(('0' as int + n % 10) as char)
    }
}

/// Every number that is written in decimal is read back, with and without a
/// sign.
pub proof fn decimal_is_read_back(n: nat)
    ensures
        decimal_value(digits_of(n)) == Some(n as int),
        decimal_value(seq!['+'] + digits_of(n)) == Some(n as int),
        decimal_value(seq!['-'] + digits_of(n)) == Some(-n),
        '0' <= digits_of(n)[0] <= '9',
    decreases n,
{
    let d = ('0' as int + n % 10) as char;
    assert('0' <= d <= '9');
    if n < 10 {
        digit_is_read_as_its_value(d);
        assert(seq!['+'] + digits_of(n) =~= seq!['+', d]);
        assert(seq!['-'] + digits_of(n) =~= seq!['-', d]);
    } else {
        let m = n / 10;
        let init = digits_of(m);
        decimal_is_read_back(m);
        only_decimal_is_read(init);
        another_digit_counts_ten_times(init, d, m as int);
        another_digit_counts_ten_times(seq!['+'] + init, d, m as int);
        another_digit_counts_ten_times(seq!['-'] + init, d, -m);
        assert(seq!['+'] + digits_of(n) =~= (seq!['+'] + init).push(d));
        assert(seq!['-'] + digits_of(n) =~= (seq!['-'] + init).push(d));
    }
}

/// A decimal number is taken exactly where it fits an `i64`, and as it is.
pub proof fn decimal_that_fits_is_taken(s: Seq<char>, n: i64)
    ensures
        decimal_i64(s) == Some(n) <==> decimal_value(s) == Some(n as int),
{
}

/// The value of a hexadecimal digit in lower case, `None` for anything else.
pub open spec fn hex_value(c: char) -> Option<int> {
    if '0' <= c <= '9' {
        Some(c as int - '0' as int)
    } else if 'a' <= c <= 'f' {
        Some(c as int - 'a' as int + 10)
    } else {
        None
    }
}

/// Hexadecimal digits give the bytes back: each byte has two, the high half
/// first, so that different bytes have different digits.
pub proof fn hex_digits_give_the_bytes_back(bytes: Seq<u8>, i: int)
    requires
        0 <= i < bytes.len(),
    ensures
        hex_lower(bytes).len() == 2 * bytes.len(),
        hex_value(hex_lower(bytes)[2 * i]) is Some,
        hex_value(hex_lower(bytes)[2 * i + 1]) is Some,
        16 * hex_value(hex_lower(bytes)[2 * i])->0 + hex_value(hex_lower(bytes)[2 * i + 1])->0
            == bytes[i],
{
    assert((2 * i) / 2 == i && (2 * i) % 2 == 0);
    assert((2 * i + 1) / 2 == i && (2 * i + 1) % 2 == 1);
}

/// A UTF-16 unit that is no surrogate stands for the character with its code, a
/// surrogate alone for the replacement character, and a surrogate pair for the
/// character behind the first `0x10000` that its twenty bits count to.
pub proof fn utf16_units_are_read(u: u16, high: u16, low: u16)
    requires
        0xD800 <= high < 0xDC00,
        0xDC00 <= low < 0xE000,
    ensures
        utf16_text(Seq::empty()) == Seq::<char>::empty(),
        u < 0xD800 || u >= 0xE000 ==> utf16_text(seq![u]) == seq![u as char],
        0xD800 <= u < 0xE000 ==> utf16_text(seq![u]) == seq!['\u{FFFD}'],
        utf16_text(seq![high, low]).len() == 1,
        utf16_text(seq![high, low])[0] as int - 0x10000 == 1024 * (high - 0xD800) + (low - 0xDC00),
{
    reveal_with_fuel(utf16_text, 3);
    assert(seq![u].skip(1) =~= Seq::empty());
    assert(seq![high, low].skip(2) =~= Seq::empty());
    let code = 0x10000 + (high - 0xD800) * 0x400 + (low - 0xDC00);
    assert(0x10000 <= code <= 0x10FFFF);
    assert(utf16_text(seq![high, low]) =~= seq![code as char]);
}

/// UTF-16 can be read piece by piece, as long as no pair is torn apart.
pub proof fn utf16_is_read_piece_by_piece(a: Seq<u16>, b: Seq<u16>)
    requires
        a.len() > 0 && 0xD800 <= a.last() < 0xDC00 && b.len() > 0 ==> !(0xDC00 <= b[0] < 0xE000),
    ensures
        utf16_text(a + b) == utf16_text(a) + utf16_text(b),
    decreases a.len(),
{
    let all = a + b;
    if a.len() == 0 {
        assert(all =~= b);
        assert(utf16_text(a) + utf16_text(b) =~= utf16_text(b));
    } else {
        assert(all[0] == a[0]);
        let pair = is_high_surrogate(a[0]) && a.len() > 1 && is_low_surrogate(a[1]);
        let width: int = if pair {
            2
        } else {
            1
        };
        if all.len() > 1 {
            assert(all[1] == if a.len() > 1 {
                a[1]
            } else {
                b[0]
            });
        }
        let rest = a.skip(width);
        assert(all.skip(width) =~= rest + b);
        utf16_is_read_piece_by_piece(rest, b);
        let c = utf16_text(a)[0];
        assert(utf16_text(a) =~= seq![c] + utf16_text(rest));
        assert(seq![c] + (utf16_text(rest) + utf16_text(b)) =~= (seq![c] + utf16_text(rest))
            + utf16_text(b));
    }
}

/// White space is the tab, the line breaks, the space, the no-break spaces and
/// the spaces of fixed width, and no other character.
pub proof fn white_space_characters(c: char)
    ensures
        is_white_space(c) <==> {
            ||| '\t' <= c <= '\r'
            ||| c == ' ' || c == '\u{A0}' || c == '\u{202F}'
            ||| c == '\u{85}' || c == '\u{2028}' || c == '\u{2029}'
            ||| '\u{2000}' <= c <= '\u{200A}'
            ||| c == '\u{1680}' || c == '\u{205F}' || c == '\u{3000}'
        },
{
}

/// Trimming takes the white space off both ends and nothing else: what is left
/// is a stretch of the text with only white space around it, and neither starts
/// nor ends with any.
pub proof fn only_white_space_is_trimmed(s: Seq<char>)
    ensures
        exists|from: int, to: int|
            {
                &&& 0 <= from <= to <= s.len()
                &&& trimmed(s) == #[trigger] s.subrange(from, to)
                &&& forall|k: int| 0 <= k < from ==> is_white_space(#[trigger] s[k])
                &&& forall|k: int| to <= k < s.len() ==> is_white_space(#[trigger] s[k])
                &&& from < to ==> !is_white_space(s[from]) && !is_white_space(s[to - 1])
            },
{
    let from = lemma_trimmed_start(s);
    let rest = s.skip(from);
    let kept = lemma_trimmed_end(rest);
    let to = from + kept;
    assert(rest.take(kept) =~= s.subrange(from, to));
    assert forall|k: int| to <= k < s.len() implies is_white_space(#[trigger] s[k]) by {
        assert(is_white_space(rest[k - from]));
    }
    if from < to {
        assert(rest[0] == s[from]);
        assert(rest[kept - 1] == s[to - 1]);
    }
}

/// How many characters [`trimmed_start`] takes off.
proof fn lemma_trimmed_start(s: Seq<char>) -> (from: int)
    ensures
        0 <= from <= s.len(),
        trimmed_start(s) == s.skip(from),
        forall|k: int| 0 <= k < from ==> is_white_space(#[trigger] s[k]),
        from < s.len() ==> !is_white_space(s[from]),
    decreases s.len(),
{
    if s.len() > 0 && is_white_space(s[0]) {
        let rest = s.drop_first();
        let n = lemma_trimmed_start(rest);
        assert(rest.skip(n) =~= s.skip(n + 1));
        assert forall|k: int| 0 <= k < n + 1 implies is_white_space(#[trigger] s[k]) by {
            if k > 0 {
                assert(is_white_space(rest[k - 1]));
            }
        }
        n + 1
    } else {
        assert(s.skip(0) =~= s);
        0
    }
}

/// How many characters [`trimmed_end`] leaves.
proof fn lemma_trimmed_end(s: Seq<char>) -> (kept: int)
    ensures
        0 <= kept <= s.len(),
        trimmed_end(s) == s.take(kept),
        forall|k: int| kept <= k < s.len() ==> is_white_space(#[trigger] s[k]),
        kept > 0 ==> !is_white_space(s[kept - 1]),
    decreases s.len(),
{
    if s.len() > 0 && is_white_space(s.last()) {
        let init = s.drop_last();
        let n = lemma_trimmed_end(init);
        assert(init.take(n) =~= s.take(n));
        assert forall|k: int| n <= k < s.len() implies is_white_space(#[trigger] s[k]) by {
            if k < init.len() {
                assert(is_white_space(init[k]));
            }
        }
        n
    } else {
        assert(s.take(s.len() as int) =~= s);
        s.len() as int
    }
}

/// An optional text is shown as it is.
pub proof fn optional_text_is_shown_as_it_is(s: String, slice: &str)
    ensures
        chars_in(Some(s)) == Some(s@),
        chars_in(None) is None,
        text_behind(Some(slice)) == Some(slice@),
        text_behind(None) is None,
{
}

} // verus!
