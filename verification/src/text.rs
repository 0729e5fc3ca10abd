//! Text helpers shared by the command line, the configuration and the tray.

use vstd::prelude::*;

verus! {

/// Appends one character to a `String` (`String::push`).
/// Trusted: the string afterwards holds the old characters followed by `c`.
#[verifier::external_body]
fn push_char(s: &mut String, c: char)
    ensures
        final(s)@ == old(s)@.push(c),
{
    s.push(c);
}

/// The characters of `s`, in order.
pub fn str_chars(s: &str) -> (v: Vec<char>)
    ensures
        v@ == s@,
{
    let n: usize = s.unicode_len();
    let mut v: Vec<char> = Vec::new();
    let mut i: usize = 0;
    while i < n
        invariant
            n == s@.len(),
            i <= n,
            v@ == s@.take(i as int),
        decreases n - i,
    {
        let c: char = s.get_char(i);
        v.push(c);
        i = i + 1;
        assert(v@ =~= s@.take(i as int));
    }
    assert(v@ =~= s@);
    v
}

/// The character of a decimal digit value.
pub open spec fn digit_char(d: nat) -> char {
    ((d + 48) as u32) as char
}

/// Decimal notation of a natural number, most significant digit first.
pub open spec fn dec_digits(n: nat) -> Seq<char>
    decreases n,
{
    if n < 10 {
        seq![digit_char(n)]
    } else {
        dec_digits(n / 10).push(digit_char(n % 10))
    }
}

/// Appends the decimal notation of `n` to `s`.
pub fn push_dec(s: &mut String, n: u64)
    ensures
        final(s)@ == old(s)@ + dec_digits(n as nat),
    decreases n,
{
    if n >= 10 {
        push_dec(s, n / 10);
    }
    let d: u8 = (n % 10) as u8;
    let c: char = (d + 48) as char;
    push_char(s, c);
    assert(s@ =~= old(s)@ + dec_digits(n as nat));
}


/// Decimal notation of an integer: a minus sign before the digits of its magnitude.
pub open spec fn signed_dec_digits(n: int) -> Seq<char> {
    if n < 0 {
        seq!['-'] + dec_digits((-n) as nat)
    } else {
        dec_digits(n as nat)
    }
}

/// Appends the decimal notation of `n` to `s`.
pub fn push_signed_dec(s: &mut String, n: i64)
    ensures
        final(s)@ == old(s)@ + signed_dec_digits(n as int),
{
    if n < 0 {
        push_char(s, '-');
        let m: u64 = if n == i64::MIN {
            9223372036854775808u64
        } else {
            (-n) as u64
        };
        push_dec(s, m);
        assert(s@ =~= old(s)@ + signed_dec_digits(n as int));
    } else {
        push_dec(s, n as u64);
    }
}

/// Appends the characters of `t` to `s`.
pub fn push_chars(s: &mut String, t: &[char])
    ensures
        final(s)@ == old(s)@ + t@,
{
    let mut i: usize = 0;
    while i < t.len()
        invariant
            i <= t@.len(),
            s@ == old(s)@ + t@.take(i as int),
        decreases t@.len() - i,
    {
        push_char(s, t[i]);
        i = i + 1;
        assert(s@ =~= old(s)@ + t@.take(i as int));
    }
    assert(t@.take(i as int) =~= t@);
}

/// Appends the characters of a string slice to `s`.
pub fn push_str(s: &mut String, t: &str)
    ensures
        final(s)@ == old(s)@ + t@,
{
    let v: Vec<char> = str_chars(t);
    push_chars(s, v.as_slice());
}

/// Upper-case hexadecimal digit of a value below 16.
pub open spec fn hex_digit_char(d: nat) -> char {
    if d < 10 {
        ((d + 48) as u32) as char
    } else {
        ((d + 55) as u32) as char
    }
}

/// A byte in two upper-case hexadecimal digits (`{:02X}`).
pub open spec fn hex_byte_chars(b: u8) -> Seq<char> {
    seq![hex_digit_char((b / 16) as nat), hex_digit_char((b % 16) as nat)]
}

/// Appends a byte in two upper-case hexadecimal digits.
pub fn push_hex_byte(s: &mut String, b: u8)
    ensures
        final(s)@ == old(s)@ + hex_byte_chars(b),
{
    let hi: u8 = b / 16;
    let lo: u8 = b % 16;
    let ch: char = if hi < 10 { (hi + 48) as char } else { (hi + 55) as char };
    let cl: char = if lo < 10 { (lo + 48) as char } else { (lo + 55) as char };
    push_char(s, ch);
    push_char(s, cl);
    assert(s@ =~= old(s)@ + hex_byte_chars(b));
}

/// Value of a hexadecimal digit (either case), if `c` is one.
pub open spec fn hex_digit_value(c: char) -> Option<nat> {
    let u: u32 = c as u32;
    if 48 <= u <= 57 {
        Some((u - 48) as nat)
    } else if 65 <= u <= 70 {
        Some((u - 55) as nat)
    } else if 97 <= u <= 102 {
        Some((u - 87) as nat)
    } else {
        None
    }
}

/// Executable `hex_digit_value`.
pub fn hex_digit(c: char) -> (r: Option<u8>)
    ensures
        r matches Some(d) <==> hex_digit_value(c) is Some,
        r matches Some(d) ==> d as nat == hex_digit_value(c)->0 && d < 16,
{
    let u: u32 = c as u32;
    if 48 <= u && u <= 57 {
        Some((u - 48) as u8)
    } else if 65 <= u && u <= 70 {
        Some((u - 55) as u8)
    } else if 97 <= u && u <= 102 {
        Some((u - 87) as u8)
    } else {
        None
    }
}

/// Every hexadecimal digit is read with its value, in either case: `0`..`9` are 0..9,
/// and both `a`..`f` and `A`..`F` are 10..15.
pub proof fn law_hex_digits_either_case(d: nat)
    requires
        d < 16,
    ensures
        d < 10 ==> hex_digit_value(((48 + d) as u32) as char) == Some(d),
        d >= 10 ==> hex_digit_value(((97 + d - 10) as u32) as char) == Some(d),
        d >= 10 ==> hex_digit_value(((65 + d - 10) as u32) as char) == Some(d),
{
}

/// Whether `c` is a decimal digit `0`..`9`.
pub open spec fn is_dec_digit(c: char) -> bool {
    48 <= (c as u32) <= 57
}

/// Value of a string of decimal digits, most significant first.
pub open spec fn dec_value(d: Seq<char>) -> nat
    decreases d.len(),
{
    if d.len() == 0 {
        0
    } else {
        dec_value(d.drop_last()) * 10 + ((d.last() as u32) - 48) as nat
    }
}

/// The digits of an unsigned number: a leading `+` is allowed.
pub open spec fn unsigned_digits(t: Seq<char>) -> Seq<char> {
    if t.len() > 0 && t[0] == '+' {
        t.drop_first()
    } else {
        t
    }
}

/// How Rust's `str::parse` reads an unsigned integer whose largest value is `max`:
/// an optional `+`, then one or more decimal digits, with a value no greater than `max`.
pub open spec fn parse_unsigned(t: Seq<char>, max: nat) -> Option<nat> {
    let d = unsigned_digits(t);
    if d.len() > 0 && (forall|i: int| 0 <= i < d.len() ==> is_dec_digit(#[trigger] d[i]))
        && dec_value(d) <= max {
        Some(dec_value(d))
    } else {
        None
    }
}

proof fn lemma_dec_value_prefix(d: Seq<char>, k: int)
    requires
        0 <= k <= d.len(),
        forall|i: int| 0 <= i < d.len() ==> is_dec_digit(#[trigger] d[i]),
    ensures
        dec_value(d.take(k)) <= dec_value(d),
    decreases d.len(),
{
    if k < d.len() {
        assert(d.drop_last().take(k) =~= d.take(k));
        lemma_dec_value_prefix(d.drop_last(), k);
    } else {
        assert(d.take(k) =~= d);
    }
}

/// A number's decimal notation reads back as that number: one or more digits, no sign,
/// with the value written.
pub proof fn law_dec_digits_read_back(n: nat)
    ensures
        dec_digits(n).len() > 0,
        dec_digits(n)[0] != '+',
        forall|i: int| 0 <= i < dec_digits(n).len() ==> is_dec_digit(#[trigger] dec_digits(n)[i]),
        dec_value(dec_digits(n)) == n,
    decreases n,
{
    if n >= 10 {
        law_dec_digits_read_back(n / 10);
        let p = dec_digits(n / 10);
        let s = p.push(digit_char(n % 10));
        assert(s.drop_last() =~= p);
        assert(s[0] == p[0]);
        assert((digit_char(n % 10) as u32) == n % 10 + 48);
        assert(dec_value(s) == n / 10 * 10 + n % 10);
        assert(dec_digits(n) == s);
        assert(n / 10 * 10 + n % 10 == n);
        assert forall|i: int| 0 <= i < s.len() implies is_dec_digit(#[trigger] s[i]) by {
            if i < p.len() {
                assert(s[i] == p[i]);
            }
        }
    } else {
        assert(seq![digit_char(n)].drop_last() =~= Seq::<char>::empty());
        assert((digit_char(n) as u32) == n + 48);
        assert(dec_digits(n) == seq![digit_char(n)]);
        let one: Seq<char> = seq![digit_char(n)];
        assert(one.drop_last() =~= Seq::<char>::empty());
        assert(one.last() == digit_char(n));
        assert(dec_value(one.drop_last()) == 0);
        assert(dec_value(one) == n);
    }
}

/// Reads an unsigned integer as `str::parse` does, with `max` the largest value of the type.
pub fn parse_unsigned_chars(t: &[char], max: u64) -> (r: Option<u64>)
    ensures
        r matches Some(v) <==> parse_unsigned(t@, max as nat) is Some,
        r matches Some(v) ==> v as nat == parse_unsigned(t@, max as nat)->0,
{
    let ghost d: Seq<char> = unsigned_digits(t@);
    let start: usize = if t.len() > 0 && t[0] == '+' { 1 } else { 0 };
    assert(d =~= t@.skip(start as int));
    if start >= t.len() {
        return None;
    }
    let mut v: u64 = 0;
    let mut i: usize = start;
    while i < t.len()
        invariant
            start <= i <= t@.len(),
            d == unsigned_digits(t@),
            d =~= t@.skip(start as int),
            forall|j: int| 0 <= j < i - start ==> is_dec_digit(#[trigger] d[j]),
            v as nat == dec_value(d.take(i - start)),
            v <= max,
        decreases t@.len() - i,
    {
        let c: char = t[i];
        let u: u32 = c as u32;
        if u < 48 || u > 57 {
            assert(!is_dec_digit(d[i - start]));
            return None;
        }
        let nv: u128 = (v as u128) * 10 + (u - 48) as u128;
        let ghost k: int = i - start;
        assert(d.take(k + 1).drop_last() =~= d.take(k));
        assert(d.take(k + 1).last() == c);
        if nv > max as u128 {
            proof {
                if forall|j: int| 0 <= j < d.len() ==> is_dec_digit(#[trigger] d[j]) {
                    lemma_dec_value_prefix(d, k + 1);
                }
            }
            return None;
        }
        v = nv as u64;
        i = i + 1;
    }
    assert(d.take(d.len() as int) =~= d);
    Some(v)
}

/// Whether `c` is white space to `char::is_whitespace` (the Unicode `White_Space` property).
pub open spec fn is_white_space(c: char) -> bool {
    let u: u32 = c as u32;
    (9 <= u <= 13) || u == 0x20 || u == 0x85 || u == 0xA0 || u == 0x1680 || (0x2000 <= u
        <= 0x200A) || u == 0x2028 || u == 0x2029 || u == 0x202F || u == 0x205F || u == 0x3000
}

/// Executable `is_white_space`.
pub fn white_space(c: char) -> (b: bool)
    ensures
        b == is_white_space(c),
{
    let u: u32 = c as u32;
    (9 <= u && u <= 13) || u == 0x20 || u == 0x85 || u == 0xA0 || u == 0x1680 || (0x2000 <= u
        && u <= 0x200A) || u == 0x2028 || u == 0x2029 || u == 0x202F || u == 0x205F || u
        == 0x3000
}

/// `s` without its leading white space.
pub open spec fn trim_start(s: Seq<char>) -> Seq<char>
    decreases s.len(),
{
    if s.len() > 0 && is_white_space(s[0]) {
        trim_start(s.drop_first())
    } else {
        s
    }
}

/// `s` without its trailing white space.
pub open spec fn trim_end(s: Seq<char>) -> Seq<char>
    decreases s.len(),
{
    if s.len() > 0 && is_white_space(s.last()) {
        trim_end(s.drop_last())
    } else {
        s
    }
}

/// `s` without leading and trailing white space (`str::trim`).
pub open spec fn trim(s: Seq<char>) -> Seq<char> {
    trim_end(trim_start(s))
}

/// The bounds of `t[lo..hi]` with its surrounding white space removed.
pub fn trim_bounds(t: &[char], lo: usize, hi: usize) -> (r: (usize, usize))
    requires
        lo <= hi <= t@.len(),
    ensures
        lo <= r.0 <= r.1 <= hi,
        t@.subrange(r.0 as int, r.1 as int) == trim(t@.subrange(lo as int, hi as int)),
{
    let mut a: usize = lo;
    while a < hi && white_space(t[a])
        invariant
            lo <= a <= hi <= t@.len(),
            trim_start(t@.subrange(lo as int, hi as int)) == trim_start(
                t@.subrange(a as int, hi as int),
            ),
        decreases hi - a,
    {
        assert(t@.subrange(a as int, hi as int).drop_first() =~= t@.subrange(
            a + 1,
            hi as int,
        ));
        a = a + 1;
    }
    let mut b: usize = hi;
    while b > a && white_space(t[b - 1])
        invariant
            lo <= a <= b <= hi <= t@.len(),
            trim_end(t@.subrange(a as int, hi as int)) == trim_end(
                t@.subrange(a as int, b as int),
            ),
        decreases b - a,
    {
        assert(t@.subrange(a as int, b as int).drop_last() =~= t@.subrange(
            a as int,
            b - 1,
        ));
        b = b - 1;
    }
    (a, b)
}

/// A character lowered if it is an ASCII capital letter (`u8::to_ascii_lowercase` per char).
pub open spec fn ascii_lower(c: char) -> u32 {
    let u: u32 = c as u32;
    if 65 <= u <= 90 {
        (u + 32) as u32
    } else {
        u
    }
}

/// `str::eq_ignore_ascii_case`, on the characters of the two strings.
pub open spec fn eq_ignore_ascii_case(a: Seq<char>, b: Seq<char>) -> bool {
    a.len() == b.len() && forall|i: int| 0 <= i < a.len() ==> ascii_lower(a[i]) == ascii_lower(b[i])
}

/// Executable `eq_ignore_ascii_case`.
pub fn chars_eq_ignore_ascii_case(a: &[char], b: &[char]) -> (r: bool)
    ensures
        r == eq_ignore_ascii_case(a@, b@),
{
    if a.len() != b.len() {
        return false;
    }
    let mut i: usize = 0;
    while i < a.len()
        invariant
            a@.len() == b@.len(),
            i <= a@.len(),
            forall|j: int| 0 <= j < i ==> ascii_lower(a@[j]) == ascii_lower(b@[j]),
        decreases a@.len() - i,
    {
        let x: u32 = a[i] as u32;
        let y: u32 = b[i] as u32;
        let lx: u32 = if 65 <= x && x <= 90 { x + 32 } else { x };
        let ly: u32 = if 65 <= y && y <= 90 { y + 32 } else { y };
        if lx != ly {
            return false;
        }
        i = i + 1;
    }
    true
}

/// Whether two character slices hold the same characters.
pub fn chars_eq(a: &[char], b: &[char]) -> (r: bool)
    ensures
        r == (a@ == b@),
{
    if a.len() != b.len() {
        return false;
    }
    let mut i: usize = 0;
    while i < a.len()
        invariant
            a@.len() == b@.len(),
            i <= a@.len(),
            forall|j: int| 0 <= j < i ==> a@[j] == b@[j],
        decreases a@.len() - i,
    {
        if a[i] != b[i] {
            return false;
        }
        i = i + 1;
    }
    assert(a@ =~= b@);
    true
}


/// What `{:?}` (`Debug` for `str`) writes for a string: the text in double quotes, with
/// the characters that need it escaped.
pub uninterp spec fn str_debug(s: Seq<char>) -> Seq<char>;

/// `format!("{:?}", s)`: the `Debug` form of a string slice.
/// Trusted: the result is `str_debug` of the characters of `s`; the escaping rules
/// (which depend on Unicode tables) are not written out.
#[verifier::external_body]
pub(crate) fn debug_str(s: &str) -> (r: String)
    ensures
        r@ == str_debug(s@),
{
    format!("{:?}", s)
}

/// A string's UTF-8 encoding is at least as long as its character count.
pub proof fn lemma_utf8_len_at_least_chars(t: Seq<char>)
    ensures
        vstd::utf8::encode_utf8(t).len() >= t.len(),
    decreases t.len(),
{
    if t.len() > 0 {
        lemma_utf8_len_at_least_chars(t.drop_first());
    }
}


/// A string's UTF-8 encoding is the encodings of its parts, one after the other.
pub proof fn lemma_utf8_len_concat(a: Seq<char>, b: Seq<char>)
    ensures
        vstd::utf8::encode_utf8(a + b).len() == vstd::utf8::encode_utf8(a).len()
            + vstd::utf8::encode_utf8(b).len(),
    decreases a.len(),
{
    if a.len() > 0 {
        assert((a + b).drop_first() =~= a.drop_first() + b);
        lemma_utf8_len_concat(a.drop_first(), b);
    } else {
        assert(a + b =~= b);
    }
}

/// Number of bytes in the UTF-8 encoding of one character.
pub open spec fn utf8_width(c: char) -> nat {
    let u: u32 = c as u32;
    if vstd::utf8::has_width_1_encoding(u) {
        1
    } else if vstd::utf8::has_width_2_encoding(u) {
        2
    } else if vstd::utf8::has_width_3_encoding(u) {
        3
    } else {
        4
    }
}

proof fn lemma_utf8_len_push(t: Seq<char>, k: int)
    requires
        0 <= k < t.len(),
    ensures
        vstd::utf8::encode_utf8(t.take(k + 1)).len() == vstd::utf8::encode_utf8(t.take(k)).len()
            + utf8_width(t[k]),
{
    assert(t.take(k + 1) =~= t.take(k) + seq![t[k]]);
    lemma_utf8_len_concat(t.take(k), seq![t[k]]);
    assert(seq![t[k]].drop_first() =~= Seq::<char>::empty());
    reveal_with_fuel(vstd::utf8::encode_utf8, 2);
}

/// Whether the UTF-8 encoding of `t` is `n` bytes long (`str::len() == n`).
pub fn utf8_len_is(t: &[char], n: usize) -> (r: bool)
    ensures
        r == (vstd::utf8::encode_utf8(t@).len() == n),
{
    let mut w: usize = 0;
    let mut k: usize = 0;
    while k < t.len()
        invariant
            k <= t@.len(),
            w <= n,
            w == vstd::utf8::encode_utf8(t@.take(k as int)).len(),
        decreases t@.len() - k,
    {
        let u: u32 = t[k] as u32;
        let cw: usize = if u <= 0x7F {
            1
        } else if u <= 0x7FF {
            2
        } else if u <= 0xFFFF && !(0xD800 <= u && u <= 0xDFFF) {
            3
        } else {
            4
        };
        proof {
            lemma_utf8_len_push(t@, k as int);
        }
        if cw > n - w {
            proof {
                assert(t@ =~= t@.take(k + 1) + t@.skip(k + 1));
                lemma_utf8_len_concat(t@.take(k + 1), t@.skip(k + 1));
            }
            return false;
        }
        w = w + cw;
        k = k + 1;
    }
    assert(t@.take(k as int) =~= t@);
    w == n
}

} // verus!
