//! The decisions of the command-line tool: colors given in hex, options, GPU selection,
//! which registers change, and how to wait in short steps.

use vstd::prelude::*;
use vstd::slice::slice_subrange;
use vstd::utf8::encode_utf8;
use crate::config::{all_gpus, all_word, resolved, GpuSel, SelView};
use crate::led::Rgb;
use crate::text::{
    debug_str, hex_digit, hex_digit_value, lemma_utf8_len_at_least_chars, push_str, str_chars,
    str_debug, unsigned_digits, utf8_len_is, hex_byte_chars, hex_digit_char, push_hex_byte,
    chars_eq, chars_eq_ignore_ascii_case, eq_ignore_ascii_case, parse_unsigned,
    parse_unsigned_chars, trim, trim_bounds,
};

verus! {

/// `s` without its leading `#` characters (`trim_start_matches('#')`).
pub open spec fn strip_hashes(s: Seq<char>) -> Seq<char>
    decreases s.len(),
{
    if s.len() > 0 && s[0] == '#' {
        strip_hashes(s.drop_first())
    } else {
        s
    }
}

/// Value of a string of hexadecimal digits, most significant first.
pub open spec fn hex_value(d: Seq<char>) -> nat
    decreases d.len(),
{
    if d.len() == 0 {
        0
    } else {
        hex_value(d.drop_last()) * 16 + hex_digit_value(d.last())->0
    }
}

/// Whether every character of `d` is a hexadecimal digit.
pub open spec fn all_hex(d: Seq<char>) -> bool {
    forall|i: int| 0 <= i < d.len() ==> #[trigger] hex_digit_value(d[i]) is Some
}

/// The color of a 24-bit value `0xRRGGBB`.
pub open spec fn color_of(v: nat) -> Rgb {
    (((v / 65536) % 256) as u8, ((v / 256) % 256) as u8, (v % 256) as u8)
}

/// `parse_color`: after any leading `#`, the text must be `RRGGBB`: six bytes, every one
/// a hexadecimal digit (either case); the value's three bytes are red, green and blue.
pub open spec fn color_parse(s: Seq<char>) -> Result<Rgb, Seq<char>> {
    let t = strip_hashes(s);
    if encode_utf8(t).len() != 6 {
        Err("expected RRGGBB hex, got "@ + str_debug(t))
    } else if all_hex(t) {
        Ok(color_of(hex_value(t)))
    } else {
        Err("bad hex "@ + str_debug(t))
    }
}

/// Powers of 16.
pub open spec fn exp16(k: nat) -> nat
    decreases k,
{
    if k == 0 {
        1
    } else {
        16 * exp16((k - 1) as nat)
    }
}

proof fn lemma_exp16_bound(k: nat)
    requires
        k <= 6,
    ensures
        exp16(k) <= 16777216,
    decreases k,
{
    reveal_with_fuel(exp16, 7);
}

/// The message for a six-byte color text that is not hex.
fn bad_hex(t: &str) -> (m: String)
    ensures
        m@ == "bad hex "@ + str_debug(t@),
{
    let mut m: String = String::new();
    push_str(&mut m, "bad hex ");
    let q: String = debug_str(t);
    push_str(&mut m, q.as_str());
    m
}

/// Reads a color given as `RRGGBB` hex (a leading `#` is allowed).
pub fn parse_color(s: &str) -> (r: Result<Rgb, String>)
    ensures
        match r {
            Ok(c) => color_parse(s@) == Ok::<Rgb, Seq<char>>(c),
            Err(m) => color_parse(s@) == Err::<Rgb, Seq<char>>(m@),
        },
{
    let all: Vec<char> = str_chars(s);
    assert(all@.skip(0) =~= all@);
    let mut k: usize = 0;
    while k < all.len() && all[k] == '#'
        invariant
            k <= all@.len(),
            all@ == s@,
            strip_hashes(s@) == strip_hashes(all@.skip(k as int)),
        decreases all@.len() - k,
    {
        assert(all@.skip(k as int).drop_first() =~= all@.skip(k + 1));
        k = k + 1;
    }
    let n: usize = all.len();
    let t: &str = s.substring_char(k, n);
    assert(t@ =~= strip_hashes(s@));
    let tc: Vec<char> = str_chars(t);
    if !utf8_len_is(tc.as_slice(), 6) {
        let mut m: String = String::new();
        push_str(&mut m, "expected RRGGBB hex, got ");
        let q: String = debug_str(t);
        push_str(&mut m, q.as_str());
        return Err(m);
    }
    proof {
        lemma_utf8_len_at_least_chars(t@);
    }
    let ghost d: Seq<char> = t@;
    let mut v: u32 = 0;
    let mut i: usize = 0;
    assert(d.take(0) =~= Seq::<char>::empty());
    while i < tc.len()
        invariant
            tc@ == t@,
            t@ == strip_hashes(s@),
            encode_utf8(t@).len() == 6,
            tc@.len() <= 6,
            d == t@,
            i <= tc@.len(),
            forall|j: int| 0 <= j < i ==> #[trigger] hex_digit_value(d[j]) is Some,
            v as nat == hex_value(d.take(i as int)),
            v < exp16(i as nat),
        decreases tc@.len() - i,
    {
        let ghost k2: int = i as int;
        assert(d.take(k2 + 1).drop_last() =~= d.take(k2));
        match hex_digit(tc[i]) {
            Some(x) => {
                proof {
                    lemma_exp16_bound(k2 as nat);
                }
                v = v * 16 + x as u32;
                i = i + 1;
            },
            None => {
                assert(hex_digit_value(d[k2]) is None);
                return Err(bad_hex(t));
            },
        }
    }
    assert(d.take(d.len() as int) =~= d);
    assert(((v >> 16) & 0xFF) == (v / 65536) % 256) by (bit_vector);
    assert(((v >> 8) & 0xFF) == (v / 256) % 256) by (bit_vector);
    assert((v & 0xFF) == v % 256) by (bit_vector);
    let r: u8 = ((v >> 16) & 0xFF) as u8;
    let g: u8 = ((v >> 8) & 0xFF) as u8;
    let b: u8 = (v & 0xFF) as u8;
    Ok((r, g, b))
}


/// A color as `RRGGBB` in upper-case hex (`{:02X}{:02X}{:02X}`).
pub open spec fn color_hex_text(c: Rgb) -> Seq<char> {
    hex_byte_chars(c.0) + hex_byte_chars(c.1) + hex_byte_chars(c.2)
}

/// A color as `RRGGBB` in upper-case hex.
pub fn color_hex(c: Rgb) -> (s: String)
    ensures
        s@ == color_hex_text(c),
{
    let mut s: String = String::new();
    push_hex_byte(&mut s, c.0);
    push_hex_byte(&mut s, c.1);
    push_hex_byte(&mut s, c.2);
    assert(s@ =~= color_hex_text(c));
    s
}

proof fn lemma_hex_digit_round_trip(d: nat)
    requires
        d < 16,
    ensures
        hex_digit_value(hex_digit_char(d)) == Some(d),
        hex_digit_char(d) != '#',
        hex_digit_char(d) != '+',
        (hex_digit_char(d) as u32) < 128,
{
}

/// A color written as `RRGGBB` hex reads back as the same color, with or without a
/// leading `#`.
pub proof fn law_color_hex_round_trip(c: Rgb)
    ensures
        color_parse(color_hex_text(c)) == Ok::<Rgb, Seq<char>>(c),
        color_parse(seq!['#'] + color_hex_text(c)) == Ok::<Rgb, Seq<char>>(c),
{
    let (r, g, b) = c;
    let d0: nat = (r / 16) as nat;
    let d1: nat = (r % 16) as nat;
    let d2: nat = (g / 16) as nat;
    let d3: nat = (g % 16) as nat;
    let d4: nat = (b / 16) as nat;
    let d5: nat = (b % 16) as nat;
    lemma_hex_digit_round_trip(d0);
    lemma_hex_digit_round_trip(d1);
    lemma_hex_digit_round_trip(d2);
    lemma_hex_digit_round_trip(d3);
    lemma_hex_digit_round_trip(d4);
    lemma_hex_digit_round_trip(d5);
    let h: Seq<char> = color_hex_text(c);
    let s6: Seq<char> = seq![
        hex_digit_char(d0),
        hex_digit_char(d1),
        hex_digit_char(d2),
        hex_digit_char(d3),
        hex_digit_char(d4),
        hex_digit_char(d5),
    ];
    assert(h =~= s6);
    assert(strip_hashes(h) == h);
    assert((seq!['#'] + h).drop_first() =~= h);
    assert(strip_hashes(seq!['#'] + h) == h);
    assert(vstd::utf8::is_ascii_chars(h));
    vstd::utf8::is_ascii_chars_encode_utf8(h);
    assert(all_hex(h));
    assert(s6.drop_last() =~= seq![
        hex_digit_char(d0),
        hex_digit_char(d1),
        hex_digit_char(d2),
        hex_digit_char(d3),
        hex_digit_char(d4),
    ]);
    assert(s6.drop_last().drop_last() =~= seq![
        hex_digit_char(d0),
        hex_digit_char(d1),
        hex_digit_char(d2),
        hex_digit_char(d3),
    ]);
    assert(s6.drop_last().drop_last().drop_last() =~= seq![
        hex_digit_char(d0),
        hex_digit_char(d1),
        hex_digit_char(d2),
    ]);
    assert(s6.drop_last().drop_last().drop_last().drop_last() =~= seq![
        hex_digit_char(d0),
        hex_digit_char(d1),
    ]);
    assert(s6.drop_last().drop_last().drop_last().drop_last().drop_last() =~= seq![
        hex_digit_char(d0),
    ]);
    assert(seq![hex_digit_char(d0)].drop_last() =~= Seq::<char>::empty());
    reveal_with_fuel(hex_value, 7);
    let v: nat = hex_value(h);
    assert(v == ((((d0 * 16 + d1) * 16 + d2) * 16 + d3) * 16 + d4) * 16 + d5);
    assert(v == (r as nat) * 65536 + (g as nat) * 256 + (b as nat)) by (nonlinear_arith)
        requires
            v == ((((d0 * 16 + d1) * 16 + d2) * 16 + d3) * 16 + d4) * 16 + d5,
            d0 == r / 16,
            d1 == r % 16,
            d2 == g / 16,
            d3 == g % 16,
            d4 == b / 16,
            d5 == b % 16,
    ;
    assert(color_of(v) == c) by (nonlinear_arith)
        requires
            v == (r as nat) * 65536 + (g as nat) * 256 + (b as nat),
            r < 256,
            g < 256,
            b < 256,
            c == (r, g, b),
    ;
}


/// The command-line arguments as plain character sequences.
pub open spec fn args_view(args: Seq<String>) -> Seq<Seq<char>> {
    args.map_values(|a: String| a@)
}

/// The argument after the first occurrence of `key`, if there is one after it.
pub open spec fn arg_after(args: Seq<Seq<char>>, key: Seq<char>) -> Option<Seq<char>>
    decreases args.len(),
{
    if args.len() == 0 {
        None
    } else if args[0] == key {
        if args.len() > 1 {
            Some(args[1])
        } else {
            None
        }
    } else {
        arg_after(args.drop_first(), key)
    }
}

/// The value of option `key`: the argument that follows its first occurrence.
pub fn opt_value(args: &[String], key: &str) -> (r: Option<String>)
    ensures
        match r {
            Some(v) => arg_after(args_view(args@), key@) == Some(v@),
            None => arg_after(args_view(args@), key@) is None,
        },
{
    let ghost av: Seq<Seq<char>> = args_view(args@);
    let k: String = key.to_owned();
    let mut i: usize = 0;
    assert(av.skip(0) =~= av);
    while i < args.len()
        invariant
            i <= args@.len(),
            av == args_view(args@),
            k@ == key@,
            arg_after(av, key@) == arg_after(av.skip(i as int), key@),
        decreases args@.len() - i,
    {
        assert(av.skip(i as int)[0] == args@[i as int]@);
        if args[i] == k {
            if i + 1 < args.len() {
                assert(av.skip(i as int)[1] == args@[i + 1]@);
                return Some(args[i + 1].clone());
            }
            return None;
        }
        assert(av.skip(i as int).drop_first() =~= av.skip(i + 1));
        i = i + 1;
    }
    None
}

/// The value of an option is the argument right after the first occurrence of its key;
/// there is none when the key is absent or is the last argument.
pub proof fn law_option_follows_first_key(args: Seq<Seq<char>>, key: Seq<char>, i: int)
    requires
        0 <= i < args.len(),
        args[i] == key,
        forall|j: int| 0 <= j < i ==> args[j] != key,
    ensures
        arg_after(args, key) == if i + 1 < args.len() {
            Some(args[i + 1])
        } else {
            None::<Seq<char>>
        },
    decreases i,
{
    if i > 0 {
        let rest = args.drop_first();
        assert forall|j: int| 0 <= j < i - 1 implies rest[j] != key by {
            assert(rest[j] == args[j + 1]);
        }
        assert(args[0] != key);
        law_option_follows_first_key(rest, key, i - 1);
    }
}

/// An option whose key is absent has no value.
pub proof fn law_option_absent(args: Seq<Seq<char>>, key: Seq<char>)
    requires
        forall|j: int| 0 <= j < args.len() ==> args[j] != key,
    ensures
        arg_after(args, key) is None,
    decreases args.len(),
{
    if args.len() > 0 {
        let rest = args.drop_first();
        assert forall|j: int| 0 <= j < rest.len() implies rest[j] != key by {
            assert(rest[j] == args[j + 1]);
        }
        assert(args[0] != key);
        law_option_absent(rest, key);
    }
}

/// The pieces of `s` between commas (`str::split(',')`): empty pieces included, and one
/// piece for a text without commas.
pub open spec fn split_comma(s: Seq<char>) -> Seq<Seq<char>>
    decreases s.len(),
{
    if s.len() == 0 {
        seq![Seq::empty()]
    } else {
        let p = split_comma(s.drop_last());
        if s.last() == ',' {
            p.push(Seq::empty())
        } else {
            p.update(p.len() - 1, p.last().push(s.last()))
        }
    }
}

/// The GPU a piece of a `--gpu` list names: a number (surrounding white space allowed)
/// below `count`.
pub open spec fn piece_gpu(p: Seq<char>, count: nat) -> Option<usize> {
    match parse_unsigned(trim(p), usize::MAX as nat) {
        Some(n) => if n < count {
            Some(n as usize)
        } else {
            None
        },
        None => None,
    }
}

/// The GPUs that the pieces of a `--gpu` list name, in order.
pub open spec fn listed_gpus(pieces: Seq<Seq<char>>, count: nat) -> Seq<usize>
    decreases pieces.len(),
{
    if pieces.len() == 0 {
        Seq::empty()
    } else {
        let rest = listed_gpus(pieces.drop_last(), count);
        match piece_gpu(pieces.last(), count) {
            Some(i) => rest.push(i),
            None => rest,
        }
    }
}

/// The GPUs that a `--gpu` list such as `0,1` names.
pub open spec fn gpu_list(s: Seq<char>, count: nat) -> Seq<usize> {
    listed_gpus(split_comma(s), count)
}

fn piece_index(v: &[char], lo: usize, hi: usize, count: usize) -> (r: Option<usize>)
    requires
        lo <= hi <= v@.len(),
    ensures
        r == piece_gpu(v@.subrange(lo as int, hi as int), count as nat),
{
    let (a, b) = trim_bounds(v, lo, hi);
    let p: &[char] = slice_subrange(v, a, b);
    match parse_unsigned_chars(p, usize::MAX as u64) {
        Some(n) => {
            if n < count as u64 {
                Some(n as usize)
            } else {
                None
            }
        },
        None => None,
    }
}

proof fn lemma_split_nonempty(s: Seq<char>)
    ensures
        split_comma(s).len() >= 1,
    decreases s.len(),
{
    if s.len() > 0 {
        lemma_split_nonempty(s.drop_last());
    }
}

proof fn lemma_split_concat(a: Seq<char>, b: Seq<char>)
    ensures
        split_comma(a + seq![','] + b) == split_comma(a) + split_comma(b),
    decreases b.len(),
{
    let ab = a + seq![','] + b;
    if b.len() == 0 {
        assert(ab =~= a + seq![',']);
        assert((a + seq![',']).drop_last() =~= a);
        assert(split_comma(a + seq![',']) =~= split_comma(a) + split_comma(b));
    } else {
        let b1 = b.drop_last();
        lemma_split_concat(a, b1);
        lemma_split_nonempty(b1);
        lemma_split_nonempty(a);
        assert(ab.drop_last() =~= a + seq![','] + b1);
        assert(ab.last() == b.last());
        let pa = split_comma(a);
        let pb = split_comma(b1);
        if b.last() == ',' {
            assert((pa + pb).push(Seq::empty()) =~= pa + pb.push(Seq::empty()));
        } else {
            assert((pa + pb).last() == pb.last());
            assert((pa + pb).update((pa + pb).len() - 1, pb.last().push(b.last())) =~= pa
                + pb.update(pb.len() - 1, pb.last().push(b.last())));
        }
    }
}

proof fn lemma_listed_concat(p: Seq<Seq<char>>, q: Seq<Seq<char>>, count: nat)
    ensures
        listed_gpus(p + q, count) == listed_gpus(p, count) + listed_gpus(q, count),
    decreases q.len(),
{
    if q.len() == 0 {
        assert(p + q =~= p);
        assert(listed_gpus(p, count) + Seq::<usize>::empty() =~= listed_gpus(p, count));
    } else {
        lemma_listed_concat(p, q.drop_last(), count);
        assert((p + q).drop_last() =~= p + q.drop_last());
        assert((p + q).last() == q.last());
        let lp = listed_gpus(p, count);
        let lq = listed_gpus(q.drop_last(), count);
        match piece_gpu(q.last(), count) {
            Some(i) => assert((lp + lq).push(i) =~= lp + lq.push(i)),
            None => {},
        }
    }
}

/// A `--gpu` list joined with a comma names the GPUs of its first part, then those of
/// its second part.
pub proof fn law_gpu_list_concat(a: Seq<char>, b: Seq<char>, count: nat)
    ensures
        gpu_list(a + seq![','] + b, count) == gpu_list(a, count) + gpu_list(b, count),
{
    lemma_split_concat(a, b);
    lemma_listed_concat(split_comma(a), split_comma(b), count);
}

proof fn lemma_split_no_comma(s: Seq<char>)
    requires
        forall|i: int| 0 <= i < s.len() ==> s[i] != ',',
    ensures
        split_comma(s) == seq![s],
    decreases s.len(),
{
    if s.len() > 0 {
        let s1 = s.drop_last();
        assert forall|i: int| 0 <= i < s1.len() implies s1[i] != ',' by {
            assert(s1[i] == s[i]);
        }
        lemma_split_no_comma(s1);
        assert(s.last() != ',');
        assert(s1.push(s.last()) =~= s);
        assert(seq![s1].update(0, s1.push(s.last())) =~= seq![s]);
    } else {
        assert(s =~= Seq::<char>::empty());
    }
}

/// A `--gpu` list of one number written in decimal names that GPU if it is present, and
/// none otherwise.
pub proof fn law_gpu_list_single(n: nat, count: nat)
    requires
        n <= usize::MAX,
    ensures
        gpu_list(crate::text::dec_digits(n), count) == if n < count {
            seq![n as usize]
        } else {
            Seq::<usize>::empty()
        },
{
    let d = crate::text::dec_digits(n);
    crate::text::law_dec_digits_read_back(n);
    assert forall|i: int| 0 <= i < d.len() implies d[i] != ',' by {
        assert(crate::text::is_dec_digit(d[i]));
    }
    lemma_split_no_comma(d);
    assert(crate::text::is_dec_digit(d[0]));
    assert(crate::text::is_dec_digit(d.last()));
    assert(crate::text::trim_start(d) == d);
    assert(crate::text::trim_end(d) == d);
    assert(unsigned_digits(d) == d);
    assert(parse_unsigned(d, usize::MAX as nat) == Some(n));
    assert(crate::text::trim(d) == d);
    assert(seq![d].drop_last() =~= Seq::<Seq<char>>::empty());
    assert(seq![d].last() == d);
    assert(listed_gpus(Seq::<Seq<char>>::empty(), count) == Seq::<usize>::empty());
    if n < count {
        assert(piece_gpu(d, count) == Some(n as usize));
        assert(listed_gpus(seq![d], count) == Seq::<usize>::empty().push(n as usize));
        assert(Seq::<usize>::empty().push(n as usize) =~= seq![n as usize]);
    } else {
        assert(piece_gpu(d, count) is None);
    }
}

/// The GPUs that a `--gpu` list such as `0,1` names: the comma-separated numbers below
/// `count`, in order.
pub fn parse_gpu_list(s: &str, count: usize) -> (r: Vec<usize>)
    ensures
        r@ == gpu_list(s@, count as nat),
{
    let v: Vec<char> = str_chars(s);
    let mut out: Vec<usize> = Vec::new();
    let mut start: usize = 0;
    let mut i: usize = 0;
    assert(v@.take(0) =~= Seq::<char>::empty());
    assert(v@.subrange(0, 0) =~= Seq::<char>::empty());
    while i < v.len()
        invariant
            v@ == s@,
            start <= i <= v@.len(),
            split_comma(v@.take(i as int)).len() >= 1,
            split_comma(v@.take(i as int)).last() == v@.subrange(start as int, i as int),
            out@ == listed_gpus(split_comma(v@.take(i as int)).drop_last(), count as nat),
        decreases v@.len() - i,
    {
        let ghost sp: Seq<Seq<char>> = split_comma(v@.take(i as int));
        assert(v@.take(i + 1).drop_last() =~= v@.take(i as int));
        assert(v@.take(i + 1).last() == v@[i as int]);
        if v[i] == ',' {
            match piece_index(v.as_slice(), start, i, count) {
                Some(g) => out.push(g),
                None => {},
            }
            assert(sp.drop_last().push(sp.last()) =~= sp);
            assert(split_comma(v@.take(i + 1)).drop_last() =~= sp);
            start = i + 1;
            assert(v@.subrange(start as int, start as int) =~= Seq::<char>::empty());
        } else {
            assert(split_comma(v@.take(i + 1)).drop_last() =~= sp.drop_last());
            assert(v@.subrange(start as int, i + 1) =~= sp.last().push(v@[i as int]));
        }
        i = i + 1;
    }
    let ghost sp: Seq<Seq<char>> = split_comma(v@.take(i as int));
    match piece_index(v.as_slice(), start, i, count) {
        Some(g) => out.push(g),
        None => {},
    }
    assert(sp.drop_last().push(sp.last()) =~= sp);
    assert(v@.take(i as int) =~= v@);
    out
}

/// The GPUs to drive: `--gpu all` (any ASCII case) for every GPU, `--gpu` with a list for
/// the listed GPUs that are present; otherwise (no option, or no usable index in the
/// list) the configured selection, or GPU 0 if that selects none.
pub open spec fn selected_gpus(args: Seq<Seq<char>>, sel: SelView, count: nat) -> Seq<usize> {
    let configured = resolved(sel, count);
    let fallback = if configured.len() == 0 {
        seq![0usize]
    } else {
        configured
    };
    match arg_after(args, "--gpu"@) {
        Some(v) => if eq_ignore_ascii_case(v, all_word()) {
            all_gpus(count)
        } else if gpu_list(v, count).len() > 0 {
            gpu_list(v, count)
        } else {
            fallback
        },
        None => fallback,
    }
}

/// The GPUs to drive, from the `--gpu` option or else the configured selection.
pub fn select_gpus(args: &[String], gpus: &GpuSel, count: usize) -> (r: Vec<usize>)
    ensures
        r@ == selected_gpus(args_view(args@), gpus@, count as nat),
{
    match opt_value(args, "--gpu") {
        Some(v) => {
            let vc: Vec<char> = str_chars(v.as_str());
            let all: Vec<char> = vec!['a', 'l', 'l'];
            assert(all@ =~= all_word());
            if chars_eq_ignore_ascii_case(vc.as_slice(), all.as_slice()) {
                return crate::config::gpu_range(count);
            }
            let list: Vec<usize> = parse_gpu_list(v.as_str(), count);
            if list.len() > 0 {
                return list;
            }
        },
        None => {},
    }
    let sel: Vec<usize> = gpus.resolve(count);
    if sel.len() == 0 {
        let r: Vec<usize> = vec![0];
        assert(r@ =~= seq![0usize]);
        r
    } else {
        sel
    }
}

proof fn lemma_listed_bounded(pieces: Seq<Seq<char>>, count: nat)
    ensures
        forall|i: int|
            0 <= i < listed_gpus(pieces, count).len() ==> #[trigger] listed_gpus(pieces, count)[i]
                < count,
    decreases pieces.len(),
{
    if pieces.len() > 0 {
        lemma_listed_bounded(pieces.drop_last(), count);
        let rest = listed_gpus(pieces.drop_last(), count);
        let p = trim(pieces.last());
        if let Some(n) = parse_unsigned(p, usize::MAX as nat) {
            assert(n <= usize::MAX);
            if n < count {
                assert(listed_gpus(pieces, count) == rest.push(n as usize));
                assert forall|i: int| 0 <= i < rest.len() + 1 implies #[trigger] rest.push(
                    n as usize,
                )[i] < count by {
                    if i < rest.len() {
                        assert(rest.push(n as usize)[i] == rest[i]);
                    }
                }
            }
        }
    }
}

/// With at least one GPU present, the selection is never empty and names only GPUs that
/// are present.
pub proof fn law_selection_in_range(args: Seq<Seq<char>>, sel: SelView, count: nat)
    requires
        count > 0,
    ensures
        selected_gpus(args, sel, count).len() > 0,
        forall|i: int|
            0 <= i < selected_gpus(args, sel, count).len() ==> #[trigger] selected_gpus(
                args,
                sel,
                count,
            )[i] < count,
{
    crate::config::law_resolved_in_range(sel, count);
    match arg_after(args, "--gpu"@) {
        Some(v) => lemma_listed_bounded(split_comma(v), count),
        None => {},
    }
    assert(all_gpus(count)[0] == 0);
}


/// The brightness of a static color: `--br` read as a `u8`, at most 100; 100 when the
/// option is missing or not a number.
pub open spec fn brightness_of(args: Seq<Seq<char>>) -> u8 {
    match arg_after(args, "--br"@) {
        Some(v) => match parse_unsigned(v, 255) {
            Some(n) => if n < 100 {
                n as u8
            } else {
                100
            },
            None => 100,
        },
        None => 100,
    }
}

/// `--gpu all` (any ASCII case) drives every GPU present, each once, in order, whatever
/// the configuration says.
pub proof fn law_gpu_all_option(args: Seq<Seq<char>>, w: Seq<char>, sel: SelView, count: nat)
    requires
        arg_after(args, "--gpu"@) == Some(w),
        crate::config::is_all_any_case(w),
        count <= usize::MAX,
    ensures
        selected_gpus(args, sel, count).len() == count,
        forall|i: int| 0 <= i < count ==> #[trigger] selected_gpus(args, sel, count)[i] == i,
{
    crate::config::law_all_selects_every_gpu(w, count);
    assert(eq_ignore_ascii_case(w, all_word()));
}

/// `--br n`, with `n` written in decimal, gives brightness `n` up to 100 and 100 above.
pub proof fn law_brightness_value(args: Seq<Seq<char>>, n: nat)
    requires
        n <= 255,
        arg_after(args, "--br"@) == Some(crate::text::dec_digits(n)),
    ensures
        brightness_of(args) == if n <= 100 { n } else { 100 },
{
    crate::text::law_dec_digits_read_back(n);
    let d = crate::text::dec_digits(n);
    assert(unsigned_digits(d) == d);
    assert(parse_unsigned(d, 255) == Some(n));
}

/// The brightness given by `--br` (0 to 100), 100 by default.
pub fn brightness_arg(args: &[String]) -> (br: u8)
    ensures
        br == brightness_of(args_view(args@)),
        br <= 100,
{
    match opt_value(args, "--br") {
        Some(v) => {
            let vc: Vec<char> = str_chars(v.as_str());
            match parse_unsigned_chars(vc.as_slice(), 255) {
                Some(n) => if n < 100 {
                    n as u8
                } else {
                    100
                },
                None => 100,
            }
        },
        None => 100,
    }
}

/// What the command line asks for.
pub enum Command {
    /// Print the usage text.
    Help,
    /// Write the default configuration file.
    Config,
    /// Turn the LEDs off.
    Off,
    /// Read the controller's firmware id.
    Id,
    /// Dump key controller registers.
    Dump,
    /// Follow the GPU temperature.
    Temp,
    /// Cycle through the colors.
    Rainbow,
    /// Set the static color given as the first argument.
    Color,
}

/// The command of an argument list: usage for none, `-h` or `--help`; else the first
/// argument's command, and a color for any other word.
pub open spec fn command_of(args: Seq<Seq<char>>) -> Command {
    if args.len() == 0 || args[0] == "-h"@ || args[0] == "--help"@ {
        Command::Help
    } else if args[0] == "config"@ {
        Command::Config
    } else if args[0] == "off"@ {
        Command::Off
    } else if args[0] == "id"@ {
        Command::Id
    } else if args[0] == "dump"@ {
        Command::Dump
    } else if args[0] == "temp"@ {
        Command::Temp
    } else if args[0] == "rainbow"@ {
        Command::Rainbow
    } else {
        Command::Color
    }
}

fn is_word(a: &Vec<char>, w: &str) -> (r: bool)
    ensures
        r == (a@ == w@),
{
    let wc: Vec<char> = str_chars(w);
    chars_eq(a.as_slice(), wc.as_slice())
}

/// The command that the arguments ask for.
pub fn command(args: &[String]) -> (c: Command)
    ensures
        c == command_of(args_view(args@)),
{
    if args.len() == 0 {
        return Command::Help;
    }
    let a: Vec<char> = str_chars(args[0].as_str());
    assert(a@ == args_view(args@)[0]);
    if is_word(&a, "-h") || is_word(&a, "--help") {
        Command::Help
    } else if is_word(&a, "config") {
        Command::Config
    } else if is_word(&a, "off") {
        Command::Off
    } else if is_word(&a, "id") {
        Command::Id
    } else if is_word(&a, "dump") {
        Command::Dump
    } else if is_word(&a, "temp") {
        Command::Temp
    } else if is_word(&a, "rainbow") {
        Command::Rainbow
    } else {
        Command::Color
    }
}

/// Longest single sleep while waiting, in milliseconds, so that a stop request is seen
/// promptly.
pub const SLEEP_SLICE_MS: u64 = 50;

/// One step of an interruptible wait with `left` milliseconds to go: how long to sleep
/// now, and how much is left after that.
pub fn sleep_step(left: u64) -> (r: (u64, u64))
    ensures
        r.0 == if left < SLEEP_SLICE_MS { left } else { SLEEP_SLICE_MS },
        r.0 + r.1 == left,
{
    let chunk: u64 = if left < SLEEP_SLICE_MS { left } else { SLEEP_SLICE_MS };
    (chunk, left - chunk)
}

/// The sleeps of an uninterrupted wait of `ms` milliseconds, in order.
pub open spec fn sleep_chunks(ms: nat) -> Seq<nat>
    decreases ms,
{
    if ms == 0 {
        Seq::empty()
    } else {
        let c: nat = if ms < 50 { ms } else { 50 };
        seq![c] + sleep_chunks((ms - c) as nat)
    }
}

/// Sum of a sequence of durations.
pub open spec fn total(s: Seq<nat>) -> nat
    decreases s.len(),
{
    if s.len() == 0 {
        0
    } else {
        s[0] + total(s.drop_first())
    }
}

/// An uninterrupted wait sleeps exactly the time asked for, in steps of 1 to 50 ms.
pub proof fn law_sleep_adds_up(ms: nat)
    ensures
        total(sleep_chunks(ms)) == ms,
        forall|i: int| 0 <= i < sleep_chunks(ms).len() ==> 0 < #[trigger] sleep_chunks(ms)[i] <= 50,
    decreases ms,
{
    if ms > 0 {
        let c: nat = if ms < 50 { ms } else { 50 };
        law_sleep_adds_up((ms - c) as nat);
        let s = sleep_chunks(ms);
        assert(s.drop_first() =~= sleep_chunks((ms - c) as nat));
        assert forall|i: int| 0 <= i < s.len() implies 0 < #[trigger] s[i] <= 50 by {
            if i > 0 {
                assert(s[i] == sleep_chunks((ms - c) as nat)[i - 1]);
            }
        }
    }
}

/// Records the color just computed for the `i`-th GPU driven, and says whether its LED
/// must be written: whether the color differs from the one recorded.
pub fn note_color(last: &mut Vec<Rgb>, i: usize, c: Rgb) -> (write: bool)
    requires
        i < old(last)@.len(),
    ensures
        final(last)@ == old(last)@.update(i as int, c),
        write == (old(last)@[i as int] != c),
{
    let (a0, a1, a2) = last[i];
    let (b0, b1, b2) = c;
    let write: bool = a0 != b0 || a1 != b1 || a2 != b2;
    last.set(i, c);
    write
}

/// The color recorded for a GPU before its first reading: no zone color, so the first
/// reading is always written.
pub open spec fn unset_color() -> Rgb {
    (1u8, 1u8, 1u8)
}

/// The recorded colors before the first reading, one per GPU driven.
pub fn initial_colors(n: usize) -> (last: Vec<Rgb>)
    ensures
        last@ == Seq::new(n as nat, |i: int| unset_color()),
{
    let mut last: Vec<Rgb> = Vec::new();
    let mut i: usize = 0;
    while i < n
        invariant
            i <= n,
            last@ == Seq::new(i as nat, |j: int| unset_color()),
        decreases n - i,
    {
        last.push((1, 1, 1));
        i = i + 1;
        assert(last@ =~= Seq::new(i as nat, |j: int| unset_color()));
    }
    last
}

/// A color just recorded needs no second write: noting the same color again for the
/// same GPU asks for no write.
pub proof fn law_note_idempotent(last: Seq<Rgb>, i: int, c: Rgb)
    requires
        0 <= i < last.len(),
    ensures
        !(last.update(i, c)[i] != c),
{
}

/// The colors recorded after the first `j` GPUs of a pass have been noted, one
/// `note_color` call per GPU in order.
pub open spec fn note_pass(last: Seq<Rgb>, colors: Seq<Rgb>, j: nat) -> Seq<Rgb>
    decreases j,
{
    if j == 0 {
        last
    } else {
        note_pass(last, colors, (j - 1) as nat).update(j - 1, colors[j - 1])
    }
}

/// The colors recorded before pass `k` of the temperature loop, starting from `init`,
/// where pass `p` computes the colors `readings[p]` (one per GPU driven).
pub open spec fn recorded_before(init: Seq<Rgb>, readings: Seq<Seq<Rgb>>, k: nat) -> Seq<Rgb>
    decreases k,
{
    if k == 0 {
        init
    } else {
        let prev = recorded_before(init, readings, (k - 1) as nat);
        note_pass(prev, readings[k - 1], readings[k - 1].len())
    }
}

/// Whether pass `k` writes the LED of the `i`-th GPU: `note_color`'s answer at that step.
pub open spec fn written_in_pass(init: Seq<Rgb>, readings: Seq<Seq<Rgb>>, k: nat, i: int) -> bool {
    note_pass(recorded_before(init, readings, k), readings[k as int], i as nat)[i]
        != readings[k as int][i]
}

/// The color last sent to the `i`-th GPU before pass `k` (`init[i]` if none was sent).
pub open spec fn last_sent(init: Seq<Rgb>, readings: Seq<Seq<Rgb>>, k: nat, i: int) -> Rgb
    decreases k,
{
    if k == 0 {
        init[i]
    } else if written_in_pass(init, readings, (k - 1) as nat, i) {
        readings[k - 1][i]
    } else {
        last_sent(init, readings, (k - 1) as nat, i)
    }
}

proof fn lemma_note_pass(last: Seq<Rgb>, colors: Seq<Rgb>, j: nat, i: int)
    requires
        last.len() == colors.len(),
        j <= colors.len(),
        0 <= i < last.len(),
    ensures
        note_pass(last, colors, j).len() == last.len(),
        note_pass(last, colors, j)[i] == if i < j { colors[i] } else { last[i] },
    decreases j,
{
    if j > 0 {
        lemma_note_pass(last, colors, (j - 1) as nat, i);
        lemma_note_pass(last, colors, (j - 1) as nat, (j - 1) as int);
    }
}

proof fn lemma_recorded_is_last_sent(init: Seq<Rgb>, readings: Seq<Seq<Rgb>>, k: nat, i: int)
    requires
        forall|p: int| 0 <= p < readings.len() ==> #[trigger] readings[p].len() == init.len(),
        k <= readings.len(),
        0 <= i < init.len(),
    ensures
        recorded_before(init, readings, k).len() == init.len(),
        recorded_before(init, readings, k)[i] == last_sent(init, readings, k, i),
    decreases k,
{
    if k > 0 {
        let p: int = k - 1;
        lemma_recorded_is_last_sent(init, readings, (k - 1) as nat, i);
        let prev = recorded_before(init, readings, (k - 1) as nat);
        assert(readings[p].len() == init.len());
        lemma_note_pass(prev, readings[p], readings[p].len(), i);
        lemma_note_pass(prev, readings[p], i as nat, i);
    }
}

/// Across the passes of the temperature loop (with no failed write), a GPU's LED is
/// written in a pass exactly when the color computed for it differs from the color last
/// sent to it: no LED is ever written twice in a row with the same color.
pub proof fn law_no_redundant_writes(init: Seq<Rgb>, readings: Seq<Seq<Rgb>>, k: nat, i: int)
    requires
        forall|p: int| 0 <= p < readings.len() ==> #[trigger] readings[p].len() == init.len(),
        k < readings.len(),
        0 <= i < init.len(),
    ensures
        written_in_pass(init, readings, k, i) <==> readings[k as int][i] != last_sent(
            init,
            readings,
            k,
            i,
        ),
{
    lemma_recorded_is_last_sent(init, readings, k, i);
    let prev = recorded_before(init, readings, k);
    assert(readings[k as int].len() == init.len());
    lemma_note_pass(prev, readings[k as int], i as nat, i);
}

/// No zone color is the unset color, so the first reading of every GPU is written when
/// it shows a zone color.
pub proof fn law_first_zone_color_written(z: nat)
    ensures
        crate::led::zone_color(z) != unset_color(),
{
}

/// Bytes as two-digit upper-case hex, one space apart.
pub open spec fn hex_line_text(d: Seq<u8>) -> Seq<char>
    decreases d.len(),
{
    if d.len() == 0 {
        Seq::empty()
    } else if d.len() == 1 {
        hex_byte_chars(d[0])
    } else {
        hex_line_text(d.drop_last()) + " "@ + hex_byte_chars(d.last())
    }
}

/// The bytes of a dumped register as a line of hex (`{:02X}` joined by spaces).
pub fn hex_line(d: &[u8]) -> (s: String)
    ensures
        s@ == hex_line_text(d@),
{
    let mut s: String = String::new();
    let mut i: usize = 0;
    while i < d.len()
        invariant
            i <= d@.len(),
            s@ == hex_line_text(d@.take(i as int)),
        decreases d@.len() - i,
    {
        assert(d@.take(i + 1).drop_last() =~= d@.take(i as int));
        if i > 0 {
            push_str(&mut s, " ");
        }
        push_hex_byte(&mut s, d[i]);
        i = i + 1;
        assert(s@ =~= hex_line_text(d@.take(i as int)));
    }
    assert(d@.take(i as int) =~= d@);
    s
}

} // verus!
