//! The text side of the tray program: wide strings for the Windows API, the tooltip, and
//! the refresh interval.

use vstd::prelude::*;
use crate::text::{dec_digits, push_dec, push_signed_dec, push_str, signed_dec_digits, str_chars};

verus! {

/// The UTF-16 code units of one character.
pub open spec fn utf16_units(c: char) -> Seq<u16> {
    let u: u32 = c as u32;
    if u < 0x10000 {
        seq![u as u16]
    } else {
        let v: int = u - 0x10000;
        seq![(0xD800 + v / 1024) as u16, (0xDC00 + v % 1024) as u16]
    }
}

/// The UTF-16 encoding of a string (`str::encode_utf16`).
pub open spec fn encode_utf16(s: Seq<char>) -> Seq<u16>
    decreases s.len(),
{
    if s.len() == 0 {
        Seq::empty()
    } else {
        encode_utf16(s.drop_last()) + utf16_units(s.last())
    }
}

/// A string as a NUL-terminated UTF-16 string for the Windows API.
pub fn wide(s: &str) -> (w: Vec<u16>)
    ensures
        w@ == encode_utf16(s@).push(0),
{
    let cs: Vec<char> = str_chars(s);
    let mut w: Vec<u16> = Vec::new();
    let mut i: usize = 0;
    while i < cs.len()
        invariant
            cs@ == s@,
            i <= cs@.len(),
            w@ == encode_utf16(cs@.take(i as int)),
        decreases cs@.len() - i,
    {
        let c: char = cs[i];
        let u: u32 = c as u32;
        proof {
            vstd::utf8::char_is_scalar(c);
        }
        assert(cs@.take(i + 1).drop_last() =~= cs@.take(i as int));
        assert(cs@.take(i + 1).last() == cs@[i as int]);
        if u < 0x10000 {
            w.push(u as u16);
        } else {
            assert(u <= 0x10FFFF);
            let v: u32 = u - 0x10000;
            assert(v >> 10 == v / 1024) by (bit_vector);
            assert(v & 0x3FF == v % 1024) by (bit_vector);
            w.push((0xD800 + (v >> 10)) as u16);
            w.push((0xDC00 + (v & 0x3FF)) as u16);
        }
        i = i + 1;
        assert(w@ =~= encode_utf16(cs@.take(i as int)));
    }
    assert(cs@.take(i as int) =~= cs@);
    w.push(0);
    w
}

/// Writes the tooltip `text` into the tooltip buffer `tip`: as much of its NUL-terminated
/// UTF-16 form as fits, the rest of the buffer left as it was.
pub fn set_tip(tip: &mut [u16], text: &str)
    ensures
        ({
            let w = encode_utf16(text@).push(0);
            let n: int = if w.len() < old(tip)@.len() { w.len() as int } else { old(tip)@.len() as int };
            final(tip)@ == w.take(n) + old(tip)@.skip(n)
        }),
{
    let w: Vec<u16> = wide(text);
    let n: usize = if w.len() < tip.len() { w.len() } else { tip.len() };
    let mut i: usize = 0;
    while i < n
        invariant
            n <= w@.len(),
            n <= old(tip)@.len(),
            tip@.len() == old(tip)@.len(),
            i <= n,
            tip@ == w@.take(i as int) + old(tip)@.skip(i as int),
        decreases n - i,
    {
        tip[i] = w[i];
        i = i + 1;
        assert(tip@ =~= w@.take(i as int) + old(tip)@.skip(i as int));
    }
}

/// One GPU's part of the tooltip: `GPU<index> <temperature>C`.
pub open spec fn tip_entry(gpu: usize, temp: i32) -> Seq<char> {
    "GPU"@ + dec_digits(gpu as nat) + " "@ + signed_dec_digits(temp as int) + "C"@
}

/// The entries of the first `k` GPUs, two spaces apart.
pub open spec fn tip_entries(gpus: Seq<usize>, temps: Seq<i32>, k: nat) -> Seq<char>
    decreases k,
{
    if k == 0 {
        Seq::empty()
    } else if k == 1 {
        tip_entry(gpus[0], temps[0])
    } else {
        tip_entries(gpus, temps, (k - 1) as nat) + "  "@ + tip_entry(
            gpus[k - 1],
            temps[k - 1],
        )
    }
}

/// The tray tooltip: `palit-led`, two spaces, then each GPU with its temperature.
pub open spec fn tip_text(gpus: Seq<usize>, temps: Seq<i32>) -> Seq<char> {
    "palit-led  "@ + tip_entries(gpus, temps, gpus.len())
}

/// The tray tooltip for the GPUs driven and the temperatures just read.
pub fn tray_tip(gpus: &[usize], temps: &[i32]) -> (s: String)
    requires
        gpus@.len() == temps@.len(),
    ensures
        s@ == tip_text(gpus@, temps@),
{
    let mut s: String = String::new();
    push_str(&mut s, "palit-led  ");
    let ghost head: Seq<char> = s@;
    let mut i: usize = 0;
    while i < gpus.len()
        invariant
            gpus@.len() == temps@.len(),
            i <= gpus@.len(),
            head == "palit-led  "@,
            s@ == head + tip_entries(gpus@, temps@, i as nat),
        decreases gpus@.len() - i,
    {
        if i > 0 {
            push_str(&mut s, "  ");
        }
        push_str(&mut s, "GPU");
        push_dec(&mut s, gpus[i] as u64);
        push_str(&mut s, " ");
        push_signed_dec(&mut s, temps[i] as i64);
        push_str(&mut s, "C");
        i = i + 1;
        assert(s@ =~= head + tip_entries(gpus@, temps@, i as nat));
    }
    s
}

/// Shortest refresh interval of the tray, in milliseconds.
pub const TRAY_MIN_INTERVAL_MS: u64 = 200;

/// The tray's timer period: the configured interval, at least 200 ms, as the `u32` the
/// timer takes (truncated as `as u32` does).
pub fn tray_interval(interval_ms: u64) -> (ms: u32)
    ensures
        ms == (if interval_ms < TRAY_MIN_INTERVAL_MS { TRAY_MIN_INTERVAL_MS } else { interval_ms }) as u32,
{
    let m: u64 = if interval_ms < TRAY_MIN_INTERVAL_MS { TRAY_MIN_INTERVAL_MS } else { interval_ms };
    m as u32
}

} // verus!
