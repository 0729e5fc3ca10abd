//! Palit "PALIT 150" RGB controller protocol (I2C device 0x92, port 1).
//! Static-color sequence confirmed on hardware (RTX 3090, model 1502).
//!
//! The functions here say which registers to write and read, and with what; the program
//! around this library performs the transfers over NvAPI I2C.

use vstd::prelude::*;
use vstd::slice::slice_to_vec;

verus! {

/// I2C device address of the LED controller.
pub const DEV: u8 = 0x92;
/// I2C port of the LED controller.
pub const PORT: u8 = 1;

/// Register of the color table (two slots).
pub const REG_COLORTBL: u8 = 0x6C;
/// Register of the effect packet.
pub const REG_PACKET: u8 = 0xE0;
/// Register that commits the written settings.
pub const REG_COMMIT: u8 = 0x60;
/// Register that holds the firmware id.
pub const REG_FWID: u8 = 0xF0;
/// Number of bytes read from a register by `read_fw_id` and `dump`.
pub const READ_LEN: usize = 16;

/// An RGB color.
pub type Rgb = (u8, u8, u8);

/// One register write: the register and the bytes written to it.
pub struct RegWrite {
    pub reg: u8,
    pub data: Vec<u8>,
}

impl View for RegWrite {
    type V = (u8, Seq<u8>);

    open spec fn view(&self) -> (u8, Seq<u8>) {
        (self.reg, self.data@)
    }
}

/// The register writes that set a solid static color, in the order they are sent.
/// Byte order on the wire is `[R, G, B]`; brightness is 0..=100.
pub open spec fn static_color_writes(r: u8, g: u8, b: u8, br: u8) -> Seq<(u8, Seq<u8>)> {
    seq![
        // two slots with the same color: avoids stale-slot blending
        (REG_COLORTBL, seq![r, g, b, br, r, g, b, br]),
        // header byte 0 = static effect
        (REG_PACKET, seq![0u8, 0u8, 0u8, 0u8, r, g, b, br, 5u8]),
        (REG_COMMIT, seq![1u8]),
    ]
}

/// The writes of a vector of `RegWrite`, as plain values.
pub open spec fn writes_view(w: Seq<RegWrite>) -> Seq<(u8, Seq<u8>)> {
    w.map_values(|x: RegWrite| x@)
}

/// The register writes that set a solid static color on one GPU's LED.
pub fn set_color(r: u8, g: u8, b: u8, br: u8) -> (w: Vec<RegWrite>)
    ensures
        writes_view(w@) == static_color_writes(r, g, b, br),
{
    let tbl: Vec<u8> = vec![r, g, b, br, r, g, b, br];
    let pkt: Vec<u8> = vec![0, 0, 0, 0, r, g, b, br, 5];
    let commit: Vec<u8> = vec![1];
    assert(tbl@ =~= seq![r, g, b, br, r, g, b, br]);
    assert(pkt@ =~= seq![0u8, 0u8, 0u8, 0u8, r, g, b, br, 5u8]);
    assert(commit@ =~= seq![1u8]);
    let w: Vec<RegWrite> = vec![
        RegWrite { reg: REG_COLORTBL, data: tbl },
        RegWrite { reg: REG_PACKET, data: pkt },
        RegWrite { reg: REG_COMMIT, data: commit },
    ];
    assert(w@[0]@ == (REG_COLORTBL, seq![r, g, b, br, r, g, b, br]));
    assert(writes_view(w@) =~= static_color_writes(r, g, b, br));
    w
}

/// The color goes on the wire as `[R, G, B]` followed by the brightness: twice in the
/// color table, once after the four header bytes of the packet, whose first (effect)
/// byte is 0 for static; the table is written first, the commit last.
pub proof fn law_wire_order(r: u8, g: u8, b: u8, br: u8)
    ensures
        ({
            let w = static_color_writes(r, g, b, br);
            &&& w.len() == 3
            &&& w[0].0 == REG_COLORTBL && w[1].0 == REG_PACKET && w[2].0 == REG_COMMIT
            &&& w[0].1 == seq![r, g, b, br] + seq![r, g, b, br]
            &&& w[1].1.len() == 9 && w[1].1[0] == 0 && w[1].1.subrange(4, 8) == seq![r, g, b, br]
        }),
{
    let w = static_color_writes(r, g, b, br);
    assert(w[0].1 =~= seq![r, g, b, br] + seq![r, g, b, br]);
    assert(w[1].1.subrange(4, 8) =~= seq![r, g, b, br]);
}

/// The register writes that turn the LED off: black at brightness 0.
pub fn off() -> (w: Vec<RegWrite>)
    ensures
        writes_view(w@) == static_color_writes(0, 0, 0, 0),
{
    set_color(0, 0, 0, 0)
}


/// What color a temperature shows: a zone color, or a blend between two zone colors at
/// the fraction `num / den` of the way from `from` to `to`.
pub enum TempColor {
    Solid(Rgb),
    Blend { from: Rgb, to: Rgb, num: i32, den: i32 },
}

/// The zone of a temperature: 0 green, 1 yellow, 2 orange, 3 red.
pub open spec fn temp_zone(t: i32, green_max: i32, yellow_max: i32, orange_max: i32) -> nat {
    if t <= green_max {
        0
    } else if t <= yellow_max {
        1
    } else if t <= orange_max {
        2
    } else {
        3
    }
}

/// The color of a zone: green, yellow, orange, red.
pub open spec fn zone_color(z: nat) -> Rgb {
    if z == 0 {
        (0u8, 255u8, 0u8)
    } else if z == 1 {
        (255u8, 255u8, 0u8)
    } else if z == 2 {
        (255u8, 140u8, 0u8)
    } else {
        (255u8, 0u8, 0u8)
    }
}

/// Temperature to color over four zones: green / yellow / orange / red.
/// Discrete zones by default; `smooth` blends between the zone colors, from the lower
/// bound of a zone (exclusive) up to its upper bound, and is fully red at and after
/// `red_full`.
pub open spec fn temp_color(
    t: i32,
    green_max: i32,
    yellow_max: i32,
    orange_max: i32,
    red_full: i32,
    smooth: bool,
) -> TempColor {
    if !smooth || t <= green_max {
        TempColor::Solid(zone_color(temp_zone(t, green_max, yellow_max, orange_max)))
    } else if t <= yellow_max {
        TempColor::Blend {
            from: zone_color(0),
            to: zone_color(1),
            num: (t - green_max) as i32,
            den: (yellow_max - green_max) as i32,
        }
    } else if t <= orange_max {
        TempColor::Blend {
            from: zone_color(1),
            to: zone_color(2),
            num: (t - yellow_max) as i32,
            den: (orange_max - yellow_max) as i32,
        }
    } else if t < red_full {
        TempColor::Blend {
            from: zone_color(2),
            to: zone_color(3),
            num: (t - orange_max) as i32,
            den: (red_full - orange_max) as i32,
        }
    } else {
        TempColor::Solid(zone_color(3))
    }
}

/// The width of the smooth zone that `t` falls in fits an `i32` (the differences of
/// temperatures are taken in `i32`).
pub open spec fn blend_fits(
    t: i32,
    green_max: i32,
    yellow_max: i32,
    orange_max: i32,
    red_full: i32,
    smooth: bool,
) -> bool {
    smooth && t > green_max ==> if t <= yellow_max {
        yellow_max - green_max <= i32::MAX
    } else if t <= orange_max {
        orange_max - yellow_max <= i32::MAX
    } else if t < red_full {
        red_full - orange_max <= i32::MAX
    } else {
        true
    }
}

/// Temperature to color over 4 zones: green / yellow / orange / red.
/// Discrete zones by default; `smooth` interpolates between zone colors.
///   green  : t <= green_max
///   yellow : green_max < t <= yellow_max
///   orange : yellow_max < t <= orange_max
///   red    : t > orange_max  (fully red at/after `red_full` when smooth)
/// A blend is returned as its two colors and fraction; the caller mixes them.
pub fn temp_to_color(
    t: i32,
    green_max: i32,
    yellow_max: i32,
    orange_max: i32,
    red_full: i32,
    smooth: bool,
) -> (c: TempColor)
    requires
        blend_fits(t, green_max, yellow_max, orange_max, red_full, smooth),
    ensures
        c == temp_color(t, green_max, yellow_max, orange_max, red_full, smooth),
{
    let green: Rgb = (0, 255, 0);
    let yellow: Rgb = (255, 255, 0);
    let orange: Rgb = (255, 140, 0);
    let red: Rgb = (255, 0, 0);
    if !smooth {
        return if t <= green_max {
            TempColor::Solid(green)
        } else if t <= yellow_max {
            TempColor::Solid(yellow)
        } else if t <= orange_max {
            TempColor::Solid(orange)
        } else {
            TempColor::Solid(red)
        };
    }
    if t <= green_max {
        TempColor::Solid(green)
    } else if t <= yellow_max {
        TempColor::Blend { from: green, to: yellow, num: t - green_max, den: yellow_max - green_max }
    } else if t <= orange_max {
        TempColor::Blend {
            from: yellow,
            to: orange,
            num: t - yellow_max,
            den: orange_max - yellow_max,
        }
    } else if t < red_full {
        TempColor::Blend { from: orange, to: red, num: t - orange_max, den: red_full - orange_max }
    } else {
        TempColor::Solid(red)
    }
}

/// Whether `temp_to_color` may be called: the width of the smooth zone that `t` falls in
/// fits an `i32`.
pub fn blend_in_range(
    t: i32,
    green_max: i32,
    yellow_max: i32,
    orange_max: i32,
    red_full: i32,
    smooth: bool,
) -> (ok: bool)
    ensures
        ok == blend_fits(t, green_max, yellow_max, orange_max, red_full, smooth),
{
    if !(smooth && t > green_max) {
        true
    } else if t <= yellow_max {
        (yellow_max as i64) - (green_max as i64) <= i32::MAX as i64
    } else if t <= orange_max {
        (orange_max as i64) - (yellow_max as i64) <= i32::MAX as i64
    } else if t < red_full {
        (red_full as i64) - (orange_max as i64) <= i32::MAX as i64
    } else {
        true
    }
}

/// A hotter temperature is never in a cooler zone.
pub proof fn law_zone_monotone(t1: i32, t2: i32, green_max: i32, yellow_max: i32, orange_max: i32)
    requires
        t1 <= t2,
    ensures
        temp_zone(t1, green_max, yellow_max, orange_max) <= temp_zone(
            t2,
            green_max,
            yellow_max,
            orange_max,
        ),
{
}

/// A blend goes from a zone color to the next one, at a fraction in (0, 1].
pub proof fn law_blend_fraction(
    t: i32,
    green_max: i32,
    yellow_max: i32,
    orange_max: i32,
    red_full: i32,
    smooth: bool,
)
    requires
        blend_fits(t, green_max, yellow_max, orange_max, red_full, smooth),
    ensures
        temp_color(t, green_max, yellow_max, orange_max, red_full, smooth) matches TempColor::Blend {
            from,
            to,
            num,
            den,
        } ==> 0 < num <= den && exists|z: nat| z < 3 && from == #[trigger] zone_color(z) && to == zone_color(
            z + 1,
        ),
{
    let c = temp_color(t, green_max, yellow_max, orange_max, red_full, smooth);
    if let TempColor::Blend { from, to, num, den } = c {
        if t <= yellow_max {
            assert(from == zone_color(0) && to == zone_color(0 + 1));
        } else if t <= orange_max {
            assert(from == zone_color(1) && to == zone_color(1 + 1));
        } else {
            assert(from == zone_color(2) && to == zone_color(2 + 1));
        }
    }
}

/// Smooth and discrete modes agree where smooth mode shows a solid color: green up to
/// `green_max`, red above `orange_max` from `red_full` on (zones in their order).
pub proof fn law_modes_agree_at_ends(
    t: i32,
    green_max: i32,
    yellow_max: i32,
    orange_max: i32,
    red_full: i32,
)
    requires
        green_max <= yellow_max <= orange_max,
        t <= green_max || (t > orange_max && t >= red_full),
    ensures
        temp_color(t, green_max, yellow_max, orange_max, red_full, true) == temp_color(
            t,
            green_max,
            yellow_max,
            orange_max,
            red_full,
            false,
        ),
{
}

/// A complete blend (fraction 1, at the upper bound of a yellow or orange zone) ends on
/// the color that discrete mode shows at that temperature.
pub proof fn law_blend_ends_on_zone_color(
    t: i32,
    green_max: i32,
    yellow_max: i32,
    orange_max: i32,
    red_full: i32,
)
    requires
        blend_fits(t, green_max, yellow_max, orange_max, red_full, true),
        t <= orange_max,
    ensures
        temp_color(t, green_max, yellow_max, orange_max, red_full, true) matches TempColor::Blend {
            from,
            to,
            num,
            den,
        } ==> (num == den ==> temp_color(t, green_max, yellow_max, orange_max, red_full, false)
            == TempColor::Solid(to)),
{
}


/// How the firmware id shows a byte: printable ASCII as itself, anything else as `.`.
pub open spec fn fw_id_char(b: u8) -> char {
    if 32 <= b < 127 {
        (b as u32) as char
    } else {
        '.'
    }
}

/// Every printable ASCII byte (32 to 126) shows as itself, every other byte as `.`,
/// one character per byte.
pub proof fn law_fw_id_keeps_printable(data: Seq<u8>)
    ensures
        fw_id_text(data).len() == data.len(),
        forall|i: int|
            0 <= i < data.len() && 32 <= data[i] && data[i] < 127 ==> #[trigger] fw_id_text(data)[i]
                == (data[i] as u32) as char,
        forall|i: int|
            0 <= i < data.len() && !(32 <= data[i] && data[i] < 127) ==> #[trigger] fw_id_text(
                data,
            )[i] == '.',
{
}

/// The firmware id text of the bytes read from `REG_FWID`.
pub open spec fn fw_id_text(data: Seq<u8>) -> Seq<char> {
    data.map_values(|b: u8| fw_id_char(b))
}

/// The LED controller's firmware id, from the `READ_LEN` bytes read at `REG_FWID`:
/// printable ASCII kept, every other byte shown as `.`.
pub fn read_fw_id(data: &[u8]) -> (s: String)
    ensures
        s@ == fw_id_text(data@),
{
    let mut s: String = String::new();
    let mut i: usize = 0;
    while i < data.len()
        invariant
            i <= data@.len(),
            s@ == fw_id_text(data@.take(i as int)),
        decreases data@.len() - i,
    {
        let b: u8 = data[i];
        let c: char = if 32 <= b && b < 127 { b as char } else { '.' };
        crate::text::push_chars(&mut s, &[c]);
        i = i + 1;
        assert(s@ =~= fw_id_text(data@.take(i as int)));
    }
    assert(data@.take(i as int) =~= data@);
    s
}

/// The registers that `dump` reads, in order.
pub open spec fn dump_regs() -> Seq<u8> {
    seq![REG_COMMIT, REG_COLORTBL, 0xB0u8, REG_PACKET, REG_FWID]
}

/// The registers to read for a dump of the controller, in order.
pub fn dump_registers() -> (r: Vec<u8>)
    ensures
        r@ == dump_regs(),
{
    let r: Vec<u8> = vec![REG_COMMIT, REG_COLORTBL, 0xB0, REG_PACKET, REG_FWID];
    assert(r@ =~= dump_regs());
    r
}

/// The outcome of one register read, as plain values.
pub open spec fn read_view(x: (u8, Option<Vec<u8>>)) -> (u8, Option<Seq<u8>>) {
    (
        x.0,
        match x.1 {
            Some(d) => Some(d@),
            None => None,
        },
    )
}

/// The registers whose read succeeded, with their bytes, in order.
pub open spec fn dumped(reads: Seq<(u8, Option<Seq<u8>>)>) -> Seq<(u8, Seq<u8>)>
    decreases reads.len(),
{
    if reads.len() == 0 {
        Seq::empty()
    } else {
        let rest = dumped(reads.drop_last());
        match reads.last().1 {
            Some(d) => rest.push((reads.last().0, d)),
            None => rest,
        }
    }
}

/// The dump keeps every successful read and only those, in order, each as its register
/// and bytes; when every read succeeds, the dump is all of them.
pub proof fn law_dump_keeps_every_success(reads: Seq<(u8, Option<Seq<u8>>)>)
    ensures
        dumped(reads) == reads.filter_map(
            |x: (u8, Option<Seq<u8>>)|
                match x.1 {
                    Some(d) => Some((x.0, d)),
                    None => None,
                },
        ),
        (forall|i: int| 0 <= i < reads.len() ==> #[trigger] reads[i].1 is Some) ==> dumped(reads).len()
            == reads.len() && forall|i: int|
            0 <= i < reads.len() ==> #[trigger] dumped(reads)[i] == (reads[i].0, reads[i].1->0),
    decreases reads.len(),
{
    let f = |x: (u8, Option<Seq<u8>>)|
        match x.1 {
            Some(d) => Some((x.0, d)),
            None => None,
        };
    if reads.len() > 0 {
        law_dump_keeps_every_success(reads.drop_last());
        let rest = dumped(reads.drop_last());
        if let Some(d) = reads.last().1 {
            assert(rest.push((reads.last().0, d)) =~= rest + seq![(reads.last().0, d)]);
        }
        if forall|i: int| 0 <= i < reads.len() ==> #[trigger] reads[i].1 is Some {
            let dl = reads.drop_last();
            assert forall|i: int| 0 <= i < dl.len() implies #[trigger] dl[i].1 is Some by {
                assert(dl[i] == reads[i]);
            }
            assert(reads[reads.len() - 1].1 is Some);
            assert forall|i: int| 0 <= i < reads.len() implies #[trigger] dumped(reads)[i] == (
                reads[i].0,
                reads[i].1->0,
            ) by {
                if i < dl.len() {
                    assert(dl[i] == reads[i]);
                    assert(dumped(dl)[i] == (dl[i].0, dl[i].1->0));
                }
            }
        }
    } else {
        assert(dumped(reads) =~= reads.filter_map(f));
    }
}

/// A dump of key controller registers: of the reads made, those that succeeded, in order
/// (a failed read is left out).
pub fn dump(reads: &Vec<(u8, Option<Vec<u8>>)>) -> (out: Vec<(u8, Vec<u8>)>)
    ensures
        out@.map_values(|x: (u8, Vec<u8>)| (x.0, x.1@)) == dumped(
            reads@.map_values(|x: (u8, Option<Vec<u8>>)| read_view(x)),
        ),
{
    let ghost rv: Seq<(u8, Option<Seq<u8>>)> = reads@.map_values(
        |x: (u8, Option<Vec<u8>>)| read_view(x),
    );
    let mut out: Vec<(u8, Vec<u8>)> = Vec::new();
    let mut i: usize = 0;
    while i < reads.len()
        invariant
            i <= reads@.len(),
            rv == reads@.map_values(|x: (u8, Option<Vec<u8>>)| read_view(x)),
            out@.map_values(|x: (u8, Vec<u8>)| (x.0, x.1@)) == dumped(rv.take(i as int)),
        decreases reads@.len() - i,
    {
        assert(rv.take(i + 1).drop_last() =~= rv.take(i as int));
        assert(rv.take(i + 1).last() == read_view(reads@[i as int]));
        let reg: u8 = reads[i].0;
        match &reads[i].1 {
            Some(d) => {
                let copy: Vec<u8> = slice_to_vec(d.as_slice());
                out.push((reg, copy));
            },
            None => {},
        }
        i = i + 1;
        assert(out@.map_values(|x: (u8, Vec<u8>)| (x.0, x.1@)) =~= dumped(rv.take(i as int)));
    }
    assert(rv.take(i as int) =~= rv);
    out
}

} // verus!
