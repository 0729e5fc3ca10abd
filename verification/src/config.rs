//! Configuration values: which GPUs to drive, and the settings of the temperature and
//! static modes. The file format itself is TOML, read by the program around this library.

use vstd::prelude::*;
use crate::text::{chars_eq_ignore_ascii_case, eq_ignore_ascii_case, str_chars};

verus! {

/// GPU selection: the word `all` (any ASCII case), or a list of GPU indices.
pub enum GpuSel {
    All(String),
    List(Vec<usize>),
}

/// The word that selects every GPU.
pub open spec fn all_word() -> Seq<char> {
    seq!['a', 'l', 'l']
}

/// `0, 1, ..., count - 1`.
pub open spec fn all_gpus(count: nat) -> Seq<usize> {
    Seq::new(count, |i: int| i as usize)
}

/// The indices of `v` below `count`, in their order.
pub open spec fn below(v: Seq<usize>, count: nat) -> Seq<usize>
    decreases v.len(),
{
    if v.len() == 0 {
        Seq::empty()
    } else if v.last() < count {
        below(v.drop_last(), count).push(v.last())
    } else {
        below(v.drop_last(), count)
    }
}

/// A selection as plain values: the text of `All`, or the indices of `List`.
pub enum SelView {
    Word(Seq<char>),
    Indices(Seq<usize>),
}

impl View for GpuSel {
    type V = SelView;

    open spec fn view(&self) -> SelView {
        match self {
            GpuSel::All(s) => SelView::Word(s@),
            GpuSel::List(v) => SelView::Indices(v@),
        }
    }
}

/// The GPUs a selection names when `count` GPUs are present.
pub open spec fn resolved(sel: SelView, count: nat) -> Seq<usize> {
    match sel {
        SelView::Word(s) => if eq_ignore_ascii_case(s, all_word()) {
            all_gpus(count)
        } else {
            seq![0usize]
        },
        SelView::Indices(v) => below(v, count),
    }
}

proof fn lemma_below_bounded(v: Seq<usize>, count: nat)
    ensures
        forall|i: int| 0 <= i < below(v, count).len() ==> #[trigger] below(v, count)[i] < count,
        below(v, count).len() <= v.len(),
    decreases v.len(),
{
    if v.len() > 0 {
        lemma_below_bounded(v.drop_last(), count);
    }
}

/// The indices `0..count` as a vector.
pub fn gpu_range(count: usize) -> (r: Vec<usize>)
    ensures
        r@ == all_gpus(count as nat),
{
    let mut r: Vec<usize> = Vec::new();
    let mut i: usize = 0;
    while i < count
        invariant
            i <= count,
            r@ =~= all_gpus(i as nat),
        decreases count - i,
    {
        r.push(i);
        i = i + 1;
    }
    r
}

/// The indices of `v` below `count`, in their order.
pub fn keep_below(v: &[usize], count: usize) -> (r: Vec<usize>)
    ensures
        r@ == below(v@, count as nat),
{
    let mut r: Vec<usize> = Vec::new();
    let mut i: usize = 0;
    while i < v.len()
        invariant
            i <= v@.len(),
            r@ == below(v@.take(i as int), count as nat),
        decreases v@.len() - i,
    {
        assert(v@.take(i + 1).drop_last() =~= v@.take(i as int));
        if v[i] < count {
            r.push(v[i]);
        }
        i = i + 1;
    }
    assert(v@.take(v@.len() as int) =~= v@);
    r
}

impl GpuSel {
    /// The GPUs this selection names when `count` GPUs are present: every GPU for `all`,
    /// GPU 0 for any other word, and the listed indices below `count` for a list.
    pub fn resolve(&self, count: usize) -> (r: Vec<usize>)
        ensures
            r@ == resolved(self@, count as nat),
    {
        match self {
            GpuSel::All(s) => {
                let word: Vec<char> = str_chars(s.as_str());
                let all: Vec<char> = vec!['a', 'l', 'l'];
                assert(all@ =~= all_word());
                if chars_eq_ignore_ascii_case(word.as_slice(), all.as_slice()) {
                    gpu_range(count)
                } else {
                    let r: Vec<usize> = vec![0];
                    assert(r@ =~= seq![0usize]);
                    r
                }
            },
            GpuSel::List(v) => keep_below(v.as_slice(), count),
        }
    }
}

/// Every index that a selection resolves to is below the number of GPUs present.
pub proof fn law_resolved_in_range(sel: SelView, count: nat)
    requires
        count > 0,
    ensures
        forall|i: int| 0 <= i < resolved(sel, count).len() ==> #[trigger] resolved(sel, count)[i]
            < count,
{
    match sel {
        SelView::Word(s) => {},
        SelView::Indices(v) => lemma_below_bounded(v, count),
    }
}

/// Whether `w` is the word `all` in any ASCII case.
pub open spec fn is_all_any_case(w: Seq<char>) -> bool {
    &&& w.len() == 3
    &&& (w[0] == 'a' || w[0] == 'A')
    &&& (w[1] == 'l' || w[1] == 'L')
    &&& (w[2] == 'l' || w[2] == 'L')
}

/// The word `all`, in any ASCII case, selects every GPU present, each once, in order:
/// `0, 1, ..., count - 1`.
pub proof fn law_all_selects_every_gpu(w: Seq<char>, count: nat)
    requires
        is_all_any_case(w),
        count <= usize::MAX,
    ensures
        resolved(SelView::Word(w), count).len() == count,
        forall|i: int| 0 <= i < count ==> #[trigger] resolved(SelView::Word(w), count)[i] == i,
{
    assert(eq_ignore_ascii_case(w, all_word()));
}

/// A list selection keeps exactly the listed indices below the number of GPUs present,
/// in the listed order (duplicates kept).
pub proof fn law_list_keeps_present(v: Seq<usize>, count: nat)
    ensures
        resolved(SelView::Indices(v), count) == v.filter(|i: usize| i < count),
    decreases v.len(),
{
    reveal_with_fuel(Seq::<usize>::filter, 1);
    if v.len() > 0 {
        law_list_keeps_present(v.drop_last(), count);
    }
}

impl Default for GpuSel {
    /// The first GPU.
    fn default() -> (r: GpuSel)
        ensures
            r@ == SelView::Indices(seq![0usize]),
    {
        let v: Vec<usize> = vec![0];
        assert(v@ =~= seq![0usize]);
        GpuSel::List(v)
    }
}

/// Settings of the temperature mode.
pub struct TempCfg {
    /// Time between two readings, in milliseconds.
    pub interval_ms: u64,
    /// Green up to and including this temperature.
    pub green_max: i32,
    /// Yellow above `green_max`, up to and including this temperature.
    pub yellow_max: i32,
    /// Orange above `yellow_max`, up to and including this temperature; red above.
    pub orange_max: i32,
    /// In smooth mode, fully red at and after this temperature.
    pub red_full: i32,
    /// Blend between the zone colors rather than switch between them.
    pub smooth: bool,
}

impl Default for TempCfg {
    fn default() -> (r: TempCfg)
        ensures
            r.interval_ms == 1000,
            r.green_max == 57,
            r.yellow_max == 68,
            r.orange_max == 75,
            r.red_full == 82,
            r.smooth,
    {
        TempCfg {
            interval_ms: 1000,
            green_max: 57,
            yellow_max: 68,
            orange_max: 75,
            red_full: 82,
            smooth: true,
        }
    }
}

/// Settings of the static color.
pub struct StaticCfg {
    /// Color as `RRGGBB` hex.
    pub color: String,
    /// Brightness, 0 to 100.
    pub brightness: u8,
}

impl Default for StaticCfg {
    fn default() -> (r: StaticCfg)
        ensures
            r.color@ == seq!['0', '0', 'F', 'F', '0', '0'],
            r.brightness == 100,
    {
        let green: Vec<char> = vec!['0', '0', 'F', 'F', '0', '0'];
        let mut color: String = String::new();
        crate::text::push_chars(&mut color, green.as_slice());
        assert(color@ =~= seq!['0', '0', 'F', 'F', '0', '0']);
        StaticCfg { color, brightness: 100 }
    }
}

} // verus!
