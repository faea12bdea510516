//! Parser for tmux window layout strings such as `b25d,80x24,0,0{40x24,0,0,1,39x24,41,0,2}`.
use vstd::prelude::*;
use vstd::string::StringSliceAdditionalSpecFns;

use crate::line::{all_digits, digits_value, parse_u64, u64_of};
use crate::unvis::DIGIT_ZERO;

verus! {

/// Geometry of one pane, or of the region of a split; `pane_id` is 0 where the
/// layout gives none.
#[derive(Debug, Clone, Copy, PartialEq, Eq, Structural)]
pub struct PaneLayout {
    pub pane_id: u64,
    pub pane_width: u64,
    pub pane_height: u64,
    pub pane_left: u64,
    pub pane_top: u64,
}

/// One split of a window (its region first, then its parts), or the whole window
/// as a single pane.
#[derive(Debug)]
pub enum WindowLayout {
    SplitVertical(Vec<PaneLayout>),
    SplitHorizontal(Vec<PaneLayout>),
    SinglePane(PaneLayout),
}

/// Mathematical value of a [`WindowLayout`].
pub enum WindowLayoutV {
    SplitVertical(Seq<PaneLayout>),
    SplitHorizontal(Seq<PaneLayout>),
    SinglePane(PaneLayout),
}

impl View for WindowLayout {
    type V = WindowLayoutV;

    open spec fn view(&self) -> WindowLayoutV {
        match self {
            WindowLayout::SplitVertical(v) => WindowLayoutV::SplitVertical(v@),
            WindowLayout::SplitHorizontal(v) => WindowLayoutV::SplitHorizontal(v@),
            WindowLayout::SinglePane(p) => WindowLayoutV::SinglePane(*p),
        }
    }
}

/// The values of a list of layout entries.
pub open spec fn layouts_view(v: Seq<WindowLayout>) -> Seq<WindowLayoutV> {
    v.map_values(|w: WindowLayout| w@)
}

/// Between width and height: `x`.
pub const TIMES: u8 = 120;

/// Between the fields of a pane and between the parts of a split.
pub const COMMA: u8 = 44;

/// Opens the parts of a region split side by side.
pub const OPEN_HORIZONTAL: u8 = 123;

/// Closes the parts of a region split side by side.
pub const CLOSE_HORIZONTAL: u8 = 125;

/// Opens the parts of a region split top to bottom.
pub const OPEN_VERTICAL: u8 = 91;

/// Closes the parts of a region split top to bottom.
pub const CLOSE_VERTICAL: u8 = 93;

/// A layout string that is not well formed.
#[derive(Debug, Clone, Copy, PartialEq, Eq, Structural)]
pub struct LayoutError;

pub open spec fn is_digit(b: u8) -> bool {
    DIGIT_ZERO <= b <= DIGIT_ZERO + 9
}

/// A lower-case hexadecimal digit, as in the checksum that opens a layout.
pub open spec fn is_hex(b: u8) -> bool {
    is_digit(b) || 97 <= b <= 102  // 'a' to 'f'
}

pub open spec fn in_class(hex: bool, b: u8) -> bool {
    if hex {
        is_hex(b)
    } else {
        is_digit(b)
    }
}

/// `e` ends the run of digits (or hex digits) that starts at `pos`.
pub open spec fn is_run_end(s: Seq<u8>, pos: int, e: int, hex: bool) -> bool {
    &&& pos <= e <= s.len()
    &&& forall|j: int| pos <= j < e ==> in_class(hex, #[trigger] s[j])
    &&& e < s.len() ==> !in_class(hex, s[e])
}

pub open spec fn run_end(s: Seq<u8>, pos: int, hex: bool) -> int {
    choose|e: int| is_run_end(s, pos, e, hex)
}

/// The numeral at `pos` and where it ends.
pub open spec fn num_at(s: Seq<u8>, pos: int) -> Option<(u64, int)> {
    let e = run_end(s, pos, false);
    if pos < e {
        match u64_of(s.subrange(pos, e)) {
            Some(v) => Some((v, e)),
            None => None,
        }
    } else {
        None
    }
}

/// The byte at `i` exists and is `b`.
pub open spec fn byte_is(s: Seq<u8>, i: int, b: u8) -> bool {
    0 <= i < s.len() && s[i] == b
}

/// `WIDTHxHEIGHT,LEFT,TOP` at `pos`, as a pane without id, and where it ends.
pub open spec fn dims_at(s: Seq<u8>, pos: int) -> Option<(PaneLayout, int)> {
    match num_at(s, pos) {
        Some((w, e1)) => if !byte_is(s, e1, TIMES) {
            None
        } else {
            match num_at(s, e1 + 1) {
                Some((h, e2)) => if !byte_is(s, e2, COMMA) {
                    None
                } else {
                    match num_at(s, e2 + 1) {
                        Some((l, e3)) => if !byte_is(s, e3, COMMA) {
                            None
                        } else {
                            match num_at(s, e3 + 1) {
                                Some((t, e4)) => Some(
                                    (
                                        PaneLayout {
                                            pane_id: 0,
                                            pane_width: w,
                                            pane_height: h,
                                            pane_left: l,
                                            pane_top: t,
                                        },
                                        e4,
                                    ),
                                ),
                                None => None,
                            }
                        },
                        None => None,
                    }
                },
                None => None,
            }
        },
        None => None,
    }
}

/// A pane id follows at `e`: a comma and a numeral that does not open another pane.
pub open spec fn id_at(s: Seq<u8>, e: int) -> Option<(u64, int)> {
    if byte_is(s, e, COMMA) {
        match num_at(s, e + 1) {
            Some((id, e2)) => if byte_is(s, e2, TIMES) {
                None
            } else {
                Some((id, e2))
            },
            None => None,
        }
    } else {
        None
    }
}

/// The split entry of a region whose parts are `parts`; `vertical` for `[...]`.
pub open spec fn split_entry(vertical: bool, parts: Seq<PaneLayout>) -> WindowLayoutV {
    if vertical {
        WindowLayoutV::SplitVertical(parts)
    } else {
        WindowLayoutV::SplitHorizontal(parts)
    }
}

/// The node at `pos`: the pane that stands for it in its parent (a split's region
/// takes the id of its last part), whether it is a split, the split entries of
/// its subtree, and where it ends.
pub open spec fn node_at(s: Seq<u8>, pos: int) -> Option<(PaneLayout, bool, Seq<WindowLayoutV>, int)>
    decreases s.len() - pos, 1int,
{
    match dims_at(s, pos) {
        None => None,
        Some((pane, e)) => if pos < e && (byte_is(s, e, OPEN_HORIZONTAL) || byte_is(s, e, OPEN_VERTICAL)) {
            let vertical = byte_is(s, e, OPEN_VERTICAL);
            let close: u8 = if vertical {
                CLOSE_VERTICAL
            } else {
                CLOSE_HORIZONTAL
            };
            match parts_at(s, e + 1, close) {
                Some((parts, entries, e2)) => {
                    let region = PaneLayout { pane_id: parts.last().pane_id, ..pane };
                    Some(
                        (
                            region,
                            true,
                            seq![split_entry(vertical, seq![region] + parts)] + entries,
                            e2,
                        ),
                    )
                },
                None => None,
            }
        } else {
            match id_at(s, e) {
                Some((id, e2)) => Some((PaneLayout { pane_id: id, ..pane }, false, Seq::empty(), e2)),
                None => Some((pane, false, Seq::empty(), e)),
            }
        },
    }
}

/// The comma-separated parts of a split from `pos` up to and including `close`:
/// their panes in order, their split entries (in the order of the parts), and where
/// they end.
pub open spec fn parts_at(s: Seq<u8>, pos: int, close: u8) -> Option<
    (Seq<PaneLayout>, Seq<WindowLayoutV>, int),
>
    decreases s.len() - pos, 2int,
{
    if pos > s.len() {
        None
    } else {
        match node_at(s, pos) {
            Some((pane, _, entries, e)) => if pos < e && byte_is(s, e, COMMA) {
                match parts_at(s, e + 1, close) {
                    Some((panes, later, e2)) => Some((seq![pane] + panes, entries + later, e2)),
                    None => None,
                }
            } else if byte_is(s, e, close) {
                Some((seq![pane], entries, e + 1))
            } else {
                None
            },
            None => None,
        }
    }
}

/// Where the layout proper starts: after a leading checksum and its comma, if any.
pub open spec fn layout_start(s: Seq<u8>) -> int {
    let e = run_end(s, 0, true);
    if 0 < e && byte_is(s, e, COMMA) {
        e + 1
    } else {
        0
    }
}

/// The entries that a layout string stands for: one per split, outermost first
/// in a left-to-right walk of the tree, or the single pane of an unsplit window.
pub open spec fn layout_entries(s: Seq<u8>) -> Option<Seq<WindowLayoutV>> {
    match node_at(s, layout_start(s)) {
        Some((pane, split, entries, e)) => if e != s.len() {
            None
        } else if split {
            Some(entries)
        } else {
            Some(seq![WindowLayoutV::SinglePane(pane)])
        },
        None => None,
    }
}

proof fn lemma_run_end(s: Seq<u8>, pos: int, e: int, hex: bool)
    requires
        is_run_end(s, pos, e, hex),
    ensures
        run_end(s, pos, hex) == e,
{
    let k = run_end(s, pos, hex);
    assert(is_run_end(s, pos, k, hex));
    if k < e {
        assert(in_class(hex, s[k]));
    }
    if k > e {
        assert(in_class(hex, s[e]));
    }
}

fn class_exec(hex: bool, b: u8) -> (r: bool)
    ensures
        r == in_class(hex, b),
{
    DIGIT_ZERO <= b && b <= DIGIT_ZERO + 9 || hex && 97 <= b && b <= 102
}

fn run_end_exec(s: &[u8], pos: usize, hex: bool) -> (e: usize)
    requires
        pos <= s@.len(),
    ensures
        e == run_end(s@, pos as int, hex),
        is_run_end(s@, pos as int, e as int, hex),
{
    let mut e = pos;
    while e < s.len() && class_exec(hex, s[e])
        invariant
            pos <= e <= s@.len(),
            forall|j: int| pos <= j < e ==> in_class(hex, #[trigger] s@[j]),
        decreases s@.len() - e,
    {
        e += 1;
    }
    proof {
        lemma_run_end(s@, pos as int, e as int, hex);
    }
    e
}

fn num_at_exec(s: &[u8], pos: usize) -> (r: Option<(u64, usize)>)
    requires
        pos <= s@.len(),
    ensures
        match num_at(s@, pos as int) {
            Some((v, e)) => (r matches Some(x) && x.0 == v && x.1 == e) && pos < e <= s@.len(),
            None => r is None,
        },
{
    let e = run_end_exec(s, pos, false);
    if pos < e {
        match parse_u64(vstd::slice::slice_subrange(s, pos, e)) {
            Some(v) => Some((v, e)),
            None => None,
        }
    } else {
        None
    }
}

fn byte_is_exec(s: &[u8], i: usize, b: u8) -> (r: bool)
    ensures
        r == byte_is(s@, i as int, b),
        s@.len() <= usize::MAX,
{
    i < s.len() && s[i] == b
}

fn dims_at_exec(s: &[u8], pos: usize) -> (r: Option<(PaneLayout, usize)>)
    requires
        pos <= s@.len(),
    ensures
        match dims_at(s@, pos as int) {
            Some((p, e)) => (r matches Some(x) && x.0 == p && x.1 == e) && pos < e <= s@.len(),
            None => r is None,
        },
{
    let (w, e1) = num_at_exec(s, pos)?;
    if !byte_is_exec(s, e1, TIMES) {
        return None;
    }
    let (h, e2) = num_at_exec(s, e1 + 1)?;
    if !byte_is_exec(s, e2, COMMA) {
        return None;
    }
    let (l, e3) = num_at_exec(s, e2 + 1)?;
    if !byte_is_exec(s, e3, COMMA) {
        return None;
    }
    let (t, e4) = num_at_exec(s, e3 + 1)?;
    Some((PaneLayout { pane_id: 0, pane_width: w, pane_height: h, pane_left: l, pane_top: t }, e4))
}

fn id_at_exec(s: &[u8], e: usize) -> (r: Option<(u64, usize)>)
    requires
        e <= s@.len(),
    ensures
        match id_at(s@, e as int) {
            Some((id, e2)) => (r matches Some(x) && x.0 == id && x.1 == e2) && e < e2 <= s@.len(),
            None => r is None,
        },
{
    if !byte_is_exec(s, e, COMMA) {
        return None;
    }
    let (id, e2) = num_at_exec(s, e + 1)?;
    if byte_is_exec(s, e2, TIMES) {
        None
    } else {
        Some((id, e2))
    }
}

/// Exec result of [`node_at`]: `r` holds the same pane, kind, entries and end.
pub open spec fn node_result(
    r: Option<(PaneLayout, bool, Vec<WindowLayout>, usize)>,
    spec_r: Option<(PaneLayout, bool, Seq<WindowLayoutV>, int)>,
) -> bool {
    match spec_r {
        Some((p, b, ents, e)) => r matches Some(x) && x.0 == p && x.1 == b && layouts_view(x.2@)
            == ents && x.3 == e,
        None => r is None,
    }
}

fn node_exec(s: &[u8], pos: usize) -> (r: Option<(PaneLayout, bool, Vec<WindowLayout>, usize)>)
    requires
        pos <= s@.len(),
    ensures
        node_result(r, node_at(s@, pos as int)),
        r matches Some(x) ==> x.3 <= s@.len(),
    decreases s@.len() - pos, 1int,
{
    let (pane, e) = dims_at_exec(s, pos)?;
    assert(dims_at(s@, pos as int) == Some((pane, e as int)));
    if pos < e && (byte_is_exec(s, e, OPEN_HORIZONTAL) || byte_is_exec(s, e, OPEN_VERTICAL)) {
        let vertical = byte_is_exec(s, e, OPEN_VERTICAL);
        let close: u8 = if vertical {
            CLOSE_VERTICAL
        } else {
            CLOSE_HORIZONTAL
        };
        let (parts, entries, e2) = parts_exec(s, e + 1, close)?;
        let ghost parts0 = parts@;
        let ghost entries0 = layouts_view(entries@);
        let region = PaneLayout { pane_id: parts[parts.len() - 1].pane_id, ..pane };
        let mut header: Vec<PaneLayout> = Vec::new();
        header.push(region);
        let mut parts = parts;
        header.append(&mut parts);
        assert(header@ =~= seq![region] + parts0);
        let entry = if vertical {
            WindowLayout::SplitVertical(header)
        } else {
            WindowLayout::SplitHorizontal(header)
        };
        assert(entry@ == split_entry(vertical, seq![region] + parts0));
        let mut out: Vec<WindowLayout> = Vec::new();
        out.push(entry);
        let mut entries = entries;
        out.append(&mut entries);
        assert(layouts_view(out@) =~= seq![split_entry(vertical, seq![region] + parts0)]
            + entries0);
        Some((region, true, out, e2))
    } else {
        match id_at_exec(s, e) {
            Some((id, e2)) => {
                let v: Vec<WindowLayout> = Vec::new();
                assert(layouts_view(v@) =~= Seq::<WindowLayoutV>::empty());
                Some((PaneLayout { pane_id: id, ..pane }, false, v, e2))
            },
            None => {
                let v: Vec<WindowLayout> = Vec::new();
                assert(layouts_view(v@) =~= Seq::<WindowLayoutV>::empty());
                Some((pane, false, v, e))
            },
        }
    }
}

fn parts_exec(s: &[u8], pos: usize, close: u8) -> (r: Option<
    (Vec<PaneLayout>, Vec<WindowLayout>, usize),
>)
    requires
        pos <= s@.len() + 1,
    ensures
        match parts_at(s@, pos as int, close) {
            Some((panes, ents, e)) => r matches Some(x) && x.0@ == panes && layouts_view(x.1@)
                == ents && x.2 == e && e <= s@.len() && panes.len() > 0,
            None => r is None,
        },
    decreases s@.len() - pos, 2int,
{
    if pos > s.len() {
        return None;
    }
    let (pane, _, entries, e) = node_exec(s, pos)?;
    if pos < e && byte_is_exec(s, e, COMMA) {
        let (rest, later, e2) = parts_exec(s, e + 1, close)?;
        let mut panes: Vec<PaneLayout> = Vec::new();
        panes.push(pane);
        let mut rest = rest;
        panes.append(&mut rest);
        let mut all = entries;
        let mut later = later;
        all.append(&mut later);
        Some((panes, all, e2))
    } else if byte_is_exec(s, e, close) {
        let mut panes: Vec<PaneLayout> = Vec::new();
        panes.push(pane);
        Some((panes, entries, e + 1))
    } else {
        None
    }
}

/// Parses a tmux layout string into its split entries, or its single pane.
pub fn parse_layout(layout: &str) -> (r: Result<Vec<WindowLayout>, LayoutError>)
    ensures
        match layout_entries(layout.spec_bytes()) {
            Some(ents) => r matches Ok(v) && layouts_view(v@) == ents,
            None => r == Err::<Vec<WindowLayout>, LayoutError>(LayoutError),
        },
{
    parse_layout_bytes(layout.as_bytes())
}

/// Parses a tmux layout given as bytes.
pub fn parse_layout_bytes(s: &[u8]) -> (r: Result<Vec<WindowLayout>, LayoutError>)
    ensures
        match layout_entries(s@) {
            Some(ents) => r matches Ok(v) && layouts_view(v@) == ents,
            None => r == Err::<Vec<WindowLayout>, LayoutError>(LayoutError),
        },
{
    let h = run_end_exec(s, 0, true);
    let start = if 0 < h && byte_is_exec(s, h, COMMA) {
        h + 1
    } else {
        0
    };
    match node_exec(s, start) {
        Some((pane, split, entries, e)) => {
            if e != s.len() {
                Err(LayoutError)
            } else if split {
                Ok(entries)
            } else {
                let mut v: Vec<WindowLayout> = Vec::new();
                v.push(WindowLayout::SinglePane(pane));
                assert(layouts_view(v@) =~= seq![WindowLayoutV::SinglePane(pane)]);
                Ok(v)
            }
        },
        None => Err(LayoutError),
    }
}


/// The decimal numeral of `n`, without leading zeros.
pub open spec fn decimal(n: nat) -> Seq<u8>
    decreases n,
{
    if n < 10 {
        seq![(DIGIT_ZERO + n) as u8]
    } else {
        decimal(n / 10).push((DIGIT_ZERO + n % 10) as u8)
    }
}

/// How a pane with an id is written in a layout: `WIDTHxHEIGHT,LEFT,TOP,ID`.
pub open spec fn render_pane(p: PaneLayout) -> Seq<u8> {
    decimal(p.pane_width as nat) + seq![TIMES] + decimal(p.pane_height as nat) + seq![COMMA]
        + decimal(p.pane_left as nat) + seq![COMMA] + decimal(p.pane_top as nat) + seq![COMMA]
        + decimal(p.pane_id as nat)
}

pub(crate) proof fn lemma_decimal(n: nat)
    ensures
        decimal(n).len() > 0,
        all_digits(decimal(n)),
        digits_value(decimal(n)) == n,
        forall|j: int| 0 <= j < decimal(n).len() ==> is_digit(#[trigger] decimal(n)[j]),
    decreases n,
{
    if n >= 10 {
        lemma_decimal(n / 10);
        assert(decimal(n).drop_last() =~= decimal(n / 10));
        assert(decimal(n).last() == (DIGIT_ZERO + n % 10) as u8);
        assert(((DIGIT_ZERO + n % 10) as u8) - DIGIT_ZERO == n % 10);
        assert((n / 10) * 10 + n % 10 == n);
    } else {
        assert(decimal(n).drop_last() =~= Seq::<u8>::empty());
        assert(digits_value(Seq::<u8>::empty()) == 0);
    }
}

/// A numeral found in `s` at `pos`, ended by a non-digit or by the end of `s`.
proof fn lemma_num_in(s: Seq<u8>, pos: int, n: u64)
    requires
        0 <= pos,
        pos + decimal(n as nat).len() <= s.len(),
        s.subrange(pos, pos + decimal(n as nat).len()) == decimal(n as nat),
        pos + decimal(n as nat).len() < s.len() ==> !is_digit(
            s[pos + decimal(n as nat).len()],
        ),
    ensures
        num_at(s, pos) == Some((n, pos + decimal(n as nat).len())),
{
    let d = decimal(n as nat);
    let e = pos + d.len();
    lemma_decimal(n as nat);
    assert forall|j: int| pos <= j < e implies in_class(false, #[trigger] s[j]) by {
        assert(s[j] == s.subrange(pos, e)[j - pos]);
    }
    lemma_run_end(s, pos, e, false);
}

/// The geometry of a region, written without id: `WIDTHxHEIGHT,LEFT,TOP`.
pub open spec fn render_dims(p: PaneLayout) -> Seq<u8> {
    decimal(p.pane_width as nat) + seq![TIMES] + decimal(p.pane_height as nat) + seq![COMMA]
        + decimal(p.pane_left as nat) + seq![COMMA] + decimal(p.pane_top as nat)
}

/// The two pieces of a concatenation found in `s` at `pos`.
proof fn lemma_pieces(s: Seq<u8>, pos: int, x: Seq<u8>, y: Seq<u8>)
    requires
        0 <= pos,
        pos + x.len() + y.len() <= s.len(),
        s.subrange(pos, pos + x.len() + y.len()) == x + y,
    ensures
        s.subrange(pos, pos + x.len()) == x,
        s.subrange(pos + x.len(), pos + x.len() + y.len()) == y,
{
    let whole = s.subrange(pos, pos + x.len() + y.len());
    assert forall|j: int| 0 <= j < x.len() implies s.subrange(pos, pos + x.len())[j] == x[j] by {
        assert(whole[j] == (x + y)[j]);
    }
    assert forall|j: int| 0 <= j < y.len() implies s.subrange(
        pos + x.len(),
        pos + x.len() + y.len(),
    )[j] == y[j] by {
        assert(whole[x.len() + j] == (x + y)[x.len() + j]);
    }
    assert(s.subrange(pos, pos + x.len()) =~= x);
    assert(s.subrange(pos + x.len(), pos + x.len() + y.len()) =~= y);
}

/// The byte found in `s` at `pos` as a one-byte piece.
proof fn lemma_byte_piece(s: Seq<u8>, pos: int, c: u8)
    requires
        0 <= pos < s.len(),
        s.subrange(pos, pos + 1) == seq![c],
    ensures
        s[pos] == c,
{
    assert(s.subrange(pos, pos + 1)[0] == s[pos]);
}

/// The geometry written at `pos` parses to the region without id.
proof fn lemma_dims_in(s: Seq<u8>, pos: int, p: PaneLayout)
    requires
        0 <= pos,
        pos + render_dims(p).len() <= s.len(),
        s.subrange(pos, pos + render_dims(p).len()) == render_dims(p),
        pos + render_dims(p).len() < s.len() ==> !is_digit(s[pos + render_dims(p).len()]),
    ensures
        dims_at(s, pos) == Some((PaneLayout { pane_id: 0, ..p }, pos + render_dims(p).len())),
        decimal(p.pane_width as nat).len() < render_dims(p).len(),
        s[pos + decimal(p.pane_width as nat).len()] == TIMES,
        forall|j: int|
            pos <= j < pos + decimal(p.pane_width as nat).len() ==> is_digit(#[trigger] s[j]),
{
    let dw = decimal(p.pane_width as nat);
    let dh = decimal(p.pane_height as nat);
    let dl = decimal(p.pane_left as nat);
    let dt = decimal(p.pane_top as nat);
    lemma_decimal(p.pane_width as nat);
    lemma_decimal(p.pane_height as nat);
    lemma_decimal(p.pane_left as nat);
    lemma_decimal(p.pane_top as nat);
    let a1 = dw + seq![TIMES];
    let a2 = a1 + dh;
    let a3 = a2 + seq![COMMA];
    let a4 = a3 + dl;
    let a5 = a4 + seq![COMMA];
    lemma_pieces(s, pos, a5, dt);
    lemma_pieces(s, pos, a4, seq![COMMA]);
    lemma_pieces(s, pos, a3, dl);
    lemma_pieces(s, pos, a2, seq![COMMA]);
    lemma_pieces(s, pos, a1, dh);
    lemma_pieces(s, pos, dw, seq![TIMES]);
    lemma_byte_piece(s, pos + dw.len(), TIMES);
    lemma_byte_piece(s, pos + a2.len(), COMMA);
    lemma_byte_piece(s, pos + a4.len(), COMMA);
    lemma_num_in(s, pos, p.pane_width);
    lemma_num_in(s, pos + a1.len(), p.pane_height);
    lemma_num_in(s, pos + a3.len(), p.pane_left);
    lemma_num_in(s, pos + a5.len(), p.pane_top);
    assert forall|j: int| pos <= j < pos + dw.len() implies is_digit(#[trigger] s[j]) by {
        assert(s[j] == s.subrange(pos, pos + dw.len())[j - pos]);
    }
}

/// A pane written with its id at `pos`, followed by a comma, a closing bracket or
/// the end, parses back to that pane.
proof fn lemma_leaf_in(s: Seq<u8>, pos: int, p: PaneLayout)
    requires
        0 <= pos,
        pos + render_pane(p).len() <= s.len(),
        s.subrange(pos, pos + render_pane(p).len()) == render_pane(p),
        pos + render_pane(p).len() < s.len() ==> (s[pos + render_pane(p).len()] == COMMA
            || s[pos + render_pane(p).len()] == CLOSE_VERTICAL || s[pos
            + render_pane(p).len()] == CLOSE_HORIZONTAL),
    ensures
        node_at(s, pos) == Some(
            (p, false, Seq::<WindowLayoutV>::empty(), pos + render_pane(p).len()),
        ),
{
    let d = render_dims(p);
    let di = decimal(p.pane_id as nat);
    lemma_decimal(p.pane_id as nat);
    let dc = d + seq![COMMA];
    lemma_pieces(s, pos, dc, di);
    lemma_pieces(s, pos, d, seq![COMMA]);
    lemma_byte_piece(s, pos + d.len(), COMMA);
    lemma_dims_in(s, pos, p);
    lemma_num_in(s, pos + dc.len(), p.pane_id);
    assert(id_at(s, pos + d.len()) == Some((p.pane_id, pos + render_pane(p).len())));
}

/// A layout as a tree: a pane with its id, or a region split top to bottom
/// (`true`) or side by side into parts.
pub enum LayoutTree {
    Pane(PaneLayout),
    Split(bool, PaneLayout, Seq<LayoutTree>),
}

pub open spec fn open_of(vertical: bool) -> u8 {
    if vertical {
        OPEN_VERTICAL
    } else {
        OPEN_HORIZONTAL
    }
}

pub open spec fn close_of(vertical: bool) -> u8 {
    if vertical {
        CLOSE_VERTICAL
    } else {
        CLOSE_HORIZONTAL
    }
}

/// How a tree is written: panes with their ids, regions without, parts in brackets.
pub open spec fn render_tree(t: LayoutTree) -> Seq<u8>
    decreases t, 0int,
{
    match t {
        LayoutTree::Pane(p) => render_pane(p),
        LayoutTree::Split(v, r, cs) => render_dims(r) + seq![open_of(v)] + render_list(cs, 0)
            + seq![close_of(v)],
    }
}

/// The parts of a split from the `i`-th on, written with commas between them.
pub open spec fn render_list(cs: Seq<LayoutTree>, i: int) -> Seq<u8>
    decreases cs, cs.len() - i,
{
    if 0 <= i < cs.len() {
        if i + 1 == cs.len() {
            render_tree(cs[i])
        } else {
            render_tree(cs[i]) + seq![COMMA] + render_list(cs, i + 1)
        }
    } else {
        Seq::empty()
    }
}

/// Every split of the tree has at least one part.
pub open spec fn well_formed(t: LayoutTree) -> bool
    decreases t, 0int,
{
    match t {
        LayoutTree::Pane(_) => true,
        LayoutTree::Split(_, _, cs) => cs.len() > 0 && all_well_formed(cs, 0),
    }
}

pub open spec fn all_well_formed(cs: Seq<LayoutTree>, i: int) -> bool
    decreases cs, cs.len() - i,
{
    if 0 <= i < cs.len() {
        well_formed(cs[i]) && all_well_formed(cs, i + 1)
    } else {
        true
    }
}

/// The pane that stands for a tree in its parent: a split's region takes the id
/// of its last part.
pub open spec fn tree_pane(t: LayoutTree) -> PaneLayout
    decreases t,
{
    match t {
        LayoutTree::Pane(p) => p,
        LayoutTree::Split(_, r, cs) => if cs.len() > 0 {
            PaneLayout { pane_id: tree_pane(cs[cs.len() - 1]).pane_id, ..r }
        } else {
            r
        },
    }
}

/// The split entries of a tree: its own first, then those of its parts, left to
/// right.
pub open spec fn tree_entries(t: LayoutTree) -> Seq<WindowLayoutV>
    decreases t, 0int,
{
    match t {
        LayoutTree::Pane(_) => Seq::empty(),
        LayoutTree::Split(v, _, cs) => seq![split_entry(v, seq![tree_pane(t)] + list_panes(cs, 0))]
            + list_entries(cs, 0),
    }
}

/// The panes that stand for the parts from the `i`-th on.
pub open spec fn list_panes(cs: Seq<LayoutTree>, i: int) -> Seq<PaneLayout>
    decreases cs.len() - i,
{
    if 0 <= i < cs.len() {
        seq![tree_pane(cs[i])] + list_panes(cs, i + 1)
    } else {
        Seq::empty()
    }
}

/// The split entries of the parts from the `i`-th on, left to right.
pub open spec fn list_entries(cs: Seq<LayoutTree>, i: int) -> Seq<WindowLayoutV>
    decreases cs, cs.len() - i,
{
    if 0 <= i < cs.len() {
        tree_entries(cs[i]) + list_entries(cs, i + 1)
    } else {
        Seq::empty()
    }
}

/// What parsing the written tree yields: its split entries, or its single pane.
pub open spec fn expected_entries(t: LayoutTree) -> Seq<WindowLayoutV> {
    match t {
        LayoutTree::Pane(p) => seq![WindowLayoutV::SinglePane(p)],
        LayoutTree::Split(..) => tree_entries(t),
    }
}

proof fn lemma_list_panes_last(cs: Seq<LayoutTree>, i: int)
    requires
        0 <= i < cs.len(),
    ensures
        list_panes(cs, i).len() == cs.len() - i,
        list_panes(cs, i).last() == tree_pane(cs[cs.len() - 1]),
    decreases cs.len() - i,
{
    if i + 1 < cs.len() {
        lemma_list_panes_last(cs, i + 1);
    } else {
        assert(list_panes(cs, i + 1) =~= Seq::<PaneLayout>::empty());
    }
}

/// A well-formed tree written at `pos`, followed by a comma, a closing bracket or
/// the end, parses back to the pane that stands for it and its split entries.
proof fn lemma_tree_in(s: Seq<u8>, pos: int, t: LayoutTree)
    requires
        well_formed(t),
        0 <= pos,
        pos + render_tree(t).len() <= s.len(),
        s.subrange(pos, pos + render_tree(t).len()) == render_tree(t),
        pos + render_tree(t).len() < s.len() ==> (s[pos + render_tree(t).len()] == COMMA
            || s[pos + render_tree(t).len()] == CLOSE_VERTICAL || s[pos
            + render_tree(t).len()] == CLOSE_HORIZONTAL),
    ensures
        render_tree(t).len() > 0,
        node_at(s, pos) == Some(
            (tree_pane(t), t is Split, tree_entries(t), pos + render_tree(t).len()),
        ),
    decreases t, 0int,
{
    match t {
        LayoutTree::Pane(p) => {
            lemma_leaf_in(s, pos, p);
        },
        LayoutTree::Split(v, r, cs) => {
            let d = render_dims(r);
            let rl = render_list(cs, 0);
            let a1 = d + seq![open_of(v)];
            let a2 = a1 + rl;
            lemma_pieces(s, pos, a2, seq![close_of(v)]);
            lemma_pieces(s, pos, a1, rl);
            lemma_pieces(s, pos, d, seq![open_of(v)]);
            lemma_byte_piece(s, pos + d.len(), open_of(v));
            lemma_byte_piece(s, pos + a2.len(), close_of(v));
            lemma_dims_in(s, pos, r);
            lemma_list_in(s, pos + a1.len(), cs, 0, close_of(v));
            lemma_list_panes_last(cs, 0);
            assert(byte_is(s, pos + d.len(), OPEN_VERTICAL) == v);
        },
    }
}

/// The parts of a split from the `i`-th on, written at `pos` and closed by `close`,
/// parse back to their panes and split entries.
proof fn lemma_list_in(s: Seq<u8>, pos: int, cs: Seq<LayoutTree>, i: int, close: u8)
    requires
        all_well_formed(cs, i),
        0 <= i < cs.len(),
        0 <= pos,
        close == CLOSE_VERTICAL || close == CLOSE_HORIZONTAL,
        pos + render_list(cs, i).len() < s.len(),
        s.subrange(pos, pos + render_list(cs, i).len()) == render_list(cs, i),
        s[pos + render_list(cs, i).len()] == close,
    ensures
        parts_at(s, pos, close) == Some(
            (list_panes(cs, i), list_entries(cs, i), pos + render_list(cs, i).len() + 1),
        ),
    decreases cs, cs.len() - i,
{
    let first = render_tree(cs[i]);
    let n = first.len() as int;
    if i + 1 == cs.len() {
        lemma_tree_in(s, pos, cs[i]);
        assert(list_panes(cs, i + 1) =~= Seq::<PaneLayout>::empty());
        assert(list_entries(cs, i + 1) =~= Seq::<WindowLayoutV>::empty());
        assert(seq![tree_pane(cs[i])] + Seq::<PaneLayout>::empty() =~= seq![tree_pane(cs[i])]);
        assert(tree_entries(cs[i]) + Seq::<WindowLayoutV>::empty() =~= tree_entries(cs[i]));
    } else {
        let rest = render_list(cs, i + 1);
        let fc = first + seq![COMMA];
        lemma_pieces(s, pos, fc, rest);
        lemma_pieces(s, pos, first, seq![COMMA]);
        lemma_byte_piece(s, pos + n, COMMA);
        lemma_tree_in(s, pos, cs[i]);
        lemma_list_in(s, pos + n + 1, cs, i + 1, close);
    }
}

/// A written tree opens with a width and `x`, never with a checksum.
proof fn lemma_rendered_start(t: LayoutTree)
    ensures
        layout_start(render_tree(t)) == 0,
{
    let s = render_tree(t);
    let geometry = match t {
        LayoutTree::Pane(p) => p,
        LayoutTree::Split(_, r, _) => r,
    };
    let d = render_dims(geometry);
    match t {
        LayoutTree::Pane(p) => {
            let dc = d + seq![COMMA];
            assert(s.subrange(0, s.len() as int) =~= s);
            lemma_pieces(s, 0, dc, decimal(p.pane_id as nat));
            lemma_pieces(s, 0, d, seq![COMMA]);
            lemma_byte_piece(s, d.len() as int, COMMA);
        },
        LayoutTree::Split(v, _, cs) => {
            let a1 = d + seq![open_of(v)];
            let a2 = a1 + render_list(cs, 0);
            assert(s.subrange(0, s.len() as int) =~= s);
            lemma_pieces(s, 0, a2, seq![close_of(v)]);
            lemma_pieces(s, 0, a1, render_list(cs, 0));
            lemma_pieces(s, 0, d, seq![open_of(v)]);
            lemma_byte_piece(s, d.len() as int, open_of(v));
        },
    }
    lemma_dims_in(s, 0, geometry);
    let e1 = decimal(geometry.pane_width as nat).len() as int;
    assert forall|j: int| 0 <= j < e1 implies in_class(true, #[trigger] s[j]) by {
        assert(is_digit(s[j]));
    }
    lemma_run_end(s, 0, e1, true);
}

/// Writing a well-formed layout tree and parsing it back yields the split entries of
/// that tree (or its single pane): every pane comes back with the same geometry and
/// the same id, and each region takes the id of its last part.
pub proof fn lemma_layout_round_trip(t: LayoutTree)
    requires
        well_formed(t),
    ensures
        layout_entries(render_tree(t)) == Some(expected_entries(t)),
{
    let s = render_tree(t);
    assert(s.subrange(0, s.len() as int) =~= s);
    lemma_tree_in(s, 0, t);
    lemma_rendered_start(t);
}


/// The panes at the leaves of a tree, left to right.
pub open spec fn tree_leaves(t: LayoutTree) -> Seq<PaneLayout>
    decreases t, 0int,
{
    match t {
        LayoutTree::Pane(p) => seq![p],
        LayoutTree::Split(_, _, cs) => list_leaves(cs, 0),
    }
}

/// The leaves of the parts from the `i`-th on.
pub open spec fn list_leaves(cs: Seq<LayoutTree>, i: int) -> Seq<PaneLayout>
    decreases cs, cs.len() - i,
{
    if 0 <= i < cs.len() {
        tree_leaves(cs[i]) + list_leaves(cs, i + 1)
    } else {
        Seq::empty()
    }
}

/// The panes that one entry lists.
pub open spec fn entry_panes(e: WindowLayoutV) -> Seq<PaneLayout> {
    match e {
        WindowLayoutV::SplitVertical(v) => v,
        WindowLayoutV::SplitHorizontal(v) => v,
        WindowLayoutV::SinglePane(p) => seq![p],
    }
}

/// Every pane that a list of entries holds, regions included.
pub open spec fn all_panes(ents: Seq<WindowLayoutV>) -> Seq<PaneLayout>
    decreases ents.len(),
{
    if ents.len() == 0 {
        Seq::empty()
    } else {
        entry_panes(ents[0]) + all_panes(ents.drop_first())
    }
}

proof fn lemma_contains_concat<A>(a: Seq<A>, b: Seq<A>, x: A)
    ensures
        (a.contains(x) || b.contains(x)) ==> (a + b).contains(x),
{
    if a.contains(x) {
        let i = choose|i: int| 0 <= i < a.len() && a[i] == x;
        assert((a + b)[i] == x);
    } else if b.contains(x) {
        let i = choose|i: int| 0 <= i < b.len() && b[i] == x;
        assert((a + b)[a.len() + i] == x);
    }
}

proof fn lemma_all_panes_one(e: WindowLayoutV)
    ensures
        all_panes(seq![e]) == entry_panes(e),
{
    assert(seq![e].drop_first() =~= Seq::<WindowLayoutV>::empty());
    assert(all_panes(Seq::<WindowLayoutV>::empty()) == Seq::<PaneLayout>::empty());
    assert(entry_panes(e) + Seq::<PaneLayout>::empty() =~= entry_panes(e));
}

proof fn lemma_all_panes_concat(a: Seq<WindowLayoutV>, b: Seq<WindowLayoutV>)
    ensures
        all_panes(a + b) == all_panes(a) + all_panes(b),
    decreases a.len(),
{
    if a.len() == 0 {
        assert(a + b =~= b);
        assert(all_panes(a) + all_panes(b) =~= all_panes(b));
    } else {
        assert((a + b).drop_first() =~= a.drop_first() + b);
        assert((a + b)[0] == a[0]);
        lemma_all_panes_concat(a.drop_first(), b);
        assert(entry_panes(a[0]) + (all_panes(a.drop_first()) + all_panes(b)) =~= (entry_panes(
            a[0],
        ) + all_panes(a.drop_first())) + all_panes(b));
    }
}

/// Every leaf of a split tree is listed by its split entries.
proof fn lemma_tree_leaves_listed(t: LayoutTree, x: PaneLayout)
    requires
        well_formed(t),
        t is Split,
        tree_leaves(t).contains(x),
    ensures
        all_panes(tree_entries(t)).contains(x),
    decreases t, 0int,
{
    match t {
        LayoutTree::Split(v, _, cs) => {
            let head = split_entry(v, seq![tree_pane(t)] + list_panes(cs, 0));
            lemma_list_leaves_listed(cs, 0, x);
            lemma_all_panes_concat(seq![head], list_entries(cs, 0));
            lemma_all_panes_one(head);
            lemma_contains_concat(seq![tree_pane(t)], list_panes(cs, 0), x);
            lemma_contains_concat(all_panes(seq![head]), all_panes(list_entries(cs, 0)), x);
        },
        _ => {},
    }
}

/// Every leaf of the parts from the `i`-th on is one of their panes or is listed by
/// their split entries.
proof fn lemma_list_leaves_listed(cs: Seq<LayoutTree>, i: int, x: PaneLayout)
    requires
        all_well_formed(cs, i),
        list_leaves(cs, i).contains(x),
    ensures
        list_panes(cs, i).contains(x) || all_panes(list_entries(cs, i)).contains(x),
    decreases cs, cs.len() - i,
{
    if 0 <= i < cs.len() {
        let c = cs[i];
        lemma_all_panes_concat(tree_entries(c), list_entries(cs, i + 1));
        if tree_leaves(c).contains(x) {
            match c {
                LayoutTree::Pane(p) => {
                    assert(tree_leaves(c)[0] == p);
                    assert(list_panes(cs, i)[0] == x);
                },
                LayoutTree::Split(..) => {
                    lemma_tree_leaves_listed(c, x);
                    lemma_contains_concat(
                        all_panes(tree_entries(c)),
                        all_panes(list_entries(cs, i + 1)),
                        x,
                    );
                },
            }
        } else {
            let k = choose|k: int|
                0 <= k < list_leaves(cs, i).len() && list_leaves(cs, i)[k] == x;
            assert(list_leaves(cs, i + 1)[k - tree_leaves(c).len()] == x);
            lemma_list_leaves_listed(cs, i + 1, x);
            lemma_contains_concat(seq![tree_pane(c)], list_panes(cs, i + 1), x);
            lemma_contains_concat(all_panes(tree_entries(c)), all_panes(list_entries(cs, i + 1)), x);
        }
    }
}

/// Parsing a written layout loses no pane: every leaf of the tree comes back, with
/// its geometry and its id, among the panes that the entries list.
pub proof fn lemma_layout_keeps_leaves(t: LayoutTree, x: PaneLayout)
    requires
        well_formed(t),
        tree_leaves(t).contains(x),
    ensures
        layout_entries(render_tree(t)) matches Some(ents) && all_panes(ents).contains(x),
{
    lemma_layout_round_trip(t);
    match t {
        LayoutTree::Pane(p) => {
            let ents = seq![WindowLayoutV::SinglePane(p)];
            lemma_all_panes_one(WindowLayoutV::SinglePane(p));
            assert(tree_leaves(t)[0] == p);
            assert(all_panes(ents)[0] == x);
        },
        LayoutTree::Split(..) => {
            lemma_tree_leaves_listed(t, x);
        },
    }
}

} // verus!
