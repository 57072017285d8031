//! Menus, the actions their entries start, and the pointer handlers that an
//! action leaves running: dragging a frame, dragging a link end, panning the
//! view and steering a radial menu.

use vstd::prelude::*;
use vstd::string::*;
use crate::geometry::{WorldPoint, DragMode, box_contains};
use crate::catalog::{TypeKind, spec_type_name, spec_param_count, spec_catalog};
use crate::graph::{Frame, FrameParam};

verus! {

/// Radius of a parameter hotspot and of the radial menu's hub.
pub const PARAM_RADIUS: i64 = 5;

/// Gap between consecutive parameter hotspots.
pub const PARAM_SPACING: i64 = 2;

/// Distance from the hub beyond which a radial menu drag picks an entry.
pub const MENU_FAR: i64 = 3 * PARAM_RADIUS + 1;

/// The largest display drag, along either axis, that a radial menu reads.
pub const MAX_DISPLAY_DRAG: i64 = 0x1_0000_0000;

const B33: i128 = 0x2_0000_0000;

const B62: i128 = 0x4000_0000_0000_0000;

const B66: i128 = 0x4_0000_0000_0000_0000;

/// A point in display space, in display millimetres.
#[derive(Clone, Copy, Debug, PartialEq, Eq, Structural)]
pub struct DisplayPoint {
    pub x: i32,
    pub y: i32,
}

/// An input that can trigger a menu entry directly.
#[derive(Clone, Copy, Debug, PartialEq, Eq, Structural)]
pub enum Shortcut {
    /// The left mouse button.
    Lmb,
    /// The middle mouse button.
    Mmb,
    /// The space or enter key.
    Space,
    /// The delete key.
    Delete,
}

/// What a menu entry does when it is chosen.
#[derive(Clone, Copy, Debug, PartialEq, Eq, Structural)]
pub enum Action {
    /// Pan the view.
    MoveView,
    /// Start a link from a parameter slot.
    ConnectParam(FrameParam),
    /// Move or stretch a frame.
    DragFrame { frame: u64, horizontal: DragMode, vertical: DragMode },
    /// Queue a run of the frame's object.
    Run { frame: u64 },
    /// Delete the frame.
    DeleteFrame { frame: u64 },
    /// Place a new global frame of the type at the pointer and drag it.
    AddFrame(TypeKind),
}

/// One entry of a menu.
#[derive(Debug)]
pub struct Entry {
    pub name: String,
    pub shortcuts: Vec<Shortcut>,
    pub action: Action,
}

/// A menu entry as plain values.
pub struct EntryModel {
    pub name: Seq<char>,
    pub shortcuts: Seq<Shortcut>,
    pub action: Action,
}

impl View for Entry {
    type V = EntryModel;

    open spec fn view(&self) -> EntryModel {
        EntryModel { name: self.name@, shortcuts: self.shortcuts@, action: self.action }
    }
}

/// A list of entries drawn in one colour.
#[derive(Debug)]
pub struct Menu {
    pub entries: Vec<Entry>,
    pub color: String,
}

/// The entries of a menu, as plain values.
pub open spec fn entries_model(m: Menu) -> Seq<EntryModel> {
    m.entries@.map_values(|e: Entry| e@)
}

/// One end of a link.
#[derive(Clone, Copy, Debug, PartialEq, Eq, Structural)]
pub enum LinkSide {
    A,
    B,
}

/// The pointer handler that runs while a touch lasts.
#[derive(Debug)]
pub enum Handler {
    /// Moves or stretches frame `frame`; `pos` is the last pointer position.
    DragFrame { frame: u64, horizontal: DragMode, vertical: DragMode, pos: WorldPoint },
    /// Drags end `side` of link `link`.
    DragLink { link: u64, side: LinkSide, pos: WorldPoint },
    /// Pans the view; with `stick` the touched world point stays under the pointer.
    MovePoint { last_touch: WorldPoint, stick: bool },
    /// A radial menu open at `anchor`.
    Menu { menu: Menu, anchor: DisplayPoint },
}

/// The drag mode of one axis from the offset `q` of a touch from the centre
/// of an extent `extent`: the outer quarters stretch, the middle half moves.
pub open spec fn drag_mode_for(q: int, extent: int) -> DragMode {
    if 4 * q < -extent {
        DragMode::StretchLow
    } else if 4 * q > extent {
        DragMode::StretchHigh
    } else {
        DragMode::Drag
    }
}

/// Twice the offset of `w` from the centre of parameter slot `idx` of `f`;
/// the slots run down the left edge, starting below the frame.
pub open spec fn param_offset2(f: Frame, idx: int, w: WorldPoint) -> (int, int) {
    (
        2 * (w.x - f.pos.x) - 2 * PARAM_RADIUS + f.size.width,
        2 * (w.y - f.pos.y) - f.size.height + 2 * PARAM_RADIUS - 2 * (2 * PARAM_RADIUS
            + PARAM_SPACING) * (idx + 1),
    )
}

/// `w` lies within the hotspot of parameter slot `idx` of `f`.
pub open spec fn param_hit(f: Frame, idx: int, w: WorldPoint) -> bool {
    let (dx, dy) = param_offset2(f, idx, w);
    dx * dx + dy * dy < 4 * PARAM_RADIUS * PARAM_RADIUS
}

/// The first parameter slot of `f` whose hotspot holds `w`, from slot `from` on.
pub open spec fn first_param_hit(f: Frame, w: WorldPoint, from: int) -> Option<int>
    decreases spec_param_count(f.typ) - from,
{
    if from < 0 || from >= spec_param_count(f.typ) {
        None
    } else if param_hit(f, from, w) {
        Some(from)
    } else {
        first_param_hit(f, w, from + 1)
    }
}

pub open spec fn entry_model(name: Seq<char>, s: Seq<Shortcut>, a: Action) -> EntryModel {
    EntryModel { name, shortcuts: s, action: a }
}

/// The menu of frame `f` for a touch at `w`: a parameter hotspot offers to
/// connect; the body offers to move or resize (by where it was touched), to
/// run and to delete; elsewhere there is none.
pub open spec fn spec_frame_menu(f: Frame, w: WorldPoint) -> Option<Seq<EntryModel>> {
    match first_param_hit(f, w, 0) {
        Some(idx) => Some(
            seq![entry_model("Connect"@, seq![Shortcut::Lmb], Action::ConnectParam(FrameParam { frame: f.id, param_index: idx as usize }))],
        ),
        None => if box_contains(f.pos, f.size, w) {
            let h = drag_mode_for(w.x - f.pos.x, f.size.width as int);
            let v = drag_mode_for(w.y - f.pos.y, f.size.height as int);
            let name = if h == DragMode::Drag && v == DragMode::Drag {
                "Move"@
            } else {
                "Resize"@
            };
            Some(
                seq![
                    entry_model(name, seq![Shortcut::Lmb], Action::DragFrame { frame: f.id, horizontal: h, vertical: v }),
                    entry_model("Run"@, seq![Shortcut::Space], Action::Run { frame: f.id }),
                    entry_model("Delete"@, seq![Shortcut::Delete], Action::DeleteFrame { frame: f.id }),
                ],
            )
        } else {
            None
        },
    }
}

/// The entries that every canvas menu ends with: pan the view, then one
/// "New <type>" entry per catalog type.
pub open spec fn spec_common_entries() -> Seq<EntryModel> {
    seq![entry_model("Move view"@, seq![Shortcut::Mmb], Action::MoveView)] + spec_catalog().map_values(
        |t: TypeKind| entry_model("New "@ + spec_type_name(t), Seq::empty(), Action::AddFrame(t)),
    )
}

fn entry(name: &str, shortcut: Option<Shortcut>, action: Action) -> (r: Entry)
    ensures
        r@ == entry_model(
            name@,
            match shortcut {
                Some(s) => seq![s],
                None => Seq::empty(),
            },
            action,
        ),
{
    let mut shortcuts = Vec::new();
    match shortcut {
        Some(s) => {
            shortcuts.push(s);
            assert(shortcuts@ =~= seq![s]);
        },
        None => {
            assert(shortcuts@ =~= Seq::<Shortcut>::empty());
        },
    }
    Entry { name: String::from_str(name), shortcuts, action }
}

fn drag_mode_of(q: i128, extent: i128) -> (r: DragMode)
    requires
        -B66 <= q <= B66,
        -B66 <= extent <= B66,
    ensures
        r == drag_mode_for(q as int, extent as int),
{
    if 4 * q < -extent {
        DragMode::StretchLow
    } else if 4 * q > extent {
        DragMode::StretchHigh
    } else {
        DragMode::Drag
    }
}

fn param_hit_at(f: &Frame, idx: usize, w: &WorldPoint) -> (r: bool)
    requires
        idx < 8,
        f.size.width >= 0,
        f.size.height >= 0,
    ensures
        r == param_hit(*f, idx as int, *w),
{
    let step: i128 = (idx as i128 + 1) * 24;
    assert(step == 2 * (2 * PARAM_RADIUS + PARAM_SPACING) * (idx + 1)) by (nonlinear_arith)
        requires step == (idx + 1) * 24;
    let dx: i128 = 2 * (w.x as i128 - f.pos.x as i128) - 2 * (PARAM_RADIUS as i128) + f.size.width as i128;
    let dy: i128 = 2 * (w.y as i128 - f.pos.y as i128) - f.size.height as i128 + 2 * (PARAM_RADIUS as i128)
        - step;
    if dx > B62 || dx < -B62 || dy > B62 || dy < -B62 {
        assert(dx * dx + dy * dy >= 4 * PARAM_RADIUS * PARAM_RADIUS) by (nonlinear_arith)
            requires dx > B62 || dx < -B62 || dy > B62 || dy < -B62;
        return false;
    }
    let s = sum_of_squares(dx, dy);
    s < 4 * (PARAM_RADIUS as i128) * (PARAM_RADIUS as i128)
}

fn sum_of_squares(dx: i128, dy: i128) -> (r: i128)
    requires
        -B62 <= dx <= B62,
        -B62 <= dy <= B62,
    ensures
        r == dx * dx + dy * dy,
{
    assert(0 <= dx * dx <= B62 * B62) by (nonlinear_arith)
        requires -B62 <= dx <= B62;
    assert(0 <= dy * dy <= B62 * B62) by (nonlinear_arith)
        requires -B62 <= dy <= B62;
    let a = dx * dx;
    let b = dy * dy;
    a + b
}

/// The menu of frame `f` for a touch at `w`, if `w` is on the frame or one
/// of its parameter hotspots.
pub fn frame_menu(f: &Frame, w: &WorldPoint) -> (r: Option<Menu>)
    requires
        f.size.width >= 0,
        f.size.height >= 0,
    ensures
        r matches Some(m) ==> spec_frame_menu(*f, *w) == Some(entries_model(m)) && m.color@ == "#888"@,
        r is None ==> spec_frame_menu(*f, *w) is None,
{
    let n = f.typ.param_count();
    let mut idx: usize = 0;
    while idx < n
        invariant
            n == spec_param_count(f.typ),
            n <= 4,
            idx <= n,
            f.size.width >= 0,
            f.size.height >= 0,
            first_param_hit(*f, *w, 0) == first_param_hit(*f, *w, idx as int),
        decreases n - idx,
    {
        if param_hit_at(f, idx, w) {
            let mut entries = Vec::new();
            entries.push(entry("Connect", Some(Shortcut::Lmb), Action::ConnectParam(FrameParam { frame: f.id, param_index: idx })));
            let m = Menu { entries, color: String::from_str("#888") };
            assert(entries_model(m) =~= spec_frame_menu(*f, *w)->0);
            return Some(m);
        }
        idx = idx + 1;
    }
    assert(first_param_hit(*f, *w, idx as int) is None);
    if !box_hit_frame(f, w) {
        return None;
    }
    let h = drag_mode_of(w.x as i128 - f.pos.x as i128, f.size.width as i128);
    let v = drag_mode_of(w.y as i128 - f.pos.y as i128, f.size.height as i128);
    let name = if h == DragMode::Drag && v == DragMode::Drag {
        "Move"
    } else {
        "Resize"
    };
    let mut entries = Vec::new();
    entries.push(entry(name, Some(Shortcut::Lmb), Action::DragFrame { frame: f.id, horizontal: h, vertical: v }));
    entries.push(entry("Run", Some(Shortcut::Space), Action::Run { frame: f.id }));
    entries.push(entry("Delete", Some(Shortcut::Delete), Action::DeleteFrame { frame: f.id }));
    let m = Menu { entries, color: String::from_str("#888") };
    assert(entries_model(m) =~= spec_frame_menu(*f, *w)->0);
    Some(m)
}

fn box_hit_frame(f: &Frame, w: &WorldPoint) -> (r: bool)
    ensures
        r == box_contains(f.pos, f.size, *w),
{
    f.hit_test(w)
}

/// Appends the entries that every canvas menu ends with.
pub fn push_common_entries(entries: &mut Vec<Entry>)
    ensures
        final(entries)@.map_values(|e: Entry| e@) == old(entries)@.map_values(|e: Entry| e@)
            + spec_common_entries(),
{
    let ghost before = entries@.map_values(|e: Entry| e@);
    entries.push(entry("Move view", Some(Shortcut::Mmb), Action::MoveView));
    let types = [TypeKind::Process, TypeKind::Text, TypeKind::Empty];
    let mut i: usize = 0;
    while i < 3
        invariant
            i <= 3,
            types@ == spec_catalog(),
            entries@.map_values(|e: Entry| e@) == before + spec_common_entries().subrange(0, i + 1),
        decreases 3 - i,
    {
        let t = types[i];
        let name = String::from_str("New ").concat(t.name());
        let e = Entry { name, shortcuts: Vec::new(), action: Action::AddFrame(t) };
        let ghost prev = entries@;
        entries.push(e);
        proof {
            assert(e@ == spec_common_entries()[i + 1]);
            assert(spec_common_entries().subrange(0, i + 2) =~= spec_common_entries().subrange(0, i + 1).push(
                spec_common_entries()[i + 1],
            ));
            assert(entries@.map_values(|e: Entry| e@) =~= prev.map_values(|e: Entry| e@).push(e@));
        }
        i = i + 1;
    }
    assert(spec_common_entries().subrange(0, 4) =~= spec_common_entries());
}

impl Menu {
    /// The first entry that `s` triggers.
    pub fn find_shortcut(&self, s: Shortcut) -> (r: Option<usize>)
        ensures
            r matches Some(i) ==> i < self.entries@.len() && self.entries@[i as int].shortcuts@.contains(s)
                && forall|j: int| 0 <= j < i ==> !(#[trigger] self.entries@[j]).shortcuts@.contains(s),
            r is None ==> forall|j: int|
                0 <= j < self.entries@.len() ==> !(#[trigger] self.entries@[j]).shortcuts@.contains(s),
    {
        let mut i: usize = 0;
        while i < self.entries.len()
            invariant
                i <= self.entries@.len(),
                forall|j: int| 0 <= j < i ==> !(#[trigger] self.entries@[j]).shortcuts@.contains(s),
            decreases self.entries@.len() - i,
        {
            let mut k: usize = 0;
            while k < self.entries[i].shortcuts.len()
                invariant
                    i < self.entries@.len(),
                    forall|j: int| 0 <= j < i ==> !(#[trigger] self.entries@[j]).shortcuts@.contains(s),
                    k <= self.entries@[i as int].shortcuts@.len(),
                    forall|m: int| 0 <= m < k ==> self.entries@[i as int].shortcuts@[m] != s,
                decreases self.entries@[i as int].shortcuts@.len() - k,
            {
                if self.entries[i].shortcuts[k] == s {
                    assert(self.entries@[i as int].shortcuts@[k as int] == s);
                    assert(self.entries@[i as int].shortcuts@.contains(s));
                    return Some(i);
                }
                k = k + 1;
            }
            i = i + 1;
        }
        None
    }
}

/// `(x, y)` points within the 45° arc centred on the positive x axis.
#[verifier::opaque]
pub open spec fn in_east_arc(x: int, y: int) -> bool {
    let ay = if y < 0 {
        -y
    } else {
        y
    };
    x > 0 && (ay + x) * (ay + x) < 2 * x * x
}

/// Turns `(x, y)` back by `k` eighths of a turn (scaled for odd `k`), so that
/// direction `k` comes onto the positive x axis. Display y points down, so
/// direction `k` lies `45k` degrees clockwise from the positive x axis.
pub open spec fn turn_back(x: int, y: int, k: int) -> (int, int)
    decreases k,
{
    if k <= 0 {
        (x, y)
    } else if k % 2 == 1 {
        turn_back(x + y, y - x, k - 1)
    } else {
        turn_back(y, -x, k - 2)
    }
}

/// `(dx, dy)` points within the 45° arc around direction `k`.
pub open spec fn in_bin(dx: int, dy: int, k: int) -> bool {
    let (x, y) = turn_back(dx, dy, k);
    in_east_arc(x, y)
}

fn in_east_arc_exec(x: i128, y: i128) -> (r: bool)
    requires
        -B33 <= x <= B33,
        -B33 <= y <= B33,
    ensures
        r == in_east_arc(x as int, y as int),
{
    reveal(in_east_arc);
    let ay = if y < 0 {
        -y
    } else {
        y
    };
    assert((ay + x) * (ay + x) <= 4 * B33 * B33 && 2 * x * x <= 2 * B33 * B33) by (nonlinear_arith)
        requires 0 <= ay <= B33, -B33 <= x <= B33;
    x > 0 && (ay + x) * (ay + x) < 2 * x * x
}

/// The direction, of eight, nearest to `(dx, dy)`.
pub fn radial_bin(dx: i64, dy: i64) -> (r: Option<usize>)
    requires
        -MAX_DISPLAY_DRAG <= dx <= MAX_DISPLAY_DRAG,
        -MAX_DISPLAY_DRAG <= dy <= MAX_DISPLAY_DRAG,
    ensures
        r matches Some(k) ==> k < 8 && in_bin(dx as int, dy as int, k as int),
        r is None ==> forall|k: int| 0 <= k < 8 ==> !in_bin(dx as int, dy as int, k),
{
    let mut k: usize = 0;
    while k < 8
        invariant
            k <= 8,
            -MAX_DISPLAY_DRAG <= dx <= MAX_DISPLAY_DRAG,
            -MAX_DISPLAY_DRAG <= dy <= MAX_DISPLAY_DRAG,
            forall|j: int| 0 <= j < k ==> !in_bin(dx as int, dy as int, j),
        decreases 8 - k,
    {
        let mut x: i128 = dx as i128;
        let mut y: i128 = dy as i128;
        if k % 2 == 1 {
            let nx = x + y;
            let ny = y - x;
            x = nx;
            y = ny;
        }
        let mut m: usize = k / 2;
        assert(turn_back(dx as int, dy as int, k as int) == turn_back(x as int, y as int, 2 * m as int)) by {
            if k % 2 == 1 {
                assert(turn_back(dx as int, dy as int, k as int) == turn_back(dx + dy, dy - dx, k - 1));
            }
        }
        while m > 0
            invariant
                -B33 <= x <= B33,
                -B33 <= y <= B33,
                turn_back(dx as int, dy as int, k as int) == turn_back(x as int, y as int, 2 * m as int),
            decreases m,
        {
            let nx = y;
            let ny = -x;
            x = nx;
            y = ny;
            m = m - 1;
        }
        if in_east_arc_exec(x, y) {
            return Some(k);
        }
        k = k + 1;
    }
    None
}

/// A vector within the east arc points right and within 45° of the x axis.
proof fn lemma_east_arc_cone(x: int, y: int)
    requires
        in_east_arc(x, y),
    ensures
        x > 0,
        -x < y < x,
{
    reveal(in_east_arc);
    let ay = if y < 0 {
        -y
    } else {
        y
    };
    if ay >= x {
        assert((ay + x) * (ay + x) >= 2 * x * x) by (nonlinear_arith)
            requires ay >= x, x > 0;
    }
}

/// The east arc and the arc one eighth of a turn further do not meet.
proof fn lemma_adjacent_arcs(x: int, y: int)
    requires
        in_east_arc(x, y),
    ensures
        !in_east_arc(x + y, y - x),
{
    reveal(in_east_arc);
    lemma_east_arc_cone(x, y);
    if in_east_arc(x + y, y - x) {
        lemma_east_arc_cone(x + y, y - x);
        let p = (x + y) * (x + y);
        let q = x * x;
        assert((y + x) * (y + x) < 2 * x * x);
        assert(p < 2 * q) by (nonlinear_arith)
            requires (y + x) * (y + x) < 2 * x * x, p == (x + y) * (x + y), q == x * x;
        assert(((x - y) + (x + y)) * ((x - y) + (x + y)) < 2 * (x + y) * (x + y));
        assert(4 * q < 2 * p) by (nonlinear_arith)
            requires ((x - y) + (x + y)) * ((x - y) + (x + y)) < 2 * (x + y) * (x + y), p == (x + y) * (x + y), q == x * x;
    }
}

/// The same, with the turned vector halved.
proof fn lemma_adjacent_arcs_half(x: int, y: int, a: int, b: int)
    requires
        in_east_arc(x, y),
        2 * a == x + y,
        2 * b == y - x,
    ensures
        !in_east_arc(a, b),
{
    reveal(in_east_arc);
    lemma_adjacent_arcs(x, y);
    if in_east_arc(a, b) {
        let ab = if b < 0 {
            -b
        } else {
            b
        };
        let ab2 = if 2 * b < 0 {
            -2 * b
        } else {
            2 * b
        };
        assert(ab2 == 2 * ab);
        assert((ab + a) * (ab + a) < 2 * a * a);
        assert((ab2 + 2 * a) * (ab2 + 2 * a) < 2 * (2 * a) * (2 * a)) by (nonlinear_arith)
            requires (ab + a) * (ab + a) < 2 * a * a, ab2 == 2 * ab;
        assert(in_east_arc(2 * a, 2 * b));
    }
}

/// Every drag falls in at most one of the eight directions of a radial menu.
pub proof fn lemma_bins_disjoint(dx: int, dy: int, k1: int, k2: int)
    requires
        0 <= k1 < 8,
        0 <= k2 < 8,
        in_bin(dx, dy, k1),
        in_bin(dx, dy, k2),
    ensures
        k1 == k2,
{
    reveal_with_fuel(turn_back, 8);
    let x = dx;
    let y = dy;
    assert(turn_back(x, y, 0) == (x, y));
    assert(turn_back(x, y, 1) == (x + y, y - x));
    assert(turn_back(x, y, 2) == (y, -x));
    assert(turn_back(x, y, 3) == (y - x, -x - y));
    assert(turn_back(x, y, 4) == (-x, -y));
    assert(turn_back(x, y, 5) == (-x - y, x - y));
    assert(turn_back(x, y, 6) == (-y, x));
    assert(turn_back(x, y, 7) == (x - y, x + y));
    let (a1, b1) = turn_back(x, y, k1);
    let (a2, b2) = turn_back(x, y, k2);
    lemma_east_arc_cone(a1, b1);
    lemma_east_arc_cone(a2, b2);
    if k1 != k2 {
        let lo = if k1 < k2 { k1 } else { k2 };
        let hi = if k1 < k2 { k2 } else { k1 };
        if hi == lo + 1 {
            if lo == 0 {
                lemma_adjacent_arcs(x, y);
            } else if lo == 1 {
                lemma_adjacent_arcs_half(x + y, y - x, y, -x);
            } else if lo == 2 {
                lemma_adjacent_arcs(y, -x);
            } else if lo == 3 {
                lemma_adjacent_arcs_half(y - x, -x - y, -x, -y);
            } else if lo == 4 {
                lemma_adjacent_arcs(-x, -y);
            } else if lo == 5 {
                lemma_adjacent_arcs_half(-x - y, x - y, -y, x);
            } else {
                lemma_adjacent_arcs(-y, x);
            }
        } else if lo == 0 && hi == 7 {
            lemma_adjacent_arcs_half(x - y, x + y, x, y);
        }
    }
}

/// The entry that direction `k` of a radial menu shows: entries start at
/// direction 3 and go round clockwise.
pub open spec fn bin_entry(k: int) -> int {
    (k + 5) % 8
}

/// Squared distance of a display drag.
pub open spec fn dist2(dx: int, dy: int) -> int {
    dx * dx + dy * dy
}

} // verus!
