//! The root of the model: the blueprints, the queue of runs, the view and the
//! one pointer handler in flight. Each input event is one call that decides
//! what happens next; rendering and I/O stay with the caller.

use vstd::prelude::*;
use vstd::string::*;
use crate::geometry::{WorldPoint, WorldSize, DragMode, drag_axis, drag_fits, spec_drag_axis, consumed};
use crate::catalog::{TypeKind, Payload, PayloadModel, str_eq, spec_param_count, spec_type_key};
use crate::graph::{
    Blueprint, Frame, FrameParam, LinkTerminator, Link, has_frame, terminator_valid, frame_added,
    frame_deleted, spec_arg_frames,
};
use crate::touch::{
    LinkSide, MAX_DISPLAY_DRAG, DisplayPoint, Shortcut, Action, Menu, Entry, EntryModel, Handler, frame_menu, push_common_entries,
    radial_bin, MENU_FAR, bin_entry, dist2, in_bin, spec_frame_menu, spec_common_entries,
    entries_model,
};
use crate::graph::{Object, Machine, has_object_of, pushed_object, frame_pos};
use crate::geometry::box_contains;

verus! {

/// A queued run of the object of frame `frame` in machine `machine` of
/// blueprint `blueprint`.
#[derive(Clone, Copy, Debug, PartialEq, Eq, Structural)]
pub struct Task {
    pub blueprint: u64,
    pub machine: u64,
    pub frame: u64,
}

/// A run to perform: the task, its type, and for each parameter slot the
/// payloads of the objects linked into it.
#[derive(Debug)]
pub struct RunRequest {
    pub task: Task,
    pub typ: TypeKind,
    pub args: Vec<Vec<Payload>>,
}

/// The process-wide root of the model.
#[derive(Debug)]
pub struct Vm {
    pub blueprints: Vec<Blueprint>,
    pub active_blueprint: u64,
    pub tasks: Vec<Task>,
    /// The offset of the view in world space.
    pub center: WorldPoint,
    pub mouse_display: DisplayPoint,
    pub mouse_world: WorldPoint,
    pub handler: Option<Handler>,
    pub next_id: u64,
    /// The runs in progress.
    pub runs: Vec<Run>,
    pub next_run: u64,
}

/// `new` differs from `old` at most in the active blueprint, and the two
/// versions of it satisfy `p`. With no active blueprint nothing changes.
pub open spec fn active_changed(old: Vm, new: Vm, p: spec_fn(Blueprint, Blueprint) -> bool) -> bool {
    &&& new.active_blueprint == old.active_blueprint
    &&& new.blueprints@.len() == old.blueprints@.len()
    &&& (forall|k: int|
        0 <= k < old.blueprints@.len() && (#[trigger] old.blueprints@[k]).id == old.active_blueprint
            ==> (forall|k2: int| 0 <= k2 < k ==> old.blueprints@[k2].id != old.active_blueprint)
            ==> new.blueprints@ == old.blueprints@.update(k, new.blueprints@[k]) && p(
            old.blueprints@[k],
            new.blueprints@[k],
        ))
    &&& (forall|k: int| 0 <= k < old.blueprints@.len() ==> (#[trigger] old.blueprints@[k]).id != old.active_blueprint)
        ==> new.blueprints@ == old.blueprints@
}

/// The blueprint lost frame `frame` with its links and objects.
pub open spec fn deleted_by(frame: u64) -> spec_fn(Blueprint, Blueprint) -> bool {
    |o: Blueprint, n: Blueprint| n.wf() && frame_deleted(o, n, frame)
}

/// The blueprint gained link `link` from parameter slot `fp` to the point `w`.
pub open spec fn link_started(fp: FrameParam, link: u64, w: WorldPoint) -> spec_fn(Blueprint, Blueprint) -> bool {
    |o: Blueprint, n: Blueprint|
        n.wf() && n.links@ == o.links@.push(
            Link { id: link, a: LinkTerminator::FrameParam(fp), b: LinkTerminator::Point(w), order: 0 },
        ) && n.frames@ == o.frames@ && n.machines@ == o.machines@
}

/// The blueprint gained a global frame `frame` of type `t` at `w`, of the
/// smallest size, with an object in the global machine.
pub open spec fn frame_placed(t: TypeKind, frame: u64, w: WorldPoint) -> spec_fn(Blueprint, Blueprint) -> bool {
    |o: Blueprint, n: Blueprint|
        n.wf() && n.frames@.len() == o.frames@.len() + 1 && n.frames@.last() == (Frame {
            id: frame,
            typ: t,
            pos: w,
            size: WorldSize { width: 10, height: 10 },
            global: true,
        }) && n.frames@.subrange(0, o.frames@.len() as int) == o.frames@ && n.links@ == o.links@
            && n.machines@.len() == o.machines@.len() && forall|k: int|
            0 <= k < n.machines@.len() ==> (#[trigger] n.machines@[k]).id == o.machines@[k].id && (if k == 0 {
                pushed_object(o.machines@[k].objects@, n.machines@[k].objects@, frame, t)
            } else {
                n.machines@[k].objects@ == o.machines@[k].objects@
            })
}

/// What starting action `a` for a touch at `w` does to the model, with `r`
/// the handler it leaves running.
pub open spec fn action_outcome(old: Vm, new: Vm, a: Action, w: WorldPoint, r: Option<Handler>) -> bool {
    &&& new.handler == old.handler
    &&& new.center == old.center
    &&& new.next_id == old.next_id
    &&& new.active_blueprint == old.active_blueprint
    &&& (a is Run || new.tasks@ == old.tasks@)
    &&& (!(a is Run || a is DeleteFrame || a is ConnectParam || a is AddFrame) ==> new.blueprints@
        == old.blueprints@)
    &&& (a is MoveView ==> r == Some(Handler::MovePoint { last_touch: w, stick: true }))
    &&& (a matches Action::DragFrame { frame, horizontal, vertical } ==> r == Some(
        Handler::DragFrame { frame, horizontal, vertical, pos: w },
    ))
    &&& (a is Run || a is DeleteFrame ==> r is None)
    &&& (a matches Action::Run { frame } ==> run_enqueued(old, new, frame))
    &&& (a matches Action::DeleteFrame { frame } ==> active_changed(old, new, deleted_by(frame)))
    &&& (a matches Action::ConnectParam(fp) ==> (r matches Some(Handler::DragLink { link, side, pos })
        ==> side == LinkSide::B && pos == w && active_changed(old, new, link_started(fp, link, w))) && (r is None
        ==> new.blueprints@ == old.blueprints@) && (r is None || r->0 is DragLink) && (r is None <==> !(active_has_slot(old, fp) && active_can_grow(old))))
    &&& (a matches Action::AddFrame(t) ==> (r matches Some(Handler::DragFrame { frame, horizontal, vertical, pos })
        ==> horizontal == DragMode::Drag && vertical == DragMode::Drag && pos == w && active_changed(
        old,
        new,
        frame_placed(t, frame, w),
    )) && (r is None ==> new.blueprints@ == old.blueprints@) && (r is None || r->0 is DragFrame) && (r is None
        <==> !active_can_grow(old)))
}

/// Either `new` queues one more run, of the object of frame `frame` in the
/// machine that holds it within the active blueprint, or nothing changed
/// because there is no such object.
pub open spec fn run_enqueued(old: Vm, new: Vm, frame: u64) -> bool {
    &&& new.blueprints@ == old.blueprints@
    &&& (new.tasks@ == old.tasks@ <==> !active_has_object(old, frame))
    &&& (new.tasks@ == old.tasks@ || exists|k: int, m: int|
        0 <= k < old.blueprints@.len() && old.blueprints@[k].id == old.active_blueprint && 0 <= m
            < (#[trigger] old.blueprints@[k].machines@[m]).objects@.len() + 1
            + old.blueprints@[k].machines@.len() && m < old.blueprints@[k].machines@.len()
            && new.tasks@ == old.tasks@.push(
            Task { blueprint: old.active_blueprint, machine: old.blueprints@[k].machines@[m].id, frame },
        ) && exists|i: int|
            0 <= i < old.blueprints@[k].frames@.len() && #[trigger] old.blueprints@[k].frames@[i].id == frame
                && (old.blueprints@[k].frames@[i].global ==> m == 0) && (
            !old.blueprints@[k].frames@[i].global ==> old.blueprints@[k].machines@[m].id
                == old.blueprints@[k].active_machine))
}

/// Frame `f` after a drag by `(dx, dy)`; a drag whose arithmetic leaves
/// `i64` leaves the frame where it is.
pub open spec fn dragged(f: Frame, horizontal: DragMode, vertical: DragMode, dx: int, dy: int) -> Frame {
    if drag_fits(f.pos.x as int, f.size.width as int, dx) && drag_fits(f.pos.y as int, f.size.height as int, dy) {
        let (px, sx) = spec_drag_axis(horizontal, f.pos.x as int, f.size.width as int, dx);
        let (py, sy) = spec_drag_axis(vertical, f.pos.y as int, f.size.height as int, dy);
        Frame {
            pos: WorldPoint { x: px as i64, y: py as i64 },
            size: WorldSize { width: sx as i64, height: sy as i64 },
            ..f
        }
    } else {
        f
    }
}

/// The pointer position that a frame drag continues from: the last one,
/// advanced on each axis by the part of the drag that axis took up.
pub open spec fn next_anchor(horizontal: DragMode, vertical: DragMode, pos: WorldPoint, w: WorldPoint) -> WorldPoint {
    WorldPoint {
        x: (pos.x + consumed(horizontal, w.x - pos.x)) as i64,
        y: (pos.y + consumed(vertical, w.y - pos.y)) as i64,
    }
}

/// The blueprint's frame `frame` was dragged by `(dx, dy)`.
pub open spec fn frame_dragged(frame: u64, horizontal: DragMode, vertical: DragMode, dx: int, dy: int) -> spec_fn(Blueprint, Blueprint) -> bool {
    |o: Blueprint, n: Blueprint|
        n.wf() && n.links@ == o.links@ && n.machines@ == o.machines@ && exists|i: int|
            0 <= i < o.frames@.len() && #[trigger] o.frames@[i].id == frame && n.frames@ == o.frames@.update(
                i,
                dragged(o.frames@[i], horizontal, vertical, dx, dy),
            )
}

/// The first link `id` had its end `a` (`side_a`) or `b` set to `t`.
pub open spec fn link_end_set(id: u64, side_a: bool, t: LinkTerminator) -> spec_fn(Blueprint, Blueprint) -> bool {
    |o: Blueprint, n: Blueprint|
        n.wf() && n.frames@ == o.frames@ && n.machines@ == o.machines@ && exists|l: int|
            0 <= l < o.links@.len() && #[trigger] o.links@[l].id == id && (forall|l2: int|
                0 <= l2 < l ==> o.links@[l2].id != id) && n.links@ == o.links@.update(
                l,
                if side_a {
                    Link { a: t, ..o.links@[l] }
                } else {
                    Link { b: t, ..o.links@[l] }
                },
            )
}

/// A dragged link end was let go at `pos`: it lands on the first frame there,
/// or, over empty canvas, the link goes.
pub open spec fn link_dropped(id: u64, side_a: bool, pos: WorldPoint) -> spec_fn(Blueprint, Blueprint) -> bool {
    |o: Blueprint, n: Blueprint|
        n.wf() && n.frames@ == o.frames@ && n.machines@ == o.machines@ && ((exists|i: int|
            0 <= i < o.frames@.len() && box_contains(#[trigger] o.frames@[i].pos, o.frames@[i].size, pos)
                && (forall|j: int| 0 <= j < i ==> !box_contains(o.frames@[j].pos, o.frames@[j].size, pos))
                && ((link_end_set(id, side_a, LinkTerminator::Frame(o.frames@[i].id)))(o, n) || (forall|l: int|
                0 <= l < o.links@.len() ==> #[trigger] o.links@[l].id != id) && n.links@ == o.links@)) || (
        (forall|i: int| 0 <= i < o.frames@.len() ==> !box_contains(#[trigger] o.frames@[i].pos, o.frames@[i].size, pos))
            && (((forall|l: int| 0 <= l < o.links@.len() ==> #[trigger] o.links@[l].id != id) && n.links@ == o.links@)
            || exists|l: int| 0 <= l < o.links@.len() && #[trigger] o.links@[l].id == id && n.links@ == o.links@.remove(l))))
}

/// `v + d` when it fits in `i64`, `v` otherwise.
pub open spec fn shifted(v: i64, d: int) -> i64 {
    if i64::MIN <= v + d <= i64::MAX {
        (v + d) as i64
    } else {
        v
    }
}

/// Display offset of `d` from `anchor`.
pub open spec fn menu_offset(d: DisplayPoint, anchor: DisplayPoint) -> (int, int) {
    (d.x - anchor.x, d.y - anchor.y)
}

/// What continuing handler `h` to display point `d` / world point `w` does
/// to the model, with `r` the handler that follows.
pub open spec fn touch_continued(old: Vm, new: Vm, h: Handler, d: DisplayPoint, w: WorldPoint, r: Option<Handler>) -> bool {
    &&& new.handler == old.handler
    &&& new.next_id == old.next_id
    &&& new.active_blueprint == old.active_blueprint
    &&& (!(h is Menu) ==> new.tasks@ == old.tasks@)
    &&& (!(h is MovePoint) && !(h is Menu) ==> new.center == old.center)
    &&& match h {
        Handler::DragFrame { frame, horizontal, vertical, pos } => (r is None <==> !active_has_frame(old, frame)) && ((
        r is None && new.blueprints@ == old.blueprints@) || (r == Some(
            Handler::DragFrame { frame, horizontal, vertical, pos: next_anchor(horizontal, vertical, pos, w) },
        ) && active_changed(old, new, frame_dragged(frame, horizontal, vertical, w.x - pos.x, w.y - pos.y)))),
        Handler::DragLink { link, side, pos } => (r is None <==> !active_has_link(old, link)) && ((r is None
            && new.blueprints@ == old.blueprints@) || (r == Some(Handler::DragLink { link, side, pos: w })
            && active_changed(old, new, link_end_set(link, side == LinkSide::A, LinkTerminator::Point(w))))),
        Handler::MovePoint { last_touch, stick } => {
            &&& new.blueprints@ == old.blueprints@
            &&& new.center == WorldPoint {
                x: shifted(old.center.x, w.x - last_touch.x),
                y: shifted(old.center.y, w.y - last_touch.y),
            }
            &&& r == Some(Handler::MovePoint { last_touch: if stick { last_touch } else { w }, stick })
        },
        Handler::Menu { menu, anchor } => {
            let (dx, dy) = menu_offset(d, anchor);
            if dist2(dx, dy) <= MENU_FAR * MENU_FAR {
                r == Some(h) && new.blueprints@ == old.blueprints@ && new.tasks@ == old.tasks@ && new.center
                    == old.center
            } else {
                ||| (forall|k: int| 0 <= k < 8 ==> !in_bin(dx, dy, k)) && r is None && new.blueprints@
                    == old.blueprints@ && new.tasks@ == old.tasks@ && new.center == old.center
                ||| exists|k: int|
                    0 <= k < 8 && #[trigger] in_bin(dx, dy, k) && bin_entry(k) >= menu.entries@.len() && r is None
                        && new.blueprints@ == old.blueprints@ && new.tasks@ == old.tasks@ && new.center == old.center
                ||| exists|k: int|
                    0 <= k < 8 && in_bin(dx, dy, k) && bin_entry(k) < menu.entries@.len() && action_outcome(
                        old,
                        new,
                        (#[trigger] menu.entries@[bin_entry(k)]).action,
                        w,
                        r,
                    )
            }
        },
    }
}

/// A radial menu is open and the pointer is within its outer radius, where
/// letting go keeps it open.
pub open spec fn released_inside_menu(vm: Vm) -> bool {
    vm.handler matches Some(Handler::Menu { menu, anchor }) && dist2(
        vm.mouse_display.x - anchor.x,
        vm.mouse_display.y - anchor.y,
    ) <= MENU_FAR * MENU_FAR
}

/// What letting go of handler `h` does to the model.
pub open spec fn touch_ended(old: Vm, new: Vm, h: Handler) -> bool {
    &&& new.handler == old.handler
    &&& new.next_id == old.next_id
    &&& new.active_blueprint == old.active_blueprint
    &&& new.tasks@ == old.tasks@
    &&& new.center == old.center
    &&& match h {
        Handler::DragLink { link, side, pos } => active_changed(old, new, link_dropped(link, side == LinkSide::A, pos)),
        _ => new.blueprints@ == old.blueprints@,
    }
}

/// The menus of frames `i..` of `frames`, the first that there is.
pub open spec fn frame_menu_from(frames: Seq<Frame>, w: WorldPoint, i: int) -> Option<Seq<EntryModel>>
    decreases frames.len() - i,
{
    if i < 0 || i >= frames.len() {
        None
    } else {
        match spec_frame_menu(frames[i], w) {
            Some(m) => Some(m),
            None => frame_menu_from(frames, w, i + 1),
        }
    }
}

/// The index of the first blueprint with the active id.
pub open spec fn is_active_index(vm: Vm, k: int) -> bool {
    &&& 0 <= k < vm.blueprints@.len()
    &&& vm.blueprints@[k].id == vm.active_blueprint
    &&& forall|k2: int| 0 <= k2 < k ==> vm.blueprints@[k2].id != vm.active_blueprint
}

/// The menu for a touch at `w`: that of the first frame (in storage order)
/// that offers one, followed by the common entries; or the common entries
/// alone.
pub open spec fn spec_vm_menu(vm: Vm, w: WorldPoint) -> Seq<EntryModel> {
    if exists|k: int| is_active_index(vm, k) {
        let k = choose|k: int| is_active_index(vm, k);
        match frame_menu_from(vm.blueprints@[k].frames@, w, 0) {
            Some(m) => m + spec_common_entries(),
            None => spec_common_entries(),
        }
    } else {
        spec_common_entries()
    }
}

/// The colour of the menu for a touch at `w`: grey for a frame's menu,
/// orange for the canvas.
pub open spec fn spec_vm_menu_color(vm: Vm, w: WorldPoint) -> Seq<char> {
    if exists|k: int| is_active_index(vm, k) {
        let k = choose|k: int| is_active_index(vm, k);
        if frame_menu_from(vm.blueprints@[k].frames@, w, 0) is Some {
            "#888"@
        } else {
            "#f49e42"@
        }
    } else {
        "#f49e42"@
    }
}

/// Entry `i` is the first that shortcut `s` triggers.
pub open spec fn first_with(m: Seq<EntryModel>, s: Shortcut, i: int) -> bool {
    &&& 0 <= i < m.len()
    &&& m[i].shortcuts.contains(s)
    &&& forall|j: int| 0 <= j < i ==> !(#[trigger] m[j]).shortcuts.contains(s)
}

/// Triggering shortcut `s` on a menu with entries `m` starts the first entry
/// that `s` triggers, with `r` the handler that follows; with no such entry
/// nothing happens.
pub open spec fn shortcut_outcome(old: Vm, new: Vm, m: Seq<EntryModel>, s: Shortcut, w: WorldPoint, r: Option<Handler>) -> bool {
    ||| exists|i: int| first_with(m, s, i) && action_outcome(old, new, (#[trigger] m[i]).action, w, r)
    ||| (forall|j: int| 0 <= j < m.len() ==> !(#[trigger] m[j]).shortcuts.contains(s)) && r is None
        && new.blueprints@ == old.blueprints@ && new.tasks@ == old.tasks@ && new.center == old.center
        && new.handler == old.handler
}

/// The machine that holds the object of frame `id` for a run in machine `m`:
/// the global machine for a global frame, `m` otherwise.
pub open spec fn source_machine(bp: Blueprint, m: int, id: u64) -> int {
    if has_frame(bp.frames@, id) && bp.frames@[frame_pos(bp.frames@, id)].global {
        0
    } else {
        m
    }
}

/// The payloads of the objects of frames `ids` for a run in machine `m` of
/// `bp`, each looked up in the machine that holds it, skipping frames
/// without one; each frame gives its first object.
pub open spec fn arg_payloads(bp: Blueprint, m: int, ids: Seq<u64>) -> Seq<PayloadModel>
    decreases ids.len(),
{
    if ids.len() == 0 {
        Seq::empty()
    } else {
        let rest = arg_payloads(bp, m, ids.drop_last());
        let objects = bp.machines@[source_machine(bp, m, ids.last())].objects@;
        match first_object(objects, ids.last()) {
            Some(j) => rest.push(objects[j].data@),
            None => rest,
        }
    }
}

/// The index of the first object of frame `id`.
pub open spec fn first_object(objects: Seq<Object>, id: u64) -> Option<int> {
    if exists|j: int| 0 <= j < objects.len() && objects[j].frame == id && forall|j2: int|
        0 <= j2 < j ==> objects[j2].frame != id {
        Some(
            choose|j: int|
                0 <= j < objects.len() && objects[j].frame == id && forall|j2: int|
                    0 <= j2 < j ==> objects[j2].frame != id,
        )
    } else {
        None
    }
}

/// The active blueprint holds an object for frame `id`.
pub open spec fn active_has_object(vm: Vm, id: u64) -> bool {
    exists|k: int| #[trigger] is_active_index(vm, k) && has_object_of(vm.blueprints@[k], id)
}

/// The active blueprint has frame `id`.
pub open spec fn active_has_frame(vm: Vm, id: u64) -> bool {
    exists|k: int| #[trigger] is_active_index(vm, k) && has_frame(vm.blueprints@[k].frames@, id)
}

/// The active blueprint has the frame of slot `fp`, and that frame's type has
/// the slot.
pub open spec fn active_has_slot(vm: Vm, fp: FrameParam) -> bool {
    exists|k: int|
        #[trigger] is_active_index(vm, k) && has_frame(vm.blueprints@[k].frames@, fp.frame) && fp.param_index
            < spec_param_count(vm.blueprints@[k].frames@[frame_pos(vm.blueprints@[k].frames@, fp.frame)].typ)
}

/// The active blueprint has a link with id `id`.
pub open spec fn active_has_link(vm: Vm, id: u64) -> bool {
    exists|k: int|
        #[trigger] is_active_index(vm, k) && exists|l: int|
            0 <= l < vm.blueprints@[k].links@.len() && #[trigger] vm.blueprints@[k].links@[l].id == id
}

/// The active blueprint has ids left for a new entity.
pub open spec fn active_can_grow(vm: Vm) -> bool {
    exists|k: int| #[trigger] is_active_index(vm, k) && vm.blueprints@[k].next_id < u64::MAX
}

/// With no blueprint of the active id there is no active blueprint.
pub proof fn lemma_no_active(vm: Vm)
    requires
        forall|k: int| 0 <= k < vm.blueprints@.len() ==> #[trigger] vm.blueprints@[k].id != vm.active_blueprint,
    ensures
        forall|k: int| !#[trigger] is_active_index(vm, k),
{
}

/// There is one first blueprint with the active id.
pub proof fn lemma_active_unique(vm: Vm, k1: int, k2: int)
    requires
        is_active_index(vm, k1),
        is_active_index(vm, k2),
    ensures
        k1 == k2,
{
    if k1 < k2 {
        assert(vm.blueprints@[k1].id != vm.active_blueprint);
    }
    if k2 < k1 {
        assert(vm.blueprints@[k2].id != vm.active_blueprint);
    }
}

/// Changing the first blueprint with the active id, and no other, is a
/// change of the active blueprint.
pub proof fn lemma_active_changed(old: Vm, new: Vm, k: int, p: spec_fn(Blueprint, Blueprint) -> bool)
    requires
        0 <= k < old.blueprints@.len(),
        old.blueprints@[k].id == old.active_blueprint,
        forall|k2: int| 0 <= k2 < k ==> old.blueprints@[k2].id != old.active_blueprint,
        new.blueprints@ == old.blueprints@.update(k, new.blueprints@[k]),
        new.active_blueprint == old.active_blueprint,
        p(old.blueprints@[k], new.blueprints@[k]),
    ensures
        active_changed(old, new, p),
{
    assert forall|k1: int|
        0 <= k1 < old.blueprints@.len() && (#[trigger] old.blueprints@[k1]).id == old.active_blueprint
            implies (forall|k2: int| 0 <= k2 < k1 ==> old.blueprints@[k2].id != old.active_blueprint)
            ==> new.blueprints@ == old.blueprints@.update(k1, new.blueprints@[k1]) && p(
            old.blueprints@[k1],
            new.blueprints@[k1],
        ) by {
        if (forall|k2: int| 0 <= k2 < k1 ==> old.blueprints@[k2].id != old.active_blueprint) {
            if k1 > k {
                assert(old.blueprints@[k].id != old.active_blueprint);
            }
            assert(k1 == k);
        }
    }
    assert(old.blueprints@[k].id == old.active_blueprint);
    assert(!(forall|k3: int| 0 <= k3 < old.blueprints@.len() ==> (#[trigger] old.blueprints@[k3]).id != old.active_blueprint));
    assert(new.blueprints@.len() == old.blueprints@.len());
}

impl Vm {
    pub open spec fn wf(&self) -> bool {
        &&& forall|k: int| 0 <= k < self.blueprints@.len() ==> (#[trigger] self.blueprints@[k]).wf()
        &&& forall|k: int| 0 <= k < self.blueprints@.len() ==> (#[trigger] self.blueprints@[k]).id < self.next_id
    }

    /// An empty model with no blueprint.
    pub fn new() -> (r: Vm)
        ensures
            r.wf(),
            r.blueprints@.len() == 0,
            r.tasks@.len() == 0,
            r.handler is None,
            r.center == (WorldPoint { x: 0, y: 0 }),
            r.next_id == 0,
    {
        Vm {
            blueprints: Vec::new(),
            active_blueprint: 0,
            tasks: Vec::new(),
            center: WorldPoint { x: 0, y: 0 },
            mouse_display: DisplayPoint { x: 0, y: 0 },
            mouse_world: WorldPoint { x: 0, y: 0 },
            handler: None,
            next_id: 0,
            runs: Vec::new(),
            next_run: 0,
        }
    }

    /// Adds an empty blueprint named `name`, with only its global machine.
    /// Returns its id; the active blueprint does not change.
    pub fn add_blueprint(&mut self, name: String) -> (r: u64)
        requires
            old(self).wf(),
            old(self).next_id < u64::MAX,
        ensures
            final(self).wf(),
            r == old(self).next_id,
            final(self).next_id == old(self).next_id + 1,
            final(self).blueprints@.len() == old(self).blueprints@.len() + 1,
            final(self).blueprints@.subrange(0, old(self).blueprints@.len() as int) == old(self).blueprints@,
            final(self).blueprints@.last().id == r,
            final(self).blueprints@.last().name@ == name@,
            final(self).blueprints@.last().frames@.len() == 0,
            final(self).blueprints@.last().links@.len() == 0,
            final(self).blueprints@.last().machines@.len() == 1,
            final(self).active_blueprint == old(self).active_blueprint,
            final(self).tasks@ == old(self).tasks@,
            final(self).handler == old(self).handler,
            final(self).center == old(self).center,
    {
        let id = self.next_id;
        let bp = Blueprint::new(id, name);
        self.blueprints.push(bp);
        self.next_id = id + 1;
        proof {
            let bs = self.blueprints@;
            assert(bs.subrange(0, old(self).blueprints@.len() as int) =~= old(self).blueprints@);
            assert forall|k: int| 0 <= k < bs.len() implies (#[trigger] bs[k]).wf() && bs[k].id < self.next_id by {
                if k < old(self).blueprints@.len() {
                    assert(bs[k] == old(self).blueprints@[k]);
                }
            }
        }
        id
    }

    /// A model holding one blueprint named "Default", active.
    pub fn with_default_blueprint() -> (r: Vm)
        ensures
            r.wf(),
            r.blueprints@.len() == 1,
            r.blueprints@[0].name@ == "Default"@,
            r.blueprints@[0].frames@.len() == 0,
            r.blueprints@[0].machines@.len() == 1,
            r.active_blueprint == r.blueprints@[0].id,
            r.tasks@.len() == 0,
            r.handler is None,
    {
        let mut vm = Vm::new();
        let id = vm.add_blueprint(String::from_str("Default"));
        vm.active_blueprint = id;
        vm
    }

    /// Makes blueprint `id` the active one. Returns whether it exists.
    pub fn activate(&mut self, id: u64) -> (r: bool)
        ensures
            r == exists|k: int| 0 <= k < old(self).blueprints@.len() && #[trigger] old(self).blueprints@[k].id == id,
            final(self).active_blueprint == if r { id } else { old(self).active_blueprint },
            final(self).blueprints@ == old(self).blueprints@,
            final(self).tasks@ == old(self).tasks@,
            final(self).next_id == old(self).next_id,
    {
        match self.blueprint_index(id) {
            Some(_) => {
                self.active_blueprint = id;
                true
            },
            None => false,
        }
    }

    /// The index of the first blueprint with id `id`.
    pub fn blueprint_index(&self, id: u64) -> (r: Option<usize>)
        ensures
            r matches Some(k) ==> k < self.blueprints@.len() && self.blueprints@[k as int].id == id
                && forall|k2: int| 0 <= k2 < k ==> self.blueprints@[k2].id != id,
            r is None ==> forall|k: int| 0 <= k < self.blueprints@.len() ==> #[trigger] self.blueprints@[k].id != id,
    {
        let mut k: usize = 0;
        while k < self.blueprints.len()
            invariant
                k <= self.blueprints@.len(),
                forall|k2: int| 0 <= k2 < k ==> #[trigger] self.blueprints@[k2].id != id,
            decreases self.blueprints@.len() - k,
        {
            if self.blueprints[k].id == id {
                return Some(k);
            }
            k = k + 1;
        }
        None
    }

    /// Takes the active blueprint out of the model, leaving a placeholder.
    fn take_active(&mut self) -> (r: Option<(usize, Blueprint)>)
        ensures
            final(self).active_blueprint == old(self).active_blueprint,
            final(self).tasks@ == old(self).tasks@,
            final(self).next_id == old(self).next_id,
            final(self).center == old(self).center,
            final(self).handler == old(self).handler,
            final(self).mouse_display == old(self).mouse_display,
            final(self).mouse_world == old(self).mouse_world,
            r matches Some((k, bp)) ==> {
                &&& k < old(self).blueprints@.len()
                &&& bp == old(self).blueprints@[k as int]
                &&& bp.id == old(self).active_blueprint
                &&& forall|k2: int| 0 <= k2 < k ==> old(self).blueprints@[k2].id != old(self).active_blueprint
                &&& final(self).blueprints@.len() == old(self).blueprints@.len()
                &&& forall|k2: int| 0 <= k2 < old(self).blueprints@.len() && k2 != k
                    ==> final(self).blueprints@[k2] == old(self).blueprints@[k2]
            },
            r is None ==> final(self).blueprints@ == old(self).blueprints@ && forall|k: int|
                0 <= k < old(self).blueprints@.len() ==> #[trigger] old(self).blueprints@[k].id
                    != old(self).active_blueprint,
    {
        match self.blueprint_index(self.active_blueprint) {
            None => None,
            Some(k) => {
                let mut bp = Blueprint::new(0, String::new());
                self.blueprints.set_and_swap(k, &mut bp);
                Some((k, bp))
            },
        }
    }

    /// Puts the active blueprint back where `take_active` found it.
    fn put_back(&mut self, k: usize, bp: Blueprint)
        requires
            k < old(self).blueprints@.len(),
        ensures
            final(self).blueprints@ == old(self).blueprints@.update(k as int, bp),
            final(self).active_blueprint == old(self).active_blueprint,
            final(self).tasks@ == old(self).tasks@,
            final(self).next_id == old(self).next_id,
            final(self).center == old(self).center,
            final(self).handler == old(self).handler,
            final(self).mouse_display == old(self).mouse_display,
            final(self).mouse_world == old(self).mouse_world,
    {
        let mut b = bp;
        self.blueprints.set_and_swap(k, &mut b);
    }

    /// Queues a run of the object of frame `frame` in the active blueprint:
    /// the object in the global machine for a global frame, in the active
    /// machine otherwise. Returns whether there was such an object.
    pub fn enqueue_run(&mut self, frame: u64) -> (r: bool)
        requires
            old(self).wf(),
        ensures
            final(self).wf(),
            final(self).blueprints@ == old(self).blueprints@,
            final(self).active_blueprint == old(self).active_blueprint,
            final(self).handler == old(self).handler,
            final(self).center == old(self).center,
            final(self).next_id == old(self).next_id,
            final(self).mouse_display == old(self).mouse_display,
            final(self).mouse_world == old(self).mouse_world,
            r == active_has_object(*old(self), frame),
            !r ==> final(self).tasks@ == old(self).tasks@,
            run_enqueued(*old(self), *final(self), frame),
    {
        match self.blueprint_index(self.active_blueprint) {
            None => {
                proof {
                    lemma_no_active(*self);
                }
                false
            },
            Some(k) => {
                proof {
                    assert(is_active_index(*self, k as int));
                }
                match self.blueprints[k].get_object(frame) {
                    None => {
                        proof {
                            assert forall|k2: int| #[trigger] is_active_index(*self, k2) implies !has_object_of(self.blueprints@[k2], frame) by {
                                lemma_active_unique(*self, k2, k as int);
                            }
                        }
                        false
                    },
                    Some((m, _j)) => {
                        let t = Task {
                            blueprint: self.active_blueprint,
                            machine: self.blueprints[k].machines[m].id,
                            frame,
                        };
                        self.tasks.push(t);
                        proof {
                            let bp = old(self).blueprints@[k as int];
                            let i = choose|i: int|
                                0 <= i < bp.frames@.len() && #[trigger] bp.frames@[i].id == frame && (bp.frames@[i].global ==> m == 0)
                                    && (!bp.frames@[i].global ==> bp.machines@[m as int].id == bp.active_machine);
                            assert(bp.machines@[m as int] == old(self).blueprints@[k as int].machines@[m as int]);
                            assert(self.tasks@.len() == old(self).tasks@.len() + 1);
                            assert(active_has_object(*old(self), frame)) by {
                                assert(is_active_index(*old(self), k as int));
                                assert(has_object_of(bp, frame));
                            }
                        }
                        true
                    },
                }
            },
        }
    }

    /// Starts the action of a chosen menu entry for a touch at `d` / `w`, and
    /// returns the handler that follows the touch from there, if any.
    pub fn start_action(&mut self, a: Action, d: DisplayPoint, w: WorldPoint) -> (r: Option<Handler>)
        requires
            old(self).wf(),
        ensures
            final(self).wf(),
            action_outcome(*old(self), *final(self), a, w, r),
            final(self).mouse_display == old(self).mouse_display,
            final(self).mouse_world == old(self).mouse_world,
    {
        match a {
            Action::MoveView => Some(Handler::MovePoint { last_touch: w, stick: true }),
            Action::DragFrame { frame, horizontal, vertical } => Some(
                Handler::DragFrame { frame, horizontal, vertical, pos: w },
            ),
            Action::Run { frame } => {
                let _ = self.enqueue_run(frame);
                proof {
                    assert(run_enqueued(*old(self), *self, frame));
                }
                None
            },
            Action::DeleteFrame { frame } => {
                match self.take_active() {
                    None => {},
                    Some((k, bp)) => {
                        let mut bp = bp;
                        let _ = bp.delete_frame(frame);
                        self.put_back(k, bp);
                        proof {
                            assert(self.blueprints@ =~= old(self).blueprints@.update(k as int, self.blueprints@[k as int]));
                            self.lemma_put_back_wf(*old(self), k as int);
                            lemma_active_changed(*old(self), *self, k as int, deleted_by(frame));
                        }
                    },
                }
                None
            },
            Action::ConnectParam(fp) => {
                match self.take_active() {
                    None => {
                        proof {
                            lemma_no_active(*old(self));
                        }
                        None
                    },
                    Some((k, bp)) => {
                        let mut bp = bp;
                        proof {
                            assert(is_active_index(*old(self), k as int));
                            assert forall|k2: int| #[trigger] is_active_index(*old(self), k2) implies k2 == k by {
                                lemma_active_unique(*old(self), k2, k as int);
                            }
                        }
                        let found = match bp.frame_index(fp.frame) {
                            Some(i) => {
                                proof {
                                    assert(bp.frames@[i as int].id == fp.frame);
                                    assert(has_frame(old(self).blueprints@[k as int].frames@, fp.frame));
                                    crate::persist::lemma_frame_pos(bp.frames@, fp.frame, i as int);
                                }
                                fp.param_index < bp.frames[i].typ.param_count()
                            },
                            None => false,
                        };
                        if bp.next_id < u64::MAX && found {
                            let link = bp.add_link(LinkTerminator::FrameParam(fp), LinkTerminator::Point(w), 0);
                            self.put_back(k, bp);
                            proof {
                            assert(self.blueprints@ =~= old(self).blueprints@.update(k as int, self.blueprints@[k as int]));
                            self.lemma_put_back_wf(*old(self), k as int);
                                lemma_active_changed(*old(self), *self, k as int, link_started(fp, link, w));
                                assert(active_has_slot(*old(self), fp));
                                assert(active_can_grow(*old(self)));
                            }
                            Some(Handler::DragLink { link, side: LinkSide::B, pos: w })
                        } else {
                            self.put_back(k, bp);
                            proof {
                                assert(self.blueprints@ =~= old(self).blueprints@);
                                assert(!(active_has_slot(*old(self), fp) && active_can_grow(*old(self))));
                            }
                            None
                        }
                    },
                }
            },
            Action::AddFrame(t) => {
                match self.take_active() {
                    None => {
                        proof {
                            lemma_no_active(*old(self));
                        }
                        None
                    },
                    Some((k, bp)) => {
                        let mut bp = bp;
                        proof {
                            assert(is_active_index(*old(self), k as int));
                            assert forall|k2: int| #[trigger] is_active_index(*old(self), k2) implies k2 == k by {
                                lemma_active_unique(*old(self), k2, k as int);
                            }
                        }
                        if bp.next_id < u64::MAX {
                            let frame = bp.add_frame(t, true);
                            let i = bp.frames.len() - 1;
                            bp.set_frame_box(i, w, WorldSize { width: 10, height: 10 });
                            self.put_back(k, bp);
                            proof {
                                assert(self.blueprints@ =~= old(self).blueprints@.update(k as int, self.blueprints@[k as int]));
                                self.lemma_put_back_wf(*old(self), k as int);
                                let o = old(self).blueprints@[k as int];
                                let n = self.blueprints@[k as int];
                                assert(n.frames@.subrange(0, o.frames@.len() as int) =~= o.frames@);
                                lemma_active_changed(*old(self), *self, k as int, frame_placed(t, frame, w));
                                assert(active_can_grow(*old(self)));
                            }
                            Some(Handler::DragFrame { frame, horizontal: DragMode::Drag, vertical: DragMode::Drag, pos: w })
                        } else {
                            self.put_back(k, bp);
                            proof {
                                assert(self.blueprints@ =~= old(self).blueprints@);
                                assert(!active_can_grow(*old(self)));
                            }
                            None
                        }
                    },
                }
            },
        }
    }

    /// Replacing one blueprint by a well-formed one keeps the model well formed.
    proof fn lemma_put_back_wf(&self, before: Vm, k: int)
        requires
            before.wf(),
            0 <= k < before.blueprints@.len(),
            self.blueprints@ == before.blueprints@.update(k, self.blueprints@[k]),
            self.blueprints@[k].wf(),
            self.blueprints@[k].id == before.blueprints@[k].id,
            self.next_id == before.next_id,
        ensures
            self.wf(),
    {
        assert forall|k2: int| 0 <= k2 < self.blueprints@.len() implies (#[trigger] self.blueprints@[k2]).wf()
            && self.blueprints@[k2].id < self.next_id by {
            if k2 != k {
                assert(self.blueprints@[k2] == before.blueprints@[k2]);
            }
        }
    }
}

impl Vm {
    /// Follows handler `h` to display point `d` / world point `w`, and returns
    /// the handler that follows.
    pub fn continue_touch(&mut self, h: Handler, d: DisplayPoint, w: WorldPoint) -> (r: Option<Handler>)
        requires
            old(self).wf(),
        ensures
            final(self).wf(),
            touch_continued(*old(self), *final(self), h, d, w, r),
            final(self).mouse_display == old(self).mouse_display,
            final(self).mouse_world == old(self).mouse_world,
    {
        match h {
            Handler::DragFrame { frame, horizontal, vertical, pos } => {
                match self.take_active() {
                    None => {
                        proof {
                            lemma_no_active(*old(self));
                        }
                        None
                    },
                    Some((k, bp)) => {
                        let mut bp = bp;
                        proof {
                            assert(is_active_index(*old(self), k as int));
                            assert forall|k2: int| #[trigger] is_active_index(*old(self), k2) implies k2 == k by {
                                lemma_active_unique(*old(self), k2, k as int);
                            }
                        }
                        match bp.frame_index(frame) {
                            None => {
                                self.put_back(k, bp);
                                proof { assert(self.blueprints@ =~= old(self).blueprints@); }
                                None
                            },
                            Some(i) => {
                                proof {
                                    assert(bp.frames@[i as int].id == frame);
                                    assert(has_frame(old(self).blueprints@[k as int].frames@, frame));
                                    assert(active_has_frame(*old(self), frame));
                                }
                                let f = bp.frames[i];
                                let ghost fi = i;
                                proof {
                                    assert forall|i2: int| 0 <= i2 < i implies bp.frames@[i2].id != frame by {}
                                }
                                let dx: i128 = w.x as i128 - pos.x as i128;
                                let dy: i128 = w.y as i128 - pos.y as i128;
                                if i64::MIN as i128 <= dx && dx <= i64::MAX as i128 && i64::MIN as i128 <= dy
                                    && dy <= i64::MAX as i128 && fits(f.pos.x, f.size.width, dx as i64) && fits(
                                    f.pos.y,
                                    f.size.height,
                                    dy as i64,
                                ) {
                                    let (px, sx, _) = drag_axis(horizontal, f.pos.x, f.size.width, dx as i64);
                                    let (py, sy, _) = drag_axis(vertical, f.pos.y, f.size.height, dy as i64);
                                    bp.set_frame_box(i, WorldPoint { x: px, y: py }, WorldSize { width: sx, height: sy });
                                    proof {
                                        assert(bp.frames@[i as int] == dragged(f, horizontal, vertical, w.x - pos.x, w.y - pos.y));
                                    }
                                } else {
                                    proof {
                                        assert(bp.frames@ =~= bp.frames@.update(i as int, dragged(f, horizontal, vertical, w.x - pos.x, w.y - pos.y)));
                                    }
                                }
                                self.put_back(k, bp);
                                proof {
                                    assert(self.blueprints@ =~= old(self).blueprints@.update(k as int, self.blueprints@[k as int]));
                                    self.lemma_put_back_wf(*old(self), k as int);
                                    lemma_active_changed(*old(self), *self, k as int, frame_dragged(frame, horizontal, vertical, w.x - pos.x, w.y - pos.y));
                                }
                                Some(Handler::DragFrame {
                                    frame,
                                    horizontal,
                                    vertical,
                                    pos: WorldPoint { x: advance(horizontal, pos.x, w.x), y: advance(vertical, pos.y, w.y) },
                                })
                            },
                        }
                    },
                }
            },
            Handler::DragLink { link, side, pos } => {
                let side_a = side == LinkSide::A;
                match self.take_active() {
                    None => {
                        proof {
                            lemma_no_active(*old(self));
                        }
                        None
                    },
                    Some((k, bp)) => {
                        let mut bp = bp;
                        proof {
                            assert(is_active_index(*old(self), k as int));
                            assert forall|k2: int| #[trigger] is_active_index(*old(self), k2) implies k2 == k by {
                                lemma_active_unique(*old(self), k2, k as int);
                            }
                        }
                        let found = bp.set_link_end(link, side_a, LinkTerminator::Point(w));
                        self.put_back(k, bp);
                        if found {
                            proof {
                                assert(self.blueprints@ =~= old(self).blueprints@.update(k as int, self.blueprints@[k as int]));
                                self.lemma_put_back_wf(*old(self), k as int);
                                lemma_active_changed(*old(self), *self, k as int, link_end_set(link, side_a, LinkTerminator::Point(w)));
                            }
                            Some(Handler::DragLink { link, side, pos: w })
                        } else {
                            proof { assert(self.blueprints@ =~= old(self).blueprints@); }
                            None
                        }
                    },
                }
            },
            Handler::MovePoint { last_touch, stick } => {
                let cx = shift(self.center.x, w.x as i128 - last_touch.x as i128);
                let cy = shift(self.center.y, w.y as i128 - last_touch.y as i128);
                self.center = WorldPoint { x: cx, y: cy };
                Some(Handler::MovePoint { last_touch: if stick { last_touch } else { w }, stick })
            },
            Handler::Menu { menu, anchor } => {
                let dx: i64 = d.x as i64 - anchor.x as i64;
                let dy: i64 = d.y as i64 - anchor.y as i64;
                let ddx = dx as i128;
                let ddy = dy as i128;
                proof {
                    assert(0 <= ddx * ddx <= 0x1_0000_0000_0000_0000) by (nonlinear_arith)
                        requires -0x1_0000_0000 <= ddx <= 0x1_0000_0000;
                    assert(0 <= ddy * ddy <= 0x1_0000_0000_0000_0000) by (nonlinear_arith)
                        requires -0x1_0000_0000 <= ddy <= 0x1_0000_0000;
                    assert(MENU_FAR * MENU_FAR == 256) by (nonlinear_arith)
                        requires MENU_FAR == 16;
                }
                let q: i128 = ddx * ddx + ddy * ddy;
                if q <= 256 {
                    return Some(Handler::Menu { menu, anchor });
                }
                match radial_bin(dx, dy) {
                    None => None,
                    Some(b) => {
                        let e = (b + 5) % 8;
                        if e < menu.entries.len() {
                            let a = menu.entries[e].action;
                            let r = self.start_action(a, d, w);
                            proof {
                                assert(menu.entries@[bin_entry(b as int)].action == a);
                            }
                            r
                        } else {
                            assert(in_bin(dx as int, dy as int, b as int));
                            None
                        }
                    },
                }
            },
        }
    }

    /// Lets go of handler `h`: a dragged link end lands on the first frame
    /// under it, or the link goes.
    pub fn end_touch(&mut self, h: Handler)
        requires
            old(self).wf(),
        ensures
            final(self).wf(),
            touch_ended(*old(self), *final(self), h),
            final(self).mouse_display == old(self).mouse_display,
            final(self).mouse_world == old(self).mouse_world,
    {
        match h {
            Handler::DragLink { link, side, pos } => {
                let side_a = side == LinkSide::A;
                match self.take_active() {
                    None => {},
                    Some((k, bp)) => {
                        let mut bp = bp;
                        let ghost o = bp;
                        match bp.query_frame(&pos) {
                            Some(i) => {
                                let id = bp.frames[i].id;
                                proof {
                                    assert(terminator_valid(bp.frames@, LinkTerminator::Frame(id))) by {
                                        assert(bp.frames@[i as int].id == id);
                                    }
                                }
                                let found = bp.set_link_end(link, side_a, LinkTerminator::Frame(id));
                                proof {
                                    if found {
                                        assert((link_end_set(link, side_a, LinkTerminator::Frame(o.frames@[i as int].id)))(o, bp));
                                    } else {
                                        assert(bp.links@ == o.links@);
                                    }
                                    assert(box_contains(o.frames@[i as int].pos, o.frames@[i as int].size, pos));
                                    assert((link_dropped(link, side_a, pos))(o, bp));
                                }
                            },
                            None => {
                                let _ = bp.remove_link(link);
                                proof {
                                    assert((link_dropped(link, side_a, pos))(o, bp));
                                }
                            },
                        }
                        self.put_back(k, bp);
                        proof {
                            assert(self.blueprints@ =~= old(self).blueprints@.update(k as int, self.blueprints@[k as int]));
                            self.lemma_put_back_wf(*old(self), k as int);
                            lemma_active_changed(*old(self), *self, k as int, link_dropped(link, side_a, pos));
                        }
                    },
                }
            },
            _ => {},
        }
    }
}

impl Vm {
    /// The menu for a touch at world point `w`.
    pub fn make_menu(&self, w: &WorldPoint) -> (r: Menu)
        requires
            self.wf(),
        ensures
            entries_model(r) == spec_vm_menu(*self, *w),
            r.color@ == spec_vm_menu_color(*self, *w),
    {
        let mut entries: Vec<Entry> = Vec::new();
        let mut color = String::from_str("#f49e42");
        match self.blueprint_index(self.active_blueprint) {
            None => {},
            Some(k) => {
                proof {
                    assert(is_active_index(*self, k as int));
                    let k2 = choose|k2: int| is_active_index(*self, k2);
                    assert(k2 == k as int) by {
                        if k2 < k { assert(self.blueprints@[k2].id != self.active_blueprint); }
                        if k2 > k { assert(self.blueprints@[k as int].id != self.active_blueprint); }
                    }
                }
                match first_frame_menu(&self.blueprints[k], w) {
                    Some(m) => {
                        entries = m.entries;
                        color = m.color;
                    },
                    None => {},
                }
            },
        }
        let ghost before = entries@;
        push_common_entries(&mut entries);
        let r = Menu { entries, color };
        proof {
            assert(entries_model(r) =~= before.map_values(|e: Entry| e@) + spec_common_entries());
        }
        r
    }

    /// Triggers shortcut `s` on `menu` for a touch at `d` / `w`, and returns
    /// the handler that follows.
    pub fn activate_shortcut(&mut self, menu: Menu, s: Shortcut, d: DisplayPoint, w: WorldPoint) -> (r: Option<Handler>)
        requires
            old(self).wf(),
        ensures
            final(self).wf(),
            shortcut_outcome(*old(self), *final(self), entries_model(menu), s, w, r),
            final(self).mouse_display == old(self).mouse_display,
            final(self).mouse_world == old(self).mouse_world,
            final(self).next_id == old(self).next_id,
            final(self).handler == old(self).handler,
            final(self).active_blueprint == old(self).active_blueprint,
    {
        match menu.find_shortcut(s) {
            None => {
                proof {
                    assert forall|j: int| 0 <= j < entries_model(menu).len() implies !(#[trigger] entries_model(menu)[j]).shortcuts.contains(s) by {
                        assert(entries_model(menu)[j] == menu.entries@[j]@);
                    }
                }
                None
            },
            Some(i) => {
                let a = menu.entries[i].action;
                let r = self.start_action(a, d, w);
                proof {
                    let m = entries_model(menu);
                    assert(m[i as int] == menu.entries@[i as int]@);
                    assert forall|j: int| 0 <= j < i implies !(#[trigger] m[j]).shortcuts.contains(s) by {
                        assert(m[j] == menu.entries@[j]@);
                    }
                    assert(first_with(m, s, i as int));
                }
                r
            },
        }
    }

    /// A pointer button went down at `d` / `w`. With no handler running, the
    /// menu for that point is built: the left button (0) and the middle
    /// button (1) trigger its entry for that button, the menu button (2)
    /// opens it as a radial menu at `d`.
    pub fn pointer_down(&mut self, button: i64, d: DisplayPoint, w: WorldPoint)
        requires
            old(self).wf(),
        ensures
            final(self).wf(),
            final(self).mouse_display == d,
            final(self).mouse_world == w,
            final(self).next_id == old(self).next_id,
            old(self).handler is Some ==> final(self).handler == old(self).handler && final(self).blueprints@
                == old(self).blueprints@ && final(self).tasks@ == old(self).tasks@ && final(self).center
                == old(self).center,
            old(self).handler is None && (button == 0 || button == 1) ==> shortcut_outcome(
                *old(self),
                Vm { handler: None, mouse_display: old(self).mouse_display, mouse_world: old(self).mouse_world, ..*final(self) },
                spec_vm_menu(*old(self), w),
                if button == 0 { Shortcut::Lmb } else { Shortcut::Mmb },
                w,
                final(self).handler,
            ),
            old(self).handler is None && button == 2 ==> final(self).blueprints@ == old(self).blueprints@
                && final(self).tasks@ == old(self).tasks@ && final(self).center == old(self).center
                && (final(self).handler matches Some(Handler::Menu { menu, anchor }) && anchor == d
                && entries_model(menu) == spec_vm_menu(*old(self), w)),
            old(self).handler is None && !(0 <= button <= 2) ==> final(self).handler is None
                && final(self).blueprints@ == old(self).blueprints@ && final(self).tasks@ == old(self).tasks@
                && final(self).center == old(self).center,
    {
        if self.handler.is_some() {
            self.mouse_display = d;
            self.mouse_world = w;
            return;
        }
        let menu = self.make_menu(&w);
        let ghost before = *self;
        let h = if button == 0 {
            self.activate_shortcut(menu, Shortcut::Lmb, d, w)
        } else if button == 1 {
            self.activate_shortcut(menu, Shortcut::Mmb, d, w)
        } else if button == 2 {
            Some(Handler::Menu { menu, anchor: d })
        } else {
            None
        };
        self.handler = h;
        self.mouse_display = d;
        self.mouse_world = w;
    }

    /// The pointer moved to `d` / `w`. A running handler follows it; returns
    /// whether one ran, and so whether the view needs redrawing.
    pub fn pointer_move(&mut self, d: DisplayPoint, w: WorldPoint) -> (r: bool)
        requires
            old(self).wf(),
        ensures
            final(self).wf(),
            r == old(self).handler is Some,
            final(self).mouse_display == d,
            final(self).mouse_world == w,
            final(self).next_id == old(self).next_id,
            !r ==> final(self).handler is None && final(self).blueprints@ == old(self).blueprints@
                && final(self).tasks@ == old(self).tasks@ && final(self).center == old(self).center,
            old(self).handler matches Some(h) ==> touch_continued(
                Vm { handler: None, ..*old(self) },
                Vm { handler: None, mouse_display: old(self).mouse_display, mouse_world: old(self).mouse_world, ..*final(self) },
                h,
                d,
                w,
                final(self).handler,
            ),
    {
        let taken = self.handler.take();
        match taken {
            None => {
                self.mouse_display = d;
                self.mouse_world = w;
                false
            },
            Some(h) => {
                let next = self.continue_touch(h, d, w);
                self.handler = next;
                self.mouse_display = d;
                self.mouse_world = w;
                true
            },
        }
    }

    /// The pointer button went up: the running handler, if any, ends; a
    /// radial menu released within its outer radius stays open.
    pub fn pointer_up(&mut self)
        requires
            old(self).wf(),
        ensures
            final(self).wf(),
            final(self).mouse_display == old(self).mouse_display,
            final(self).mouse_world == old(self).mouse_world,
            final(self).next_id == old(self).next_id,
            released_inside_menu(*old(self)) ==> *final(self) == *old(self),
            !released_inside_menu(*old(self)) ==> final(self).handler is None,
            old(self).handler is None ==> final(self).blueprints@ == old(self).blueprints@ && final(self).tasks@
                == old(self).tasks@ && final(self).center == old(self).center,
            !released_inside_menu(*old(self)) ==> (old(self).handler matches Some(h) ==> touch_ended(
                Vm { handler: None, ..*old(self) },
                *final(self),
                h,
            )),
    {
        let inside = match &self.handler {
            Some(Handler::Menu { menu: _, anchor }) => {
                let dx: i64 = self.mouse_display.x as i64 - anchor.x as i64;
                let dy: i64 = self.mouse_display.y as i64 - anchor.y as i64;
                let ddx = dx as i128;
                let ddy = dy as i128;
                proof {
                    assert(0 <= ddx * ddx <= 0x1_0000_0000_0000_0000) by (nonlinear_arith)
                        requires -0x1_0000_0000 <= ddx <= 0x1_0000_0000;
                    assert(0 <= ddy * ddy <= 0x1_0000_0000_0000_0000) by (nonlinear_arith)
                        requires -0x1_0000_0000 <= ddy <= 0x1_0000_0000;
                    assert(MENU_FAR * MENU_FAR == 256) by (nonlinear_arith)
                        requires MENU_FAR == 16;
                }
                ddx * ddx + ddy * ddy <= 256
            },
            _ => false,
        };
        if inside {
            return;
        }
        let taken = self.handler.take();
        match taken {
            None => {},
            Some(h) => {
                self.end_touch(h);
            },
        }
    }
}

impl Vm {
    /// Applies a machine key (`Insert`, `Delete`, `PageDown`, `PageUp`) to the
    /// active blueprint; other codes change nothing.
    pub fn machine_key(&mut self, code: &str)
        requires
            old(self).wf(),
        ensures
            final(self).wf(),
            active_changed(*old(self), *final(self), machine_keyed(code@)),
            final(self).tasks@ == old(self).tasks@,
            final(self).handler == old(self).handler,
            final(self).center == old(self).center,
            final(self).next_id == old(self).next_id,
            final(self).mouse_display == old(self).mouse_display,
            final(self).mouse_world == old(self).mouse_world,
    {
        match self.take_active() {
            None => {},
            Some((k, bp)) => {
                let mut bp = bp;
                let ghost o = bp;
                if str_eq(code, "Insert") {
                    if bp.next_id < u64::MAX {
                        let _ = bp.add_machine();
                    }
                } else if str_eq(code, "Delete") {
                    bp.remove_active_machine();
                } else if str_eq(code, "PageDown") {
                    bp.cycle_active_machine(true);
                } else if str_eq(code, "PageUp") {
                    bp.cycle_active_machine(false);
                }
                proof {
                    assert((machine_keyed(code@))(o, bp));
                }
                self.put_back(k, bp);
                proof {
                    assert(self.blueprints@ =~= old(self).blueprints@.update(k as int, self.blueprints@[k as int]));
                    self.lemma_put_back_wf(*old(self), k as int);
                    lemma_active_changed(*old(self), *self, k as int, machine_keyed(code@));
                }
            },
        }
    }

    /// Types `key` into the object under the pointer, if it is a text.
    pub fn type_key(&mut self, key: &str)
        requires
            old(self).wf(),
        ensures
            final(self).wf(),
            active_changed(*old(self), *final(self), object_typed(key@, old(self).mouse_world)),
            final(self).tasks@ == old(self).tasks@,
            final(self).handler == old(self).handler,
            final(self).center == old(self).center,
            final(self).next_id == old(self).next_id,
            final(self).mouse_display == old(self).mouse_display,
            final(self).mouse_world == old(self).mouse_world,
    {
        let w = self.mouse_world;
        match self.take_active() {
            None => {},
            Some((k, bp)) => {
                let mut bp = bp;
                let ghost o = bp;
                match bp.query_frame(&w) {
                    None => {
                        proof {
                            assert forall|i2: int| !#[trigger] first_hit(o.frames@, w, i2) by {}
                        }
                    },
                    Some(i) => {
                        let id = bp.frames[i].id;
                        proof {
                            assert(first_hit(o.frames@, w, i as int));
                            assert forall|i2: int| #[trigger] first_hit(o.frames@, w, i2) implies i2 == i by {
                                if i2 < i {
                                    assert(!box_contains(o.frames@[i2].pos, o.frames@[i2].size, w));
                                }
                                if i2 > i {
                                    assert(!box_contains(o.frames@[i as int].pos, o.frames@[i as int].size, w));
                                }
                            }
                        }
                        match bp.get_object(id) {
                            None => {},
                            Some((m, j)) => {
                                proof {
                                    assert(object_slot(o, id, m as int, j as int));
                                }
                                let mut mach = Machine { id: 0, objects: Vec::new() };
                                bp.machines.set_and_swap(m, &mut mach);
                                let mut obj = Object { frame: 0, execute: false, data: Payload::Empty };
                                mach.objects.set_and_swap(j, &mut obj);
                                obj.data.type_key(key);
                                mach.objects.set_and_swap(j, &mut obj);
                                bp.machines.set_and_swap(m, &mut mach);
                                proof {
                                    assert(has_frame(o.frames@, o.machines@[m as int].objects@[j as int].frame)) by {
                                        assert(o.frames@[i as int].id == id);
                                    }
                                    assert forall|k2: int, j2: int|
                                        0 <= k2 < bp.machines@.len() && 0 <= j2 < bp.machines@[k2].objects@.len()
                                            implies has_frame(bp.frames@, #[trigger] bp.machines@[k2].objects@[j2].frame) by {
                                        assert(has_frame(o.frames@, o.machines@[k2].objects@[j2].frame));
                                    }
                                    assert forall|k2: int| 0 <= k2 < bp.machines@.len() implies #[trigger] bp.machines@[k2].id < bp.next_id by {
                                        assert(o.machines@[k2].id < o.next_id);
                                    }
                                    assert(crate::graph::machine_ids_unique(bp.machines@)) by {
                                        assert forall|a: int, b: int|
                                            0 <= a < bp.machines@.len() && 0 <= b < bp.machines@.len() && #[trigger] bp.machines@[a].id
                                                == #[trigger] bp.machines@[b].id implies a == b by {
                                            assert(bp.machines@[a].id == o.machines@[a].id);
                                            assert(bp.machines@[b].id == o.machines@[b].id);
                                        }
                                    }
                                    assert(bp.has_machine(bp.active_machine)) by {
                                        let k0 = choose|k0: int| 0 <= k0 < o.machines@.len() && #[trigger] o.machines@[k0].id == o.active_machine;
                                        assert(bp.machines@[k0].id == o.machines@[k0].id);
                                    }
                                    assert(o.machines@[m as int].objects@.len() > 0);
                                    assert((object_typed(key@, w))(o, bp));
                                }
                            },
                        }
                    },
                }
                proof {
                    assert((object_typed(key@, w))(o, bp));
                }
                self.put_back(k, bp);
                proof {
                    assert(self.blueprints@ =~= old(self).blueprints@.update(k as int, self.blueprints@[k as int]));
                    self.lemma_put_back_wf(*old(self), k as int);
                    lemma_active_changed(*old(self), *self, k as int, object_typed(key@, w));
                }
            },
        }
    }

    /// A key went down. `Print` asks the caller to save the model and does
    /// nothing else (the result is whether it did). Otherwise machine keys act
    /// on the active blueprint; then, with no handler running, `Delete`
    /// triggers the Delete entry of the menu under the pointer, `Space` and
    /// `Enter` queue a run of the object under the pointer, and the key is
    /// typed into the object there.
    pub fn key_down(&mut self, code: &str, key: &str) -> (r: bool)
        requires
            old(self).wf(),
        ensures
            final(self).wf(),
            r == (code@ == "Print"@),
            r ==> *final(self) == *old(self),
            final(self).next_id == old(self).next_id,
            final(self).mouse_display == old(self).mouse_display,
            final(self).mouse_world == old(self).mouse_world,
            old(self).handler is Some ==> final(self).handler == old(self).handler && final(self).tasks@
                == old(self).tasks@ && final(self).center == old(self).center,
            old(self).handler is Some && !r ==> active_changed(*old(self), *final(self), machine_keyed(code@)),
            old(self).handler is None && !r ==> key_outcome(*old(self), *final(self), code@, key@),
    {
        if str_eq(code, "Print") {
            return true;
        }
        self.machine_key(code);
        let ghost v1 = *self;
        if self.handler.is_none() {
            let h = if str_eq(code, "Delete") {
                let w = self.mouse_world;
                let d = self.mouse_display;
                let menu = self.make_menu(&w);
                self.activate_shortcut(menu, Shortcut::Delete, d, w)
            } else {
                if is_run_key(code) {
                    let w = self.mouse_world;
                    let _ = self.run_at(w);
                }
                None
            };
            let ghost v2 = *self;
            self.handler = h;
            self.type_key(key);
            proof {
                assert(key_steps(*old(self), v1, v2, h, *self, code@, key@));
            }
        }
        false
    }

    /// Queues a run of the object of the first frame, in storage order,
    /// under world point `w` in the active blueprint. Returns whether a run
    /// was queued.
    pub fn run_at(&mut self, w: WorldPoint) -> (r: bool)
        requires
            old(self).wf(),
        ensures
            final(self).wf(),
            final(self).blueprints@ == old(self).blueprints@,
            final(self).active_blueprint == old(self).active_blueprint,
            final(self).handler == old(self).handler,
            final(self).center == old(self).center,
            final(self).next_id == old(self).next_id,
            final(self).mouse_display == old(self).mouse_display,
            final(self).mouse_world == old(self).mouse_world,
            run_at_outcome(*old(self), *final(self), w),
            r == (final(self).tasks@ != old(self).tasks@),
    {
        match self.blueprint_index(self.active_blueprint) {
            None => {
                proof {
                    lemma_no_active(*self);
                }
                false
            },
            Some(k) => {
                proof {
                    assert(is_active_index(*self, k as int));
                }
                match self.blueprints[k].query_frame(&w) {
                    None => {
                        proof {
                            assert forall|k2: int, i: int| #[trigger] is_active_index(*self, k2) implies !#[trigger] first_hit(
                                self.blueprints@[k2].frames@,
                                w,
                                i,
                            ) by {
                                lemma_active_unique(*self, k2, k as int);
                            }
                        }
                        false
                    },
                    Some(i) => {
                        let id = self.blueprints[k].frames[i].id;
                        proof {
                            let fs = self.blueprints@[k as int].frames@;
                            assert(first_hit(fs, w, i as int));
                            assert forall|k2: int, i2: int|
                                #[trigger] is_active_index(*self, k2) && #[trigger] first_hit(self.blueprints@[k2].frames@, w, i2)
                                implies k2 == k && i2 == i by {
                                lemma_active_unique(*self, k2, k as int);
                                if i2 < i {
                                    assert(!box_contains(fs[i2].pos, fs[i2].size, w));
                                }
                                if i2 > i {
                                    assert(!box_contains(fs[i as int].pos, fs[i as int].size, w));
                                }
                            }
                        }
                        self.enqueue_run(id)
                    },
                }
            },
        }
    }
}

/// Where task `t` runs: the first blueprint `b`, machine `m` and frame `i`
/// with its ids, and the first object `j` of the frame in that machine.
pub open spec fn task_target(vm: Vm, t: Task, b: int, m: int, i: int, j: int) -> bool {
    &&& 0 <= b < vm.blueprints@.len()
    &&& vm.blueprints@[b].id == t.blueprint
    &&& forall|b2: int| 0 <= b2 < b ==> vm.blueprints@[b2].id != t.blueprint
    &&& 0 <= m < vm.blueprints@[b].machines@.len()
    &&& vm.blueprints@[b].machines@[m].id == t.machine
    &&& forall|m2: int| 0 <= m2 < m ==> vm.blueprints@[b].machines@[m2].id != t.machine
    &&& 0 <= i < vm.blueprints@[b].frames@.len()
    &&& vm.blueprints@[b].frames@[i].id == t.frame
    &&& forall|i2: int| 0 <= i2 < i ==> vm.blueprints@[b].frames@[i2].id != t.frame
    &&& 0 <= j < vm.blueprints@[b].machines@[m].objects@.len()
    &&& vm.blueprints@[b].machines@[m].objects@[j].frame == t.frame
    &&& forall|j2: int| 0 <= j2 < j ==> vm.blueprints@[b].machines@[m].objects@[j2].frame != t.frame
}

/// `req` is the run of task `t`: its type is that of the frame, and each
/// parameter slot holds the payloads of the objects of the frames linked
/// into it, from the global machine for a global frame and from the task's
/// machine otherwise.
pub open spec fn run_of(vm: Vm, t: Task, req: RunRequest) -> bool {
    exists|b: int, m: int, i: int, j: int|
        #[trigger] task_target(vm, t, b, m, i, j) && req.task == t && req.typ == vm.blueprints@[b].frames@[i].typ
            && req.args@.len() == spec_param_count(req.typ) && forall|p: int|
            0 <= p < req.args@.len() ==> (#[trigger] req.args@[p])@.map_values(|x: Payload| x@) == arg_payloads(
                vm.blueprints@[b],
                m,
                spec_arg_frames(vm.blueprints@[b].links@, t.frame, p),
            )
}

impl Vm {
    /// Takes the first queued task and returns its run; a task whose
    /// blueprint, machine, frame or object is gone is dropped and gives `None`.
    pub fn pop_task(&mut self) -> (r: Option<RunRequest>)
        requires
            old(self).wf(),
        ensures
            final(self).wf(),
            final(self).blueprints@ == old(self).blueprints@,
            final(self).handler == old(self).handler,
            final(self).center == old(self).center,
            final(self).active_blueprint == old(self).active_blueprint,
            final(self).next_id == old(self).next_id,
            old(self).tasks@.len() == 0 ==> r is None && final(self).tasks@ == old(self).tasks@,
            old(self).tasks@.len() > 0 ==> final(self).tasks@ == old(self).tasks@.drop_first(),
            old(self).tasks@.len() > 0 ==> (r is Some <==> exists|b: int, m: int, i: int, j: int|
                task_target(*old(self), old(self).tasks@[0], b, m, i, j)),
            r matches Some(req) ==> old(self).tasks@.len() > 0 && run_of(*old(self), old(self).tasks@[0], req),
    {
        if self.tasks.len() == 0 {
            return None;
        }
        let t = self.tasks.remove(0);
        proof {
            assert(self.tasks@ =~= old(self).tasks@.drop_first());
        }
        let b = match self.blueprint_index(t.blueprint) {
            Some(b) => b,
            None => {
                return None;
            },
        };
        let bp = &self.blueprints[b];
        let m = match bp.machine_index(t.machine) {
            Some(m) => m,
            None => {
                proof {
                    assert forall|b2: int, m2: int, i2: int, j2: int| !task_target(*old(self), t, b2, m2, i2, j2) by {
                        if task_target(*old(self), t, b2, m2, i2, j2) {
                            assert(b2 == b);
                            assert(bp.machines@[m2].id == t.machine);
                        }
                    }
                }
                return None;
            },
        };
        proof {
            assert forall|m2: int| 0 <= m2 < m implies bp.machines@[m2].id != t.machine by {
                crate::graph::lemma_unique_machine(*bp, m2, m as int);
            }
        }
        let i = match bp.frame_index(t.frame) {
            Some(i) => i,
            None => {
                proof {
                    assert forall|b2: int, m2: int, i2: int, j2: int| !task_target(*old(self), t, b2, m2, i2, j2) by {
                        if task_target(*old(self), t, b2, m2, i2, j2) {
                            assert(b2 == b);
                            assert(bp.frames@[i2].id == t.frame);
                        }
                    }
                }
                return None;
            },
        };
        proof {
            assert forall|i2: int| 0 <= i2 < i implies bp.frames@[i2].id != t.frame by {}
        }
        let mach = &bp.machines[m];
        let j = match mach.object_index(t.frame) {
            Some(j) => j,
            None => {
                proof {
                    assert forall|b2: int, m2: int, i2: int, j2: int| !task_target(*old(self), t, b2, m2, i2, j2) by {
                        if task_target(*old(self), t, b2, m2, i2, j2) {
                            assert(b2 == b);
                            if m2 != m {
                                crate::graph::lemma_unique_machine(*bp, m2, m as int);
                            }
                            assert(mach.objects@[j2].frame == t.frame);
                        }
                    }
                }
                return None;
            },
        };
        let ghost bi = b as int;
        let ghost mi = m as int;
        let ghost ii = i as int;
        let ghost ji = j as int;
        assert(task_target(*old(self), t, bi, mi, ii, ji));
        let typ = bp.frames[i].typ;
        let slots = bp.collect_args(i);
        let mut args: Vec<Vec<Payload>> = Vec::new();
        let mut p: usize = 0;
        while p < slots.len()
            invariant
                p <= slots@.len(),
                slots@.len() == spec_param_count(typ),
                typ == bp.frames@[ii].typ,
                t.frame == bp.frames@[ii].id,
                forall|slot: int| 0 <= slot < slots@.len() ==> (#[trigger] slots@[slot])@ == spec_arg_frames(bp.links@, t.frame, slot),
                args@.len() == p,
                forall|slot: int|
                    0 <= slot < p ==> (#[trigger] args@[slot])@.map_values(|x: Payload| x@) == arg_payloads(
                        *bp,
                        mi,
                        spec_arg_frames(bp.links@, t.frame, slot),
                    ),
                bp.wf(),
                m < bp.machines@.len(),
                mi == m as int,
            decreases slots@.len() - p,
        {
            let ids = &slots[p];
            let slot = payloads_of(bp, m, ids);
            args.push(slot);
            p = p + 1;
        }
        let req = RunRequest { task: t, typ, args };
        proof {
            assert(run_of(*old(self), t, req));
        }
        Some(req)
    }
}

/// The payloads of the objects of frames `ids` in machine `m`, skipping
/// frames without one.
fn payloads_of(bp: &Blueprint, m: usize, ids: &Vec<u64>) -> (r: Vec<Payload>)
    requires
        bp.wf(),
        m < bp.machines@.len(),
    ensures
        r@.map_values(|x: Payload| x@) == arg_payloads(*bp, m as int, ids@),
{
    let mut out: Vec<Payload> = Vec::new();
    let mut q: usize = 0;
    while q < ids.len()
        invariant
            bp.wf(),
            m < bp.machines@.len(),
            q <= ids@.len(),
            out@.map_values(|x: Payload| x@) == arg_payloads(*bp, m as int, ids@.subrange(0, q as int)),
        decreases ids@.len() - q,
    {
        let id = ids[q];
        proof {
            assert(ids@.subrange(0, q + 1).drop_last() =~= ids@.subrange(0, q as int));
            assert(ids@.subrange(0, q + 1).last() == id);
        }
        let k: usize = match bp.frame_index(id) {
            Some(i) => {
                proof {
                    crate::persist::lemma_frame_pos(bp.frames@, id, i as int);
                }
                if bp.frames[i].global {
                    0
                } else {
                    m
                }
            },
            None => m,
        };
        assert(k as int == source_machine(*bp, m as int, id));
        let mach = &bp.machines[k];
        let ghost before = out@;
        match mach.object_index(id) {
            Some(j) => {
                proof {
                    assert(first_object(mach.objects@, id) == Some(j as int)) by {
                        let c = choose|c: int|
                            0 <= c < mach.objects@.len() && mach.objects@[c].frame == id && forall|j2: int|
                                0 <= j2 < c ==> mach.objects@[j2].frame != id;
                        if c < j { assert(mach.objects@[c].frame != id); }
                        if c > j { assert(mach.objects@[j as int].frame != id); }
                    }
                }
                out.push(mach.objects[j].data.duplicate());
                proof {
                    assert(out@.map_values(|x: Payload| x@) =~= before.map_values(|x: Payload| x@).push(mach.objects@[j as int].data@));
                }
            },
            None => {
                proof {
                    assert(first_object(mach.objects@, id) is None);
                }
            },
        }
        q = q + 1;
    }
    proof {
        assert(ids@.subrange(0, q as int) =~= ids@);
    }
    out
}

/// The texts among `ps`, in order.
pub open spec fn texts(ps: Seq<PayloadModel>) -> Seq<Seq<char>>
    decreases ps.len(),
{
    if ps.len() == 0 {
        Seq::empty()
    } else {
        let rest = texts(ps.drop_last());
        match ps.last() {
            PayloadModel::Text(s) => rest.push(s),
            _ => rest,
        }
    }
}

/// A process run starts the program named by the first object linked into
/// its "Command" slot, which must be a text, with the texts linked into its
/// "Arguments" slot as arguments; other arguments are skipped.
pub open spec fn spec_command_line(typ: TypeKind, args: Seq<Seq<PayloadModel>>) -> Option<(Seq<char>, Seq<Seq<char>>)> {
    if typ == TypeKind::Process && args.len() >= 2 && args[0].len() > 0 && args[0][0] is Text {
        Some((args[0][0]->Text_0, texts(args[1])))
    } else {
        None
    }
}

impl RunRequest {
    /// The payloads of each slot, as plain values.
    pub open spec fn arg_models(&self) -> Seq<Seq<PayloadModel>> {
        self.args@.map_values(|v: Vec<Payload>| v@.map_values(|x: Payload| x@))
    }

    /// The program and arguments that a process run starts, if any.
    pub fn command_line(&self) -> (r: Option<(String, Vec<String>)>)
        ensures
            r matches Some((prog, argv)) ==> spec_command_line(self.typ, self.arg_models()) == Some(
                (prog@, argv@.map_values(|x: String| x@)),
            ),
            r is None ==> spec_command_line(self.typ, self.arg_models()) is None,
    {
        if self.typ != TypeKind::Process || self.args.len() < 2 || self.args[0].len() == 0 {
            return None;
        }
        let prog = match &self.args[0][0] {
            Payload::Text(s) => s.clone(),
            _ => {
                return None;
            },
        };
        let src = &self.args[1];
        let mut argv: Vec<String> = Vec::new();
        let mut q: usize = 0;
        while q < src.len()
            invariant
                q <= src@.len(),
                argv@.map_values(|x: String| x@) == texts(src@.subrange(0, q as int).map_values(|x: Payload| x@)),
            decreases src@.len() - q,
        {
            proof {
                assert(src@.subrange(0, q + 1).map_values(|x: Payload| x@).drop_last() =~= src@.subrange(0, q as int).map_values(|x: Payload| x@));
            }
            let ghost before = argv@;
            match &src[q] {
                Payload::Text(a) => {
                    argv.push(a.clone());
                    proof {
                        assert(argv@.map_values(|x: String| x@) =~= before.map_values(|x: String| x@).push(a@));
                    }
                },
                _ => {},
            }
            q = q + 1;
        }
        proof {
            assert(src@.subrange(0, q as int) =~= src@);
            assert(self.arg_models()[1] == src@.map_values(|x: Payload| x@));
            assert(self.arg_models()[0][0] == self.args@[0]@[0]@);
        }
        Some((prog, argv))
    }
}

/// The keys that queue a run of the object under the pointer.
pub open spec fn spec_is_run_key(code: Seq<char>) -> bool {
    code == "Space"@ || code == "Enter"@
}

/// Whether key code `code` queues a run of the object under the pointer.
pub fn is_run_key(code: &str) -> (r: bool)
    ensures
        r == spec_is_run_key(code@),
{
    str_eq(code, "Space") || str_eq(code, "Enter")
}

/// Queuing a run at `w`: with a first frame under `w` in the active
/// blueprint, a run of its object (when it has one); otherwise nothing.
pub open spec fn run_at_outcome(old: Vm, new: Vm, w: WorldPoint) -> bool {
    if exists|k: int, i: int| #[trigger] is_active_index(old, k) && #[trigger] first_hit(old.blueprints@[k].frames@, w, i) {
        exists|k: int, i: int|
            #[trigger] is_active_index(old, k) && #[trigger] first_hit(old.blueprints@[k].frames@, w, i) && run_enqueued(
                old,
                new,
                old.blueprints@[k].frames@[i].id,
            )
    } else {
        new.tasks@ == old.tasks@
    }
}

/// What a machine key does to the active blueprint: `Insert` adds a local
/// machine (while ids last), `Delete` removes the active machine unless it is
/// the global one, `PageDown` / `PageUp` activate the next / previous one.
pub open spec fn machine_keyed(code: Seq<char>) -> spec_fn(Blueprint, Blueprint) -> bool {
    |o: Blueprint, n: Blueprint|
        n.wf() && n.frames@ == o.frames@ && n.links@ == o.links@ && n.id == o.id && n.name@ == o.name@ && (if code
            == "Insert"@ {
            (o.next_id == u64::MAX && n.machines@ == o.machines@ && n.next_id == o.next_id && n.active_machine
                == o.active_machine) || (n.machines@.len() == o.machines@.len() + 1 && n.machines@.subrange(
                0,
                o.machines@.len() as int,
            ) == o.machines@ && n.machines@.last().id == o.next_id && n.next_id == o.next_id + 1
                && n.active_machine == o.active_machine && n.machines@.last().objects@.map_values(|ob: Object| ob.frame)
                == n.frames@.filter(crate::graph::is_local()).map_values(|f: Frame| f.id) && forall|j: int|
                0 <= j < n.machines@.last().objects@.len() ==> !(#[trigger] n.machines@.last().objects@[j]).execute
                    && n.machines@.last().objects@[j].data@ == crate::catalog::spec_init(
                    n.frames@[frame_pos(n.frames@, n.machines@.last().objects@[j].frame)].typ,
                ))
        } else if code == "Delete"@ {
            n.next_id == o.next_id && 
            forall|k: int|
                0 <= k < o.machines@.len() && (#[trigger] o.machines@[k]).id == o.active_machine ==> if k == 0 {
                    n.machines@ == o.machines@ && n.active_machine == o.active_machine
                } else {
                    n.machines@ == o.machines@.remove(k) && n.active_machine == if k < n.machines@.len() {
                        n.machines@[k].id
                    } else {
                        n.machines@[k - 1].id
                    }
                }
        } else if code == "PageDown"@ || code == "PageUp"@ {
            n.next_id == o.next_id && n.machines@ == o.machines@ && forall|k: int|
                0 <= k < o.machines@.len() && (#[trigger] o.machines@[k]).id == o.active_machine
                    ==> n.active_machine == o.machines@[crate::graph::next_index(
                    k,
                    o.machines@.len() as int,
                    code == "PageDown"@,
                )].id
        } else {
            n.next_id == o.next_id && n.machines@ == o.machines@ && n.active_machine == o.active_machine
        })
}

/// The steps of a key press with no handler running: the machine key acts
/// (`v1`); `Delete` triggers the Delete entry of the menu under the pointer,
/// and `Space` or `Enter` queue a run of the object under the pointer (`v2`,
/// leaving handler `h`); then the key is typed into the object under the
/// pointer.
pub open spec fn key_steps(old: Vm, v1: Vm, v2: Vm, h: Option<Handler>, new: Vm, code: Seq<char>, key: Seq<char>) -> bool {
    &&& active_changed(old, v1, machine_keyed(code))
    &&& v1.tasks@ == old.tasks@ && v1.handler == old.handler && v1.center == old.center
    &&& v1.mouse_world == old.mouse_world
    &&& if code == "Delete"@ {
        shortcut_outcome(v1, v2, spec_vm_menu(v1, v1.mouse_world), Shortcut::Delete, v1.mouse_world, h)
    } else if spec_is_run_key(code) {
        run_at_outcome(v1, v2, v1.mouse_world) && v2.blueprints@ == v1.blueprints@
            && v2.active_blueprint == v1.active_blueprint && v2.handler == v1.handler && h is None
    } else {
        v2 == v1 && h is None
    }
    &&& v2.mouse_world == old.mouse_world
    &&& active_changed(Vm { handler: h, ..v2 }, new, object_typed(key, old.mouse_world))
    &&& new.handler == h && new.tasks@ == v2.tasks@ && new.center == v2.center
}

/// What a key press with no handler running does, through the steps of
/// [`key_steps`].
pub open spec fn key_outcome(old: Vm, new: Vm, code: Seq<char>, key: Seq<char>) -> bool {
    exists|v1: Vm, v2: Vm, h: Option<Handler>| #[trigger] key_steps(old, v1, v2, h, new, code, key)
}

/// Frame `i` is the first, in storage order, whose box contains `w`.
pub open spec fn first_hit(frames: Seq<Frame>, w: WorldPoint, i: int) -> bool {
    &&& 0 <= i < frames.len()
    &&& box_contains(frames[i].pos, frames[i].size, w)
    &&& forall|j: int| 0 <= j < i ==> !box_contains(frames[j].pos, frames[j].size, w)
}

/// Object `j` of machine `k` is where lookups of frame `id` go: the first
/// object of the frame in the global machine (global frame) or in the active
/// machine.
pub open spec fn object_slot(bp: Blueprint, id: u64, k: int, j: int) -> bool {
    &&& 0 <= k < bp.machines@.len()
    &&& 0 <= j < bp.machines@[k].objects@.len()
    &&& bp.machines@[k].objects@[j].frame == id
    &&& forall|j2: int| 0 <= j2 < j ==> bp.machines@[k].objects@[j2].frame != id
    &&& exists|i: int|
        0 <= i < bp.frames@.len() && #[trigger] bp.frames@[i].id == id && (bp.frames@[i].global ==> k == 0) && (
        !bp.frames@[i].global ==> bp.machines@[k].id == bp.active_machine)
}

/// `n` is `o` with object `j` of machine `k` having typed `key`.
pub open spec fn typed_at(o: Blueprint, n: Blueprint, k: int, j: int, key: Seq<char>) -> bool {
    &&& forall|k2: int| 0 <= k2 < o.machines@.len() && k2 != k ==> n.machines@[k2] == o.machines@[k2]
    &&& n.machines@[k].id == o.machines@[k].id
    &&& n.machines@[k].objects@.len() == o.machines@[k].objects@.len()
    &&& forall|j2: int|
        0 <= j2 < o.machines@[k].objects@.len() && j2 != j ==> n.machines@[k].objects@[j2] == o.machines@[k].objects@[j2]
    &&& n.machines@[k].objects@[j].frame == o.machines@[k].objects@[j].frame
    &&& n.machines@[k].objects@[j].execute == o.machines@[k].objects@[j].execute
    &&& n.machines@[k].objects@[j].data@ == spec_type_key(o.machines@[k].objects@[j].data@, key)
}

/// Typing `key` on the object under world point `w` in the active blueprint:
/// the object of the first frame there, in the machine that holds it. With
/// no such object nothing changes.
pub open spec fn object_typed(key: Seq<char>, w: WorldPoint) -> spec_fn(Blueprint, Blueprint) -> bool {
    |o: Blueprint, n: Blueprint|
        n.wf() && n.frames@ == o.frames@ && n.links@ == o.links@ && n.machines@.len() == o.machines@.len()
            && n.active_machine == o.active_machine && n.next_id == o.next_id && n.id == o.id && n.name@ == o.name@ && ((
        exists|i: int| #[trigger] first_hit(o.frames@, w, i) && has_object_of(o, o.frames@[i].id)) ==> exists|i: int, k: int, j: int|
            #[trigger] first_hit(o.frames@, w, i) && #[trigger] object_slot(o, o.frames@[i].id, k, j) && typed_at(o, n, k, j, key)) && (!(
        exists|i: int| #[trigger] first_hit(o.frames@, w, i) && has_object_of(o, o.frames@[i].id)) ==> n.machines@ == o.machines@)
}

/// A run in progress: its id and the task that started it.
#[derive(Clone, Copy, Debug, PartialEq, Eq, Structural)]
pub struct Run {
    pub id: u64,
    pub task: Task,
}

/// The first run with id `id`, if any.
pub open spec fn first_run(runs: Seq<Run>, id: u64, n: int) -> bool {
    &&& 0 <= n < runs.len()
    &&& runs[n].id == id
    &&& forall|n2: int| 0 <= n2 < n ==> runs[n2].id != id
}

/// An update of run `id` goes to object `j` of machine `m` of blueprint `b`:
/// the first run with that id names the object there.
pub open spec fn run_lands(vm: Vm, id: u64, b: int, m: int, j: int) -> bool {
    exists|n: int, i: int| first_run(vm.runs@, id, n) && #[trigger] task_target(vm, vm.runs@[n].task, b, m, i, j)
}

impl Vm {
    /// Finds where task `t` lands: blueprint, machine, frame and object
    /// indices, or `None` when any of them is gone.
    pub fn resolve_task(&self, t: Task) -> (r: Option<(usize, usize, usize, usize)>)
        requires
            self.wf(),
        ensures
            r matches Some((b, m, i, j)) ==> task_target(*self, t, b as int, m as int, i as int, j as int),
            r is None ==> forall|b: int, m: int, i: int, j: int| !task_target(*self, t, b, m, i, j),
    {
        let b = match self.blueprint_index(t.blueprint) {
            Some(b) => b,
            None => {
                return None;
            },
        };
        let bp = &self.blueprints[b];
        let m = match bp.machine_index(t.machine) {
            Some(m) => m,
            None => {
                proof {
                    assert forall|b2: int, m2: int, i2: int, j2: int| !task_target(*self, t, b2, m2, i2, j2) by {
                        if task_target(*self, t, b2, m2, i2, j2) {
                            assert(b2 == b);
                            assert(bp.machines@[m2].id == t.machine);
                        }
                    }
                }
                return None;
            },
        };
        proof {
            assert forall|m2: int| 0 <= m2 < m implies bp.machines@[m2].id != t.machine by {
                crate::graph::lemma_unique_machine(*bp, m2, m as int);
            }
        }
        let i = match bp.frame_index(t.frame) {
            Some(i) => i,
            None => {
                proof {
                    assert forall|b2: int, m2: int, i2: int, j2: int| !task_target(*self, t, b2, m2, i2, j2) by {
                        if task_target(*self, t, b2, m2, i2, j2) {
                            assert(b2 == b);
                            assert(bp.frames@[i2].id == t.frame);
                        }
                    }
                }
                return None;
            },
        };
        let mach = &bp.machines[m];
        match mach.object_index(t.frame) {
            Some(j) => Some((b, m, i, j)),
            None => {
                proof {
                    assert forall|b2: int, m2: int, i2: int, j2: int| !task_target(*self, t, b2, m2, i2, j2) by {
                        if task_target(*self, t, b2, m2, i2, j2) {
                            assert(b2 == b);
                            if m2 != m {
                                crate::graph::lemma_unique_machine(*bp, m2, m as int);
                            }
                            assert(mach.objects@[j2].frame == t.frame);
                        }
                    }
                }
                None
            },
        }
    }

    /// Registers a run of `task` and returns its id; `None` once run ids are
    /// used up.
    pub fn start_run(&mut self, task: Task) -> (r: Option<u64>)
        ensures
            r matches Some(id) ==> id == old(self).next_run && final(self).runs@ == old(self).runs@.push(
                Run { id, task },
            ) && final(self).next_run == old(self).next_run + 1,
            r is None ==> old(self).next_run == u64::MAX && final(self).runs@ == old(self).runs@,
            final(self).blueprints@ == old(self).blueprints@,
            final(self).tasks@ == old(self).tasks@,
            final(self).handler == old(self).handler,
            final(self).active_blueprint == old(self).active_blueprint,
            final(self).center == old(self).center,
            final(self).next_id == old(self).next_id,
    {
        if self.next_run == u64::MAX {
            return None;
        }
        let id = self.next_run;
        self.runs.push(Run { id, task });
        self.next_run = id + 1;
        Some(id)
    }

    /// Where an update of run `id` goes: the blueprint, machine and object
    /// indices of the object that started it. An update of a run that is not
    /// in progress, or whose object is gone, is dropped (`None`).
    pub fn update_target(&self, id: u64) -> (r: Option<(usize, usize, usize)>)
        requires
            self.wf(),
        ensures
            r matches Some((b, m, j)) ==> run_lands(*self, id, b as int, m as int, j as int),
            r is None ==> forall|n: int| first_run(self.runs@, id, n) ==> forall|b: int, m: int, i: int, j: int|
                !task_target(*self, (#[trigger] self.runs@[n]).task, b, m, i, j),
    {
        let mut n: usize = 0;
        while n < self.runs.len()
            invariant
                self.wf(),
                n <= self.runs@.len(),
                forall|n2: int| 0 <= n2 < n ==> self.runs@[n2].id != id,
            decreases self.runs@.len() - n,
        {
            if self.runs[n].id == id {
                let t = self.runs[n].task;
                assert(first_run(self.runs@, id, n as int));
                return match self.resolve_task(t) {
                    Some((b, m, i, j)) => {
                        assert(first_run(self.runs@, id, n as int) && task_target(*self, self.runs@[n as int].task, b as int, m as int, i as int, j as int));
                        assert(run_lands(*self, id, b as int, m as int, j as int));
                        Some((b, m, j))
                    },
                    None => {
                        proof {
                            assert forall|n2: int| first_run(self.runs@, id, n2) implies forall|b: int, m: int, i: int, j: int|
                                !task_target(*self, (#[trigger] self.runs@[n2]).task, b, m, i, j) by {
                                if n2 < n { assert(self.runs@[n2].id != id); }
                                if n2 > n { assert(self.runs@[n as int].id != id); }
                            }
                        }
                        None
                    },
                };
            }
            n = n + 1;
        }
        None
    }

    /// Ends run `id`. Returns whether it was in progress.
    pub fn finish_run(&mut self, id: u64) -> (r: bool)
        ensures
            r == exists|n: int| 0 <= n < old(self).runs@.len() && #[trigger] old(self).runs@[n].id == id,
            r ==> exists|n: int| first_run(old(self).runs@, id, n) && final(self).runs@ == old(self).runs@.remove(n),
            !r ==> final(self).runs@ == old(self).runs@,
            final(self).blueprints@ == old(self).blueprints@,
            final(self).tasks@ == old(self).tasks@,
            final(self).handler == old(self).handler,
            final(self).next_run == old(self).next_run,
    {
        let mut n: usize = 0;
        while n < self.runs.len()
            invariant
                n <= self.runs@.len(),
                self.runs@ == old(self).runs@,
                self.blueprints@ == old(self).blueprints@,
                self.tasks@ == old(self).tasks@,
                self.handler == old(self).handler,
                self.next_run == old(self).next_run,
                forall|n2: int| 0 <= n2 < n ==> #[trigger] self.runs@[n2].id != id,
            decreases self.runs@.len() - n,
        {
            if self.runs[n].id == id {
                assert(first_run(old(self).runs@, id, n as int));
                self.runs.remove(n);
                return true;
            }
            n = n + 1;
        }
        false
    }
}

/// What the event loop does next.
#[derive(Clone, Copy, Debug, PartialEq, Eq, Structural)]
pub enum LoopStep {
    /// Handle the input event that is waiting.
    ProcessInput,
    /// Run the first queued task.
    RunTask,
    /// Block until the next input event.
    Wait,
}

/// The order of the event loop: waiting input first, then one queued task,
/// and only with neither does the loop block.
pub fn next_step(input_waiting: bool, tasks_queued: bool) -> (r: LoopStep)
    ensures
        input_waiting ==> r == LoopStep::ProcessInput,
        !input_waiting && tasks_queued ==> r == LoopStep::RunTask,
        !input_waiting && !tasks_queued ==> r == LoopStep::Wait,
{
    if input_waiting {
        LoopStep::ProcessInput
    } else if tasks_queued {
        LoopStep::RunTask
    } else {
        LoopStep::Wait
    }
}

/// The menu of the first frame, in storage order, that offers one at `w`.
fn first_frame_menu(bp: &Blueprint, w: &WorldPoint) -> (r: Option<Menu>)
    requires
        bp.wf(),
    ensures
        r matches Some(m) ==> frame_menu_from(bp.frames@, *w, 0) == Some(entries_model(m)) && m.color@ == "#888"@,
        r is None ==> frame_menu_from(bp.frames@, *w, 0) is None,
{
    let mut i: usize = 0;
    while i < bp.frames.len()
        invariant
            bp.wf(),
            i <= bp.frames@.len(),
            frame_menu_from(bp.frames@, *w, 0) == frame_menu_from(bp.frames@, *w, i as int),
        decreases bp.frames@.len() - i,
    {
        assert(crate::graph::frame_wf(bp.frames@[i as int]));
        match frame_menu(&bp.frames[i], w) {
            Some(m) => {
                return Some(m);
            },
            None => {},
        }
        i = i + 1;
    }
    None
}

fn fits(pos: i64, size: i64, delta: i64) -> (r: bool)
    ensures
        r == drag_fits(pos as int, size as int, delta as int),
{
    let p = pos as i128 + delta as i128;
    let a = size as i128 - delta as i128;
    let b = size as i128 + delta as i128;
    i64::MIN as i128 <= p && p <= i64::MAX as i128 && i64::MIN as i128 <= a && a <= i64::MAX as i128
        && i64::MIN as i128 <= b && b <= i64::MAX as i128
}

/// `p` advanced toward `q` by the part of the drag from `p` to `q` that
/// `mode` takes up.
fn advance(mode: DragMode, p: i64, q: i64) -> (r: i64)
    ensures
        r as int == p + consumed(mode, q - p),
{
    let d: i128 = q as i128 - p as i128;
    match mode {
        DragMode::Drag => q,
        _ => {
            let h: i128 = if d >= 0 { d / 2 } else { -((-d) / 2) };
            (p as i128 + 2 * h) as i64
        },
    }
}

fn shift(v: i64, d: i128) -> (r: i64)
    requires
        -0x2_0000_0000_0000_0000 <= d <= 0x2_0000_0000_0000_0000,
    ensures
        r == shifted(v, d as int),
{
    let s = v as i128 + d;
    if i64::MIN as i128 <= s && s <= i64::MAX as i128 {
        s as i64
    } else {
        v
    }
}

} // verus!