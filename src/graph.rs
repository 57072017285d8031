//! The entity graph of one blueprint: frames, the links between them and the
//! machines that hold one object per frame. Entities refer to each other by
//! id; a reference to an id that is gone is resolved as absent.

use vstd::prelude::*;
use crate::geometry::{WorldPoint, WorldSize, MIN_SIZE, box_hit, box_cast, box_contains, spec_box_cast};
use crate::catalog::{TypeKind, Payload, spec_init, spec_param_count, payload_kind};

verus! {

broadcast use vstd::seq_lib::group_seq_properties;

/// A placed instance of a type on the canvas.
#[derive(Clone, Copy, Debug, PartialEq, Eq, Structural)]
pub struct Frame {
    pub id: u64,
    pub typ: TypeKind,
    pub pos: WorldPoint,
    pub size: WorldSize,
    pub global: bool,
}

/// One parameter slot of a frame.
#[derive(Clone, Copy, Debug, PartialEq, Eq, Structural)]
pub struct FrameParam {
    pub frame: u64,
    pub param_index: usize,
}

/// One end of a link.
#[derive(Clone, Copy, Debug, PartialEq, Eq, Structural)]
pub enum LinkTerminator {
    Frame(u64),
    FrameParam(FrameParam),
    Point(WorldPoint),
}

/// A connection between two terminators, with its drawing priority.
#[derive(Clone, Copy, Debug, PartialEq, Eq, Structural)]
pub struct Link {
    pub id: u64,
    pub a: LinkTerminator,
    pub b: LinkTerminator,
    pub order: i32,
}

/// The runtime state of one frame in one machine.
#[derive(Debug)]
pub struct Object {
    pub frame: u64,
    pub execute: bool,
    pub data: Payload,
}

/// One live instance of a blueprint.
#[derive(Debug)]
pub struct Machine {
    pub id: u64,
    pub objects: Vec<Object>,
}

/// A named visual program. `machines[0]` is the global machine.
#[derive(Debug)]
pub struct Blueprint {
    pub id: u64,
    pub name: String,
    pub frames: Vec<Frame>,
    pub links: Vec<Link>,
    pub machines: Vec<Machine>,
    pub active_machine: u64,
    pub next_id: u64,
}

impl Frame {
    /// The centre of parameter slot `idx`, where links to the slot are drawn;
    /// `None` when it lies outside `i64`.
    pub fn param_center(&self, idx: usize) -> (r: Option<WorldPoint>)
        requires
            self.size.width >= 0,
            self.size.height >= 0,
        ensures
            r matches Some(p) ==> (p.x as int, p.y as int) == spec_param_center(*self, idx as int),
            r is None ==> !(i64::MIN <= spec_param_center(*self, idx as int).0 <= i64::MAX && i64::MIN
                <= spec_param_center(*self, idx as int).1 <= i64::MAX),
    {
        let x: i128 = self.pos.x as i128 + 5 - (self.size.width / 2) as i128;
        let y: i128 = self.pos.y as i128 + (self.size.height / 2) as i128 - 5 + 12 * (idx as i128 + 1);
        if i64::MIN as i128 <= x && x <= i64::MAX as i128 && i64::MIN as i128 <= y && y <= i64::MAX as i128 {
            Some(WorldPoint { x: x as i64, y: y as i64 })
        } else {
            None
        }
    }

    /// Whether `p` lies strictly inside the frame's box.
    pub fn hit_test(&self, p: &WorldPoint) -> (r: bool)
        ensures
            r == box_contains(self.pos, self.size, *p),
    {
        box_hit(&self.pos, &self.size, p)
    }

    /// The point of the frame's box nearest to `p` along each axis.
    pub fn box_cast(&self, p: &WorldPoint) -> (r: WorldPoint)
        requires
            self.size.width >= 0,
            self.size.height >= 0,
        ensures
            (r.x as int, r.y as int) == spec_box_cast(self.pos, self.size, *p),
    {
        box_cast(&self.pos, &self.size, p)
    }
}

pub open spec fn has_frame(frames: Seq<Frame>, id: u64) -> bool {
    exists|j: int| 0 <= j < frames.len() && #[trigger] frames[j].id == id
}

/// The index of the frame with id `id`.
pub open spec fn frame_pos(frames: Seq<Frame>, id: u64) -> int {
    choose|i: int| 0 <= i < frames.len() && frames[i].id == id
}

/// Every object's payload has the shape of its frame's type.
pub open spec fn objects_typed(frames: Seq<Frame>, machines: Seq<Machine>) -> bool {
    forall|k: int, j: int|
        0 <= k < machines.len() && 0 <= j < machines[k].objects@.len() ==> payload_kind(
            (#[trigger] machines[k].objects@[j]).data@,
        ) == frames[frame_pos(frames, machines[k].objects@[j].frame)].typ
}

/// Where every frame of `new` is a frame of `old`, a frame keeps its type
/// when looked up by id.
pub proof fn lemma_frame_type_kept(old: Seq<Frame>, new: Seq<Frame>, id: u64)
    requires
        frame_ids_unique(old),
        forall|j: int| 0 <= j < new.len() ==> exists|j0: int| 0 <= j0 < old.len() && old[j0] == #[trigger] new[j],
        has_frame(new, id),
    ensures
        has_frame(old, id),
        new[frame_pos(new, id)].typ == old[frame_pos(old, id)].typ,
{
    let c = frame_pos(new, id);
    let j0 = choose|j0: int| 0 <= j0 < old.len() && old[j0] == new[c];
    let c0 = frame_pos(old, id);
    assert(old[c0].id == old[j0].id);
}

/// Where every frame of `old` is a frame of `new`, a frame keeps its type
/// when looked up by id.
pub proof fn lemma_frame_type_grown(old: Seq<Frame>, new: Seq<Frame>, id: u64)
    requires
        frame_ids_unique(new),
        forall|j: int| 0 <= j < old.len() ==> exists|j1: int| 0 <= j1 < new.len() && new[j1] == #[trigger] old[j],
        has_frame(old, id),
    ensures
        has_frame(new, id),
        new[frame_pos(new, id)].typ == old[frame_pos(old, id)].typ,
{
    let c0 = frame_pos(old, id);
    let j1 = choose|j1: int| 0 <= j1 < new.len() && new[j1] == old[c0];
    let c = frame_pos(new, id);
    assert(new[c].id == new[j1].id);
}

pub open spec fn frame_ids_unique(frames: Seq<Frame>) -> bool {
    forall|i: int, j: int|
        0 <= i < frames.len() && 0 <= j < frames.len() && #[trigger] frames[i].id
            == #[trigger] frames[j].id ==> i == j
}

pub open spec fn link_ids_unique(links: Seq<Link>) -> bool {
    forall|i: int, j: int|
        0 <= i < links.len() && 0 <= j < links.len() && #[trigger] links[i].id == #[trigger] links[j].id ==> i == j
}

/// Keeping some links of a list with unique ids keeps the ids unique.
pub proof fn lemma_filter_link_ids_unique(s: Seq<Link>, p: spec_fn(Link) -> bool)
    requires
        link_ids_unique(s),
    ensures
        link_ids_unique(s.filter(p)),
    decreases s.len(),
{
    reveal(Seq::filter);
    if s.len() > 0 {
        let t = s.drop_last();
        assert forall|a: int, b: int|
            0 <= a < t.len() && 0 <= b < t.len() && #[trigger] t[a].id == #[trigger] t[b].id implies a == b by {
            assert(t[a] == s[a] && t[b] == s[b]);
        }
        lemma_filter_link_ids_unique(t, p);
        if p(s.last()) {
            let f = t.filter(p);
            let g = f.push(s.last());
            assert forall|i: int| 0 <= i < f.len() implies (#[trigger] f[i]).id != s.last().id by {
                t.lemma_filter_contains_rev(p, f[i]);
                let j = choose|j: int| 0 <= j < t.len() && t[j] == f[i];
                assert(s[j] == t[j]);
                assert(s[s.len() - 1] == s.last());
            }
            assert forall|a: int, b: int|
                0 <= a < g.len() && 0 <= b < g.len() && #[trigger] g[a].id == #[trigger] g[b].id implies a == b by {
                if a < f.len() && b < f.len() {
                    assert(g[a] == f[a] && g[b] == f[b]);
                } else if a < f.len() {
                    assert(g[a] == f[a]);
                } else if b < f.len() {
                    assert(g[b] == f[b]);
                }
            }
        }
    }
}

pub open spec fn machine_ids_unique(machines: Seq<Machine>) -> bool {
    forall|i: int, j: int|
        0 <= i < machines.len() && 0 <= j < machines.len() && #[trigger] machines[i].id
            == #[trigger] machines[j].id ==> i == j
}

/// The frame that a terminator names, if it names one.
pub open spec fn terminator_frame(t: LinkTerminator) -> Option<u64> {
    match t {
        LinkTerminator::Frame(id) => Some(id),
        LinkTerminator::FrameParam(fp) => Some(fp.frame),
        LinkTerminator::Point(_) => None,
    }
}

/// A parameter end names a slot that its frame's type has.
pub open spec fn slot_valid(frames: Seq<Frame>, t: LinkTerminator) -> bool {
    t matches LinkTerminator::FrameParam(fp) ==> fp.param_index < spec_param_count(
        frames[frame_pos(frames, fp.frame)].typ,
    )
}

/// Every parameter end of every link names a slot that its frame has.
pub open spec fn param_slots_valid(frames: Seq<Frame>, links: Seq<Link>) -> bool {
    forall|i: int| 0 <= i < links.len() ==> slot_valid(frames, (#[trigger] links[i]).a) && slot_valid(frames, links[i].b)
}

pub open spec fn terminator_valid(frames: Seq<Frame>, t: LinkTerminator) -> bool {
    terminator_frame(t) matches Some(id) ==> has_frame(frames, id)
}

/// Either end of `l` names frame `id`.
pub open spec fn link_touches(l: Link, id: u64) -> bool {
    terminator_frame(l.a) == Some(id) || terminator_frame(l.b) == Some(id)
}

pub open spec fn frame_wf(f: Frame) -> bool {
    f.size.width >= MIN_SIZE && f.size.height >= MIN_SIZE
}

/// Whether machine `m` holds an object of frame `f`, by the rule that global
/// frames live in the global machine only and local frames in every machine.
pub open spec fn holds_object(k: int, f: Frame) -> bool {
    !f.global || k == 0
}

pub open spec fn machine_has_object(m: Machine, id: u64) -> bool {
    exists|j: int| 0 <= j < m.objects@.len() && #[trigger] m.objects@[j].frame == id
}

/// The blueprint holds an object for frame `id` where lookups go: in the
/// global machine for a global frame, in the active machine otherwise.
pub open spec fn has_object_of(bp: Blueprint, id: u64) -> bool {
    exists|i: int|
        0 <= i < bp.frames@.len() && #[trigger] bp.frames@[i].id == id && ((bp.frames@[i].global && machine_has_object(
            bp.machines@[0],
            id,
        )) || (!bp.frames@[i].global && exists|k: int|
            0 <= k < bp.machines@.len() && bp.machines@[k].id == bp.active_machine && #[trigger] machine_has_object(
                bp.machines@[k],
                id,
            )))
}

impl Blueprint {
    /// The invariant of a blueprint: ids unique and below `next_id`, a global
    /// machine and an active one, and no link or object naming a frame that
    /// is not there.
    pub open spec fn wf(&self) -> bool {
        &&& self.machines@.len() >= 1
        &&& frame_ids_unique(self.frames@)
        &&& machine_ids_unique(self.machines@)
        &&& forall|i: int| 0 <= i < self.frames@.len() ==> #[trigger] self.frames@[i].id < self.next_id
        &&& forall|i: int| 0 <= i < self.frames@.len() ==> frame_wf(#[trigger] self.frames@[i])
        &&& forall|i: int| 0 <= i < self.links@.len() ==> #[trigger] self.links@[i].id < self.next_id
        &&& forall|i: int|
            0 <= i < self.machines@.len() ==> #[trigger] self.machines@[i].id < self.next_id
        &&& self.has_machine(self.active_machine)
        &&& forall|i: int|
            0 <= i < self.links@.len() ==> terminator_valid(self.frames@, #[trigger] self.links@[i].a)
                && terminator_valid(self.frames@, self.links@[i].b)
        &&& forall|k: int, j: int|
            0 <= k < self.machines@.len() && 0 <= j < self.machines@[k].objects@.len()
                ==> has_frame(self.frames@, #[trigger] self.machines@[k].objects@[j].frame)
        &&& objects_typed(self.frames@, self.machines@)
        &&& param_slots_valid(self.frames@, self.links@)
        &&& link_ids_unique(self.links@)
    }

    pub open spec fn has_machine(&self, id: u64) -> bool {
        exists|k: int| 0 <= k < self.machines@.len() && #[trigger] self.machines@[k].id == id
    }

    /// A blueprint with no frames or links and only its global machine, which
    /// is active.
    pub fn new(id: u64, name: String) -> (r: Blueprint)
        ensures
            r.wf(),
            r.id == id,
            r.name@ == name@,
            r.frames@.len() == 0,
            r.links@.len() == 0,
            r.machines@.len() == 1,
            r.machines@[0].objects@.len() == 0,
            r.active_machine == r.machines@[0].id,
            r.next_id == 1,
    {
        let mut machines = Vec::new();
        machines.push(Machine { id: 0, objects: Vec::new() });
        let r = Blueprint {
            id,
            name,
            frames: Vec::new(),
            links: Vec::new(),
            machines,
            active_machine: 0,
            next_id: 1,
        };
        assert(r.machines@[0].id == 0);
        r
    }

    pub fn rename(&mut self, name: String)
        requires
            old(self).wf(),
        ensures
            final(self).wf(),
            final(self).name@ == name@,
            final(self).frames@ == old(self).frames@,
            final(self).links@ == old(self).links@,
            final(self).active_machine == old(self).active_machine,
    {
        self.name = name;
    }

    /// The storage index of frame `id`.
    pub fn frame_index(&self, id: u64) -> (r: Option<usize>)
        ensures
            r matches Some(i) ==> i < self.frames@.len() && self.frames@[i as int].id == id,
            r is None ==> !has_frame(self.frames@, id),
    {
        let mut i: usize = 0;
        while i < self.frames.len()
            invariant
                i <= self.frames@.len(),
                forall|j: int| 0 <= j < i ==> self.frames@[j].id != id,
            decreases self.frames@.len() - i,
        {
            if self.frames[i].id == id {
                return Some(i);
            }
            i = i + 1;
        }
        None
    }

    /// The storage index of machine `id`.
    pub fn machine_index(&self, id: u64) -> (r: Option<usize>)
        ensures
            r matches Some(k) ==> k < self.machines@.len() && self.machines@[k as int].id == id,
            r is None ==> !self.has_machine(id),
    {
        let mut k: usize = 0;
        while k < self.machines.len()
            invariant
                k <= self.machines@.len(),
                forall|j: int| 0 <= j < k ==> self.machines@[j].id != id,
            decreases self.machines@.len() - k,
        {
            if self.machines[k].id == id {
                return Some(k);
            }
            k = k + 1;
        }
        None
    }

    /// The first frame, in storage order, whose box contains `p`.
    pub fn query_frame(&self, p: &WorldPoint) -> (r: Option<usize>)
        ensures
            r matches Some(i) ==> i < self.frames@.len() && box_contains(
                self.frames@[i as int].pos,
                self.frames@[i as int].size,
                *p,
            ) && forall|j: int|
                0 <= j < i ==> !box_contains(self.frames@[j].pos, self.frames@[j].size, *p),
            r is None ==> forall|j: int|
                0 <= j < self.frames@.len() ==> !box_contains(
                    #[trigger] self.frames@[j].pos,
                    self.frames@[j].size,
                    *p,
                ),
    {
        let mut i: usize = 0;
        while i < self.frames.len()
            invariant
                i <= self.frames@.len(),
                forall|j: int|
                    0 <= j < i ==> !box_contains(#[trigger] self.frames@[j].pos, self.frames@[j].size, *p),
            decreases self.frames@.len() - i,
        {
            if self.frames[i].hit_test(p) {
                return Some(i);
            }
            i = i + 1;
        }
        None
    }

    /// The index of the machine that holds the object of the frame at `i`:
    /// the global machine for a global frame, the active machine otherwise.
    pub fn object_machine(&self, i: usize) -> (r: usize)
        requires
            self.wf(),
            i < self.frames@.len(),
        ensures
            r < self.machines@.len(),
            self.frames@[i as int].global ==> r == 0,
            !self.frames@[i as int].global ==> self.machines@[r as int].id == self.active_machine,
    {
        if self.frames[i].global {
            0
        } else {
            match self.machine_index(self.active_machine) {
                Some(k) => k,
                None => 0,
            }
        }
    }

    /// Finds the object of frame `id` in the machine that holds it, as a
    /// machine index and an object index; `None` where either is missing.
    pub fn get_object(&self, id: u64) -> (r: Option<(usize, usize)>)
        requires
            self.wf(),
        ensures
            r matches Some((k, j)) ==> {
                &&& k < self.machines@.len()
                &&& j < self.machines@[k as int].objects@.len()
                &&& self.machines@[k as int].objects@[j as int].frame == id
                &&& forall|j2: int| 0 <= j2 < j ==> self.machines@[k as int].objects@[j2].frame != id
                &&& exists|i: int|
                    0 <= i < self.frames@.len() && #[trigger] self.frames@[i].id == id && (
                    self.frames@[i].global ==> k == 0) && (!self.frames@[i].global
                        ==> self.machines@[k as int].id == self.active_machine)
            },
            r is Some <==> has_object_of(*self, id),
            r is None ==> !has_frame(self.frames@, id) || exists|i: int|
                0 <= i < self.frames@.len() && #[trigger] self.frames@[i].id == id && (
                (self.frames@[i].global && !machine_has_object(self.machines@[0], id)) || (
                !self.frames@[i].global && forall|k: int|
                    0 <= k < self.machines@.len() && self.machines@[k].id == self.active_machine
                        ==> !machine_has_object(#[trigger] self.machines@[k], id))),
    {
        match self.frame_index(id) {
            None => None,
            Some(i) => {
                let k = self.object_machine(i);
                match self.machines[k].object_index(id) {
                    Some(j) => {
                        proof {
                            assert(machine_has_object(self.machines@[k as int], id));
                            assert(self.frames@[i as int].id == id);
                        }
                        Some((k, j))
                    },
                    None => {
                        proof {
                            assert(!has_object_of(*self, id)) by {
                                if has_object_of(*self, id) {
                                    let i2 = choose|i2: int| 0 <= i2 < self.frames@.len() && #[trigger] self.frames@[i2].id == id && (
                                        (self.frames@[i2].global && machine_has_object(self.machines@[0], id)) || (!self.frames@[i2].global
                                            && exists|k2: int| 0 <= k2 < self.machines@.len() && self.machines@[k2].id == self.active_machine
                                                && #[trigger] machine_has_object(self.machines@[k2], id)));
                                    assert(i2 == i);
                                    if !self.frames@[i2].global {
                                        let k2 = choose|k2: int| 0 <= k2 < self.machines@.len() && self.machines@[k2].id == self.active_machine
                                            && #[trigger] machine_has_object(self.machines@[k2], id);
                                        assert(self.machines@[k2].id == self.machines@[k as int].id);
                                    }
                                }
                            }
                            assert forall|k2: int|
                                0 <= k2 < self.machines@.len() && self.machines@[k2].id
                                    == self.active_machine && !self.frames@[i as int].global
                                implies !machine_has_object(#[trigger] self.machines@[k2], id) by {
                                if !self.frames@[i as int].global {
                                    assert(k2 == k);
                                }
                            }
                        }
                        None
                    },
                }
            },
        }
    }
}

impl Machine {
    /// The index of the first object of frame `frame`.
    pub fn object_index(&self, frame: u64) -> (r: Option<usize>)
        ensures
            r matches Some(j) ==> j < self.objects@.len() && self.objects@[j as int].frame == frame
                && forall|i: int| 0 <= i < j ==> self.objects@[i].frame != frame,
            r is None ==> !machine_has_object(*self, frame),
    {
        let mut j: usize = 0;
        while j < self.objects.len()
            invariant
                j <= self.objects@.len(),
                forall|i: int| 0 <= i < j ==> self.objects@[i].frame != frame,
            decreases self.objects@.len() - j,
        {
            if self.objects[j].frame == frame {
                return Some(j);
            }
            j = j + 1;
        }
        None
    }
}

/// `after` is `before` with one fresh object of frame `id` and type `typ`
/// appended.
pub open spec fn pushed_object(before: Seq<Object>, after: Seq<Object>, id: u64, typ: TypeKind) -> bool {
    &&& after.len() == before.len() + 1
    &&& after.subrange(0, before.len() as int) == before
    &&& after.last().frame == id
    &&& !after.last().execute
    &&& after.last().data@ == spec_init(typ)
}

/// `new` is `old` with a fresh frame `id` of type `typ` appended at the origin
/// with the smallest size, and a fresh object of it in each machine that
/// holds its objects; nothing else changes.
pub open spec fn frame_added(old: Blueprint, new: Blueprint, id: u64, typ: TypeKind, global: bool) -> bool {
    &&& new.next_id == old.next_id + 1
    &&& new.frames@ == old.frames@.push(
        Frame {
            id,
            typ,
            pos: WorldPoint { x: 0, y: 0 },
            size: WorldSize { width: MIN_SIZE, height: MIN_SIZE },
            global,
        },
    )
    &&& new.links@ == old.links@
    &&& new.active_machine == old.active_machine
    &&& new.id == old.id
    &&& new.name@ == old.name@
    &&& new.machines@.len() == old.machines@.len()
    &&& forall|k: int|
        0 <= k < new.machines@.len() ==> (#[trigger] new.machines@[k]).id == old.machines@[k].id && (
        if holds_object(k, new.frames@.last()) {
            pushed_object(old.machines@[k].objects@, new.machines@[k].objects@, id, typ)
        } else {
            new.machines@[k].objects@ == old.machines@[k].objects@
        })
}

/// Keeps an object unless it belongs to frame `id`.
pub open spec fn keeps_object(id: u64) -> spec_fn(Object) -> bool {
    |o: Object| o.frame != id
}

/// Keeps a link unless one of its ends names frame `id`.
pub open spec fn keeps_link(id: u64) -> spec_fn(Link) -> bool {
    |l: Link| !link_touches(l, id)
}

/// `new` is `old` without frame `id`, the links with an end on it and its
/// objects; nothing else changes.
pub open spec fn frame_deleted(old: Blueprint, new: Blueprint, id: u64) -> bool {
    &&& !has_frame(new.frames@, id)
    &&& has_frame(old.frames@, id) ==> exists|i: int|
                0 <= i < old.frames@.len() && #[trigger] old.frames@[i].id == id
                    && new.frames@ == old.frames@.remove(i)
    &&& !has_frame(old.frames@, id) ==> new.frames@ == old.frames@
    &&& new.links@ == old.links@.filter(keeps_link(id))
    &&& forall|l: int| 0 <= l < new.links@.len() ==> !link_touches(#[trigger] new.links@[l], id)
    &&& new.machines@.len() == old.machines@.len()
    &&& forall|k: int|
                0 <= k < new.machines@.len() ==> (#[trigger] new.machines@[k]).id
                    == old.machines@[k].id && new.machines@[k].objects@
                    == old.machines@[k].objects@.filter(keeps_object(id))
    &&& forall|k: int, j: int|
                0 <= k < new.machines@.len() && 0 <= j < new.machines@[k].objects@.len()
                    ==> #[trigger] new.machines@[k].objects@[j].frame != id
    &&& new.active_machine == old.active_machine
    &&& new.next_id == old.next_id
    &&& new.id == old.id
    &&& new.name@ == old.name@
}

impl Machine {
    fn remove_objects_of(&mut self, frame: u64)
        ensures
            final(self).id == old(self).id,
            final(self).objects@ == old(self).objects@.filter(keeps_object(frame)),
    {
        let ghost before = self.objects@;
        let mut i: usize = 0;
        let ghost mut k: int = 0;
        while i < self.objects.len()
            invariant
                self.id == old(self).id,
                before == old(self).objects@,
                0 <= k <= before.len(),
                i == before.subrange(0, k).filter(keeps_object(frame)).len(),
                self.objects@ == before.subrange(0, k).filter(keeps_object(frame)) + before.subrange(
                    k,
                    before.len() as int,
                ),
            decreases before.len() - k,
        {
            proof {
                lemma_filter_step(before, k, keeps_object(frame));
                assert(self.objects@[i as int] == before[k]);
            }
            if self.objects[i].frame == frame {
                self.objects.remove(i);
            } else {
                i = i + 1;
            }
            proof {
                k = k + 1;
                assert(self.objects@ =~= before.subrange(0, k).filter(keeps_object(frame))
                    + before.subrange(k, before.len() as int));
            }
        }
        proof {
            assert(before.subrange(0, k) =~= before);
            assert(self.objects@ =~= before.filter(keeps_object(frame)));
        }
    }
}

impl Blueprint {
    /// Places a new frame of type `typ` at the origin with the smallest size,
    /// and gives it an object in the global machine (a global frame) or in
    /// every machine (a local frame). Returns the new frame's id.
    pub fn add_frame(&mut self, typ: TypeKind, global: bool) -> (r: u64)
        requires
            old(self).wf(),
            old(self).next_id < u64::MAX,
        ensures
            final(self).wf(),
            r == old(self).next_id,
            frame_added(*old(self), *final(self), r, typ, global),
    {
        let id = self.next_id;
        let f = Frame {
            id,
            typ,
            pos: WorldPoint { x: 0, y: 0 },
            size: WorldSize { width: MIN_SIZE, height: MIN_SIZE },
            global,
        };
        self.frames.push(f);
        self.next_id = id + 1;
        let ghost frames1 = self.frames@;
        assert(frames1.last() == f);
        assert forall|x: u64| has_frame(old(self).frames@, x) implies has_frame(frames1, x) by {
            let j = choose|j: int| 0 <= j < old(self).frames@.len() && #[trigger] old(self).frames@[j].id == x;
            assert(frames1[j] == old(self).frames@[j]);
        }
        assert(has_frame(frames1, id)) by {
            assert(frames1[frames1.len() - 1].id == id);
        }
        let mut k: usize = 0;
        while k < self.machines.len()
            invariant
                self.frames@ == frames1,
                frames1 == old(self).frames@.push(f),
                f.global == global,
                f.id == id,
                self.next_id == id + 1,
                id == old(self).next_id,
                self.links@ == old(self).links@,
                self.active_machine == old(self).active_machine,
                self.id == old(self).id,
                self.name@ == old(self).name@,
                self.machines@.len() == old(self).machines@.len(),
                k <= self.machines@.len(),
                forall|x: u64| has_frame(old(self).frames@, x) ==> has_frame(frames1, x),
                has_frame(frames1, id),
                forall|k2: int|
                    0 <= k2 < self.machines@.len() ==> (#[trigger] self.machines@[k2]).id
                        == old(self).machines@[k2].id,
                forall|k2: int|
                    k <= k2 < self.machines@.len() ==> (#[trigger] self.machines@[k2]).objects@
                        == old(self).machines@[k2].objects@,
                forall|k2: int|
                    0 <= k2 < k ==> if holds_object(k2, f) {
                        pushed_object(
                            old(self).machines@[k2].objects@,
                            (#[trigger] self.machines@[k2]).objects@,
                            id,
                            typ,
                        )
                    } else {
                        self.machines@[k2].objects@ == old(self).machines@[k2].objects@
                    },
            decreases self.machines@.len() - k,
        {
            if !global || k == 0 {
                let mut m = Machine { id: 0, objects: Vec::new() };
                self.machines.set_and_swap(k, &mut m);
                let ghost before = m.objects@;
                let ghost prev = self.machines@;
                let data = typ.init();
                m.objects.push(Object { frame: id, execute: false, data });
                assert(m.objects@.subrange(0, before.len() as int) =~= before);
                assert(pushed_object(before, m.objects@, id, typ));
                let ghost pushed = m.objects@;
                self.machines.set_and_swap(k, &mut m);
                assert(self.machines@[k as int].objects@ == pushed);
                assert(before == old(self).machines@[k as int].objects@);
                assert(pushed_object(old(self).machines@[k as int].objects@, self.machines@[k as int].objects@, id, typ));
            }
            assert(holds_object(k as int, f) ==> pushed_object(
                old(self).machines@[k as int].objects@,
                self.machines@[k as int].objects@,
                id,
                typ,
            ));
            assert(!holds_object(k as int, f) ==> self.machines@[k as int].objects@
                == old(self).machines@[k as int].objects@);
            k = k + 1;
        }
        proof {
            assert forall|k2: int, j: int|
                0 <= k2 < self.machines@.len() && 0 <= j < self.machines@[k2].objects@.len()
                    implies has_frame(self.frames@, #[trigger] self.machines@[k2].objects@[j].frame) by {
                if holds_object(k2, f) {
                    let before = old(self).machines@[k2].objects@;
                    if j < before.len() {
                        assert(self.machines@[k2].objects@.subrange(0, before.len() as int)[j]
                            == before[j]);
                    }
                }
            }
            assert forall|i: int| 0 <= i < self.links@.len() implies terminator_valid(
                self.frames@,
                #[trigger] self.links@[i].a,
            ) && terminator_valid(self.frames@, self.links@[i].b) by {
                assert(terminator_valid(old(self).frames@, old(self).links@[i].a));
                assert(terminator_valid(old(self).frames@, old(self).links@[i].b));
            }
            assert(self.has_machine(self.active_machine)) by {
                let k2 = choose|k2: int|
                    0 <= k2 < old(self).machines@.len() && #[trigger] old(self).machines@[k2].id
                        == old(self).active_machine;
                assert(self.machines@[k2].id == old(self).machines@[k2].id);
            }
            let of = old(self).frames@;
            assert forall|j: int| 0 <= j < of.len() implies exists|j1: int| 0 <= j1 < frames1.len() && frames1[j1] == #[trigger] of[j] by {
                assert(frames1[j] == of[j]);
            }
            assert forall|a: int, b: int|
                0 <= a < frames1.len() && 0 <= b < frames1.len() && #[trigger] frames1[a].id == #[trigger] frames1[b].id
                implies a == b by {
                if a < of.len() { assert(frames1[a] == of[a]); }
                if b < of.len() { assert(frames1[b] == of[b]); }
            }
            assert forall|k2: int, j: int|
                0 <= k2 < self.machines@.len() && 0 <= j < self.machines@[k2].objects@.len() implies payload_kind(
                    (#[trigger] self.machines@[k2].objects@[j]).data@,
                ) == frames1[frame_pos(frames1, self.machines@[k2].objects@[j].frame)].typ by {
                let before = old(self).machines@[k2].objects@;
                let o = self.machines@[k2].objects@[j];
                if holds_object(k2, f) && j == before.len() {
                    assert(frames1[frames1.len() - 1].id == id);
                    assert(o.frame == id);
                    let c = frame_pos(frames1, id);
                    assert(frames1[c].id == frames1[frames1.len() - 1].id);
                } else {
                    if holds_object(k2, f) {
                        assert(self.machines@[k2].objects@.subrange(0, before.len() as int)[j] == before[j]);
                    }
                    assert(o == before[j]);
                    assert(has_frame(of, o.frame));
                    lemma_frame_type_grown(of, frames1, o.frame);
                }
            }
        }
        id
    }

    /// Removes the frame `id`, every link with an end on it, and its object
    /// from every machine. Returns whether the frame was there.
    pub fn delete_frame(&mut self, id: u64) -> (r: bool)
        requires
            old(self).wf(),
        ensures
            final(self).wf(),
            r == has_frame(old(self).frames@, id),
            frame_deleted(*old(self), *final(self), id),
    {
        broadcast use vstd::seq_lib::group_filter_ensures;
        let found = self.frame_index(id);
        let ghost frames0 = old(self).frames@;
        match found {
            Some(i) => {
                self.frames.remove(i);
                proof {
                    let fs = self.frames@;
                    assert(fs =~= frames0.remove(i as int));
                    assert forall|a: int, b: int|
                        0 <= a < fs.len() && 0 <= b < fs.len() && #[trigger] fs[a].id == #[trigger] fs[b].id
                        implies a == b by {
                        let a0 = if a < i { a } else { a + 1 };
                        let b0 = if b < i { b } else { b + 1 };
                        assert(fs[a] == frames0[a0]);
                        assert(fs[b] == frames0[b0]);
                    }
                    assert forall|x: u64| has_frame(frames0, x) && x != id implies has_frame(fs, x) by {
                        let j = choose|j: int| 0 <= j < frames0.len() && #[trigger] frames0[j].id == x;
                        assert(j != i);
                        let j2 = if j < i { j } else { j - 1 };
                        assert(fs[j2] == frames0[j]);
                    }
                    assert(!has_frame(fs, id)) by {
                        if has_frame(fs, id) {
                            let j = choose|j: int| 0 <= j < fs.len() && #[trigger] fs[j].id == id;
                            let j0 = if j < i { j } else { j + 1 };
                            assert(fs[j] == frames0[j0]);
                        }
                    }
                }
            },
            None => {},
        }
        let ghost fs = self.frames@;
        assert(forall|x: u64| has_frame(frames0, x) && x != id ==> has_frame(fs, x));
        assert forall|j: int| 0 <= j < fs.len() implies exists|j0: int|
            0 <= j0 < frames0.len() && frames0[j0] == #[trigger] fs[j] by {
            if found is Some {
                let i = found->0 as int;
                let j0 = if j < i { j } else { j + 1 };
                assert(frames0[j0] == fs[j]);
            } else {
                assert(frames0[j] == fs[j]);
            }
        }
        self.remove_links_touching(id);
        let mut k: usize = 0;
        while k < self.machines.len()
            invariant
                self.frames@ == fs,
                self.links@ == old(self).links@.filter(keeps_link(id)),
                self.active_machine == old(self).active_machine,
                self.next_id == old(self).next_id,
                self.id == old(self).id,
                self.name@ == old(self).name@,
                self.machines@.len() == old(self).machines@.len(),
                k <= self.machines@.len(),
                forall|k2: int|
                    0 <= k2 < self.machines@.len() ==> (#[trigger] self.machines@[k2]).id
                        == old(self).machines@[k2].id,
                forall|k2: int|
                    k <= k2 < self.machines@.len() ==> (#[trigger] self.machines@[k2]).objects@
                        == old(self).machines@[k2].objects@,
                forall|k2: int|
                    0 <= k2 < k ==> (#[trigger] self.machines@[k2]).objects@
                        == old(self).machines@[k2].objects@.filter(keeps_object(id)),
            decreases self.machines@.len() - k,
        {
            let mut m = Machine { id: 0, objects: Vec::new() };
            self.machines.set_and_swap(k, &mut m);
            m.remove_objects_of(id);
            self.machines.set_and_swap(k, &mut m);
            k = k + 1;
        }
        proof {
            let old_bp = *old(self);
            assert forall|k2: int, j: int|
                0 <= k2 < self.machines@.len() && 0 <= j < self.machines@[k2].objects@.len()
                    implies has_frame(self.frames@, #[trigger] self.machines@[k2].objects@[j].frame)
                    && self.machines@[k2].objects@[j].frame != id by {
                let objs = old_bp.machines@[k2].objects@;
                let o = self.machines@[k2].objects@[j];
                assert(keeps_object(id)(o));
                objs.lemma_filter_contains_rev(keeps_object(id), o);
                let j0 = choose|j0: int| 0 <= j0 < objs.len() && objs[j0] == o;
                assert(has_frame(frames0, old_bp.machines@[k2].objects@[j0].frame));
            }
            assert forall|l: int| 0 <= l < self.links@.len() implies terminator_valid(
                self.frames@,
                #[trigger] self.links@[l].a,
            ) && terminator_valid(self.frames@, self.links@[l].b) && !link_touches(self.links@[l], id) by {
                let ln = self.links@[l];
                assert(keeps_link(id)(ln));
                old_bp.links@.lemma_filter_contains_rev(keeps_link(id), ln);
                let l0 = choose|l0: int| 0 <= l0 < old_bp.links@.len() && old_bp.links@[l0] == ln;
                assert(terminator_valid(frames0, old_bp.links@[l0].a));
                assert(terminator_valid(frames0, old_bp.links@[l0].b));
            }
            assert forall|l: int| 0 <= l < self.links@.len() implies slot_valid(fs, (#[trigger] self.links@[l]).a)
                && slot_valid(fs, self.links@[l].b) by {
                let ln = self.links@[l];
                assert(terminator_valid(fs, ln.a) && terminator_valid(fs, ln.b));
                old_bp.links@.lemma_filter_contains_rev(keeps_link(id), ln);
                let l0 = choose|l0: int| 0 <= l0 < old_bp.links@.len() && old_bp.links@[l0] == ln;
                assert(slot_valid(frames0, old_bp.links@[l0].a));
                assert(slot_valid(frames0, old_bp.links@[l0].b));
                if let LinkTerminator::FrameParam(fp) = ln.a {
                    lemma_frame_type_kept(frames0, fs, fp.frame);
                }
                if let LinkTerminator::FrameParam(fp) = ln.b {
                    lemma_frame_type_kept(frames0, fs, fp.frame);
                }
            }
            assert forall|l: int| 0 <= l < self.links@.len() implies #[trigger] self.links@[l].id < self.next_id by {
                let ln = self.links@[l];
                old_bp.links@.lemma_filter_contains_rev(keeps_link(id), ln);
                let l0 = choose|l0: int| 0 <= l0 < old_bp.links@.len() && old_bp.links@[l0] == ln;
                assert(old_bp.links@[l0].id < old_bp.next_id);
            }
            assert forall|j: int| 0 <= j < fs.len() implies #[trigger] fs[j].id < self.next_id && frame_wf(fs[j]) by {
                let j0 = choose|j0: int| 0 <= j0 < frames0.len() && frames0[j0] == fs[j];
                assert(frames0[j0].id < old_bp.next_id);
                assert(frame_wf(frames0[j0]));
            }
            if found is None {
                assert(fs == frames0);
            }
            lemma_filter_link_ids_unique(old_bp.links@, keeps_link(id));
            assert forall|k2: int, j: int|
                0 <= k2 < self.machines@.len() && 0 <= j < self.machines@[k2].objects@.len() implies payload_kind(
                    (#[trigger] self.machines@[k2].objects@[j]).data@,
                ) == fs[frame_pos(fs, self.machines@[k2].objects@[j].frame)].typ by {
                let objs = old_bp.machines@[k2].objects@;
                let o = self.machines@[k2].objects@[j];
                objs.lemma_filter_contains_rev(keeps_object(id), o);
                let j0 = choose|j0: int| 0 <= j0 < objs.len() && objs[j0] == o;
                assert(payload_kind(old_bp.machines@[k2].objects@[j0].data@) == frames0[frame_pos(frames0, o.frame)].typ);
                assert(has_frame(fs, o.frame));
                lemma_frame_type_kept(frames0, fs, o.frame);
            }
            assert(self.has_machine(self.active_machine)) by {
                let k2 = choose|k2: int|
                    0 <= k2 < old_bp.machines@.len() && #[trigger] old_bp.machines@[k2].id
                        == old_bp.active_machine;
                assert(self.machines@[k2].id == old_bp.machines@[k2].id);
            }
        }
        found.is_some()
    }

    fn remove_links_touching(&mut self, id: u64)
        ensures
            final(self).links@ == old(self).links@.filter(keeps_link(id)),
            final(self).frames@ == old(self).frames@,
            final(self).machines@ == old(self).machines@,
            final(self).active_machine == old(self).active_machine,
            final(self).next_id == old(self).next_id,
            final(self).id == old(self).id,
            final(self).name@ == old(self).name@,
    {
        let ghost before = self.links@;
        let mut i: usize = 0;
        let ghost mut k: int = 0;
        while i < self.links.len()
            invariant
                before == old(self).links@,
                self.frames@ == old(self).frames@,
                self.machines@ == old(self).machines@,
                self.active_machine == old(self).active_machine,
                self.next_id == old(self).next_id,
                self.id == old(self).id,
                self.name@ == old(self).name@,
                0 <= k <= before.len(),
                i == before.subrange(0, k).filter(keeps_link(id)).len(),
                self.links@ == before.subrange(0, k).filter(keeps_link(id)) + before.subrange(
                    k,
                    before.len() as int,
                ),
            decreases before.len() - k,
        {
            proof {
                lemma_filter_step(before, k, keeps_link(id));
                assert(self.links@[i as int] == before[k]);
            }
            if self.links[i].touches(id) {
                self.links.remove(i);
            } else {
                i = i + 1;
            }
            proof {
                k = k + 1;
                assert(self.links@ =~= before.subrange(0, k).filter(keeps_link(id)) + before.subrange(
                    k,
                    before.len() as int,
                ));
            }
        }
        proof {
            assert(before.subrange(0, k) =~= before);
            assert(self.links@ =~= before.filter(keeps_link(id)));
        }
    }
}

/// The position after (`forward`) or before `k` among `n`, wrapping around.
pub open spec fn next_index(k: int, n: int, forward: bool) -> int {
    if forward {
        if k + 1 < n {
            k + 1
        } else {
            0
        }
    } else if k > 0 {
        k - 1
    } else {
        n - 1
    }
}

/// Keeps the local frames.
pub open spec fn is_local() -> spec_fn(Frame) -> bool {
    |f: Frame| !f.global
}

/// The link feeds the frame `b` names into slot `p` of frame `frame`.
pub open spec fn arg_link(l: Link, frame: u64, p: int) -> bool {
    &&& l.a matches LinkTerminator::FrameParam(fp)
    &&& fp.frame == frame
    &&& fp.param_index == p
    &&& l.b is Frame
}

pub open spec fn arg_filter(frame: u64, p: int) -> spec_fn(Link) -> bool {
    |l: Link| arg_link(l, frame, p)
}

/// The frame that end `b` of an argument link names.
pub open spec fn arg_source(l: Link) -> u64 {
    match l.b {
        LinkTerminator::Frame(id) => id,
        _ => 0,
    }
}

/// The frames linked into slot `p` of frame `frame`, in link order.
pub open spec fn spec_arg_frames(links: Seq<Link>, frame: u64, p: int) -> Seq<u64> {
    links.filter(arg_filter(frame, p)).map_values(|l: Link| arg_source(l))
}

impl Blueprint {
    /// Moves and resizes the frame at `i`.
    pub fn set_frame_box(&mut self, i: usize, pos: WorldPoint, size: WorldSize)
        requires
            old(self).wf(),
            i < old(self).frames@.len(),
            size.width >= MIN_SIZE,
            size.height >= MIN_SIZE,
        ensures
            final(self).wf(),
            final(self).frames@ == old(self).frames@.update(
                i as int,
                Frame { pos, size, ..old(self).frames@[i as int] },
            ),
            final(self).links@ == old(self).links@,
            final(self).machines@ == old(self).machines@,
            final(self).active_machine == old(self).active_machine,
            final(self).next_id == old(self).next_id,
            final(self).id == old(self).id,
            final(self).name@ == old(self).name@,
    {
        let f = self.frames[i];
        self.frames.set(i, Frame { pos, size, ..f });
        proof {
            let fs = self.frames@;
            let f0 = old(self).frames@;
            assert forall|x: u64| has_frame(f0, x) implies has_frame(fs, x) by {
                let j = choose|j: int| 0 <= j < f0.len() && #[trigger] f0[j].id == x;
                assert(fs[j].id == x);
            }
            assert forall|a: int, b: int|
                0 <= a < fs.len() && 0 <= b < fs.len() && #[trigger] fs[a].id == #[trigger] fs[b].id
                implies a == b by {
                assert(fs[a].id == f0[a].id);
                assert(fs[b].id == f0[b].id);
            }
            assert forall|j: int| 0 <= j < fs.len() implies #[trigger] fs[j].id < self.next_id && frame_wf(fs[j]) by {
                assert(fs[j].id == f0[j].id);
            }
            assert forall|l: int| 0 <= l < self.links@.len() implies terminator_valid(
                fs,
                #[trigger] self.links@[l].a,
            ) && terminator_valid(fs, self.links@[l].b) by {
                assert(terminator_valid(f0, self.links@[l].a));
                assert(terminator_valid(f0, self.links@[l].b));
            }
            assert forall|k: int, j: int|
                0 <= k < self.machines@.len() && 0 <= j < self.machines@[k].objects@.len()
                    implies has_frame(fs, #[trigger] self.machines@[k].objects@[j].frame) by {
                assert(has_frame(f0, self.machines@[k].objects@[j].frame));
            }
        }
    }

    /// Makes machine `id` the active one. Returns whether it exists.
    pub fn activate(&mut self, id: u64) -> (r: bool)
        requires
            old(self).wf(),
        ensures
            final(self).wf(),
            r == old(self).has_machine(id),
            final(self).active_machine == if r { id } else { old(self).active_machine },
            final(self).frames@ == old(self).frames@,
            final(self).links@ == old(self).links@,
            final(self).machines@ == old(self).machines@,
            final(self).next_id == old(self).next_id,
            final(self).id == old(self).id,
            final(self).name@ == old(self).name@,
    {
        match self.machine_index(id) {
            Some(_) => {
                self.active_machine = id;
                true
            },
            None => false,
        }
    }

    /// Adds a local machine holding a fresh object for every local frame, in
    /// frame order. Returns its id; the active machine does not change.
    pub fn add_machine(&mut self) -> (r: u64)
        requires
            old(self).wf(),
            old(self).next_id < u64::MAX,
        ensures
            final(self).wf(),
            r == old(self).next_id,
            final(self).next_id == old(self).next_id + 1,
            final(self).machines@.len() == old(self).machines@.len() + 1,
            final(self).machines@.subrange(0, old(self).machines@.len() as int) == old(self).machines@,
            final(self).machines@.last().id == r,
            final(self).machines@.last().objects@.map_values(|o: Object| o.frame)
                == final(self).frames@.filter(is_local()).map_values(|f: Frame| f.id),
            forall|j: int|
                0 <= j < final(self).machines@.last().objects@.len()
                    ==> !(#[trigger] final(self).machines@.last().objects@[j]).execute
                    && final(self).machines@.last().objects@[j].data@ == spec_init(
                    final(self).frames@[frame_pos(final(self).frames@, final(self).machines@.last().objects@[j].frame)].typ,
                ),
            final(self).frames@ == old(self).frames@,
            final(self).links@ == old(self).links@,
            final(self).active_machine == old(self).active_machine,
            final(self).id == old(self).id,
            final(self).name@ == old(self).name@,
    {
        broadcast use vstd::seq_lib::group_filter_ensures;
        let id = self.next_id;
        let mut objects: Vec<Object> = Vec::new();
        let mut i: usize = 0;
        while i < self.frames.len()
            invariant
                i <= self.frames@.len(),
                self.frames@ == old(self).frames@,
                objects@.map_values(|o: Object| o.frame) == self.frames@.subrange(0, i as int).filter(
                    is_local(),
                ).map_values(|f: Frame| f.id),
                forall|j: int| 0 <= j < objects@.len() ==> !(#[trigger] objects@[j]).execute,
                forall|j: int| 0 <= j < objects@.len() ==> has_frame(self.frames@, #[trigger] objects@[j].frame),
                forall|j: int| 0 <= j < objects@.len() ==> payload_kind((#[trigger] objects@[j]).data@)
                    == self.frames@[frame_pos(self.frames@, objects@[j].frame)].typ,
                forall|j: int| 0 <= j < objects@.len() ==> (#[trigger] objects@[j]).data@
                    == spec_init(self.frames@[frame_pos(self.frames@, objects@[j].frame)].typ),
                old(self).wf(),
            decreases self.frames@.len() - i,
        {
            proof {
                lemma_filter_step(self.frames@, i as int, is_local());
            }
            let f = self.frames[i];
            if !f.global {
                let ghost before = objects@;
                objects.push(Object { frame: f.id, execute: false, data: f.typ.init() });
                proof {
                    assert(objects@.map_values(|o: Object| o.frame) =~= before.map_values(|o: Object| o.frame).push(f.id));
                    assert(self.frames@[i as int].id == f.id);
                    let c = frame_pos(self.frames@, f.id);
                    assert(self.frames@[c].id == self.frames@[i as int].id);
                    assert(objects@[objects@.len() - 1].frame == f.id);
                    assert forall|j: int| 0 <= j < objects@.len() implies (#[trigger] objects@[j]).data@
                        == spec_init(self.frames@[frame_pos(self.frames@, objects@[j].frame)].typ) by {
                        if j < before.len() {
                            assert(objects@[j] == before[j]);
                        }
                    }
                    assert forall|j: int| 0 <= j < objects@.len() implies payload_kind((#[trigger] objects@[j]).data@)
                        == self.frames@[frame_pos(self.frames@, objects@[j].frame)].typ by {
                        if j < before.len() {
                            assert(objects@[j] == before[j]);
                        }
                    }
                }
            }
            i = i + 1;
            proof {
                assert(self.frames@.subrange(0, i as int).filter(is_local()).map_values(|f: Frame| f.id)
                    =~= objects@.map_values(|o: Object| o.frame));
            }
        }
        proof {
            assert(self.frames@.subrange(0, i as int) =~= self.frames@);
        }
        self.machines.push(Machine { id, objects });
        self.next_id = id + 1;
        proof {
            let ms = self.machines@;
            let m0 = old(self).machines@;
            assert(ms.subrange(0, m0.len() as int) =~= m0);
            assert forall|a: int, b: int|
                0 <= a < ms.len() && 0 <= b < ms.len() && #[trigger] ms[a].id == #[trigger] ms[b].id
                implies a == b by {
                if a < m0.len() { assert(ms[a] == m0[a]); }
                if b < m0.len() { assert(ms[b] == m0[b]); }
            }
            assert forall|k: int| 0 <= k < ms.len() implies #[trigger] ms[k].id < self.next_id by {
                if k < m0.len() { assert(ms[k] == m0[k]); }
            }
            assert forall|k: int, j: int|
                0 <= k < ms.len() && 0 <= j < ms[k].objects@.len()
                    implies has_frame(self.frames@, #[trigger] ms[k].objects@[j].frame) by {
                if k < m0.len() { assert(ms[k] == m0[k]); }
            }
            assert forall|k: int, j: int|
                0 <= k < ms.len() && 0 <= j < ms[k].objects@.len() implies payload_kind(
                    (#[trigger] ms[k].objects@[j]).data@,
                ) == self.frames@[frame_pos(self.frames@, ms[k].objects@[j].frame)].typ by {
                if k < m0.len() { assert(ms[k] == m0[k]); }
            }
            let k0 = choose|k: int| 0 <= k < m0.len() && #[trigger] m0[k].id == self.active_machine;
            assert(ms[k0] == m0[k0]);
        }
        id
    }

    /// Removes the active machine unless it is the global one; the machine at
    /// the same position, or else the one before it, becomes active.
    pub fn remove_active_machine(&mut self)
        requires
            old(self).wf(),
        ensures
            final(self).wf(),
            final(self).frames@ == old(self).frames@,
            final(self).links@ == old(self).links@,
            final(self).next_id == old(self).next_id,
            final(self).id == old(self).id,
            final(self).name@ == old(self).name@,
            forall|k: int|
                0 <= k < old(self).machines@.len() && (#[trigger] old(self).machines@[k]).id == old(self).active_machine
                    ==> if k == 0 {
                    final(self).machines@ == old(self).machines@ && final(self).active_machine
                        == old(self).active_machine
                } else {
                    &&& final(self).machines@ == old(self).machines@.remove(k)
                    &&& final(self).active_machine == if k < final(self).machines@.len() {
                        final(self).machines@[k].id
                    } else {
                        final(self).machines@[k - 1].id
                    }
                },
    {
        match self.machine_index(self.active_machine) {
            None => {},
            Some(k) => {
                if k > 0 {
                    let ghost m0 = self.machines@;
                    let _removed = self.machines.remove(k);
                    let idx = if k < self.machines.len() { k } else { k - 1 };
                    self.active_machine = self.machines[idx].id;
                    proof {
                        let ms = self.machines@;
                        assert forall|a: int, b: int|
                            0 <= a < ms.len() && 0 <= b < ms.len() && #[trigger] ms[a].id == #[trigger] ms[b].id
                            implies a == b by {
                            let a0 = if a < k { a } else { a + 1 };
                            let b0 = if b < k { b } else { b + 1 };
                            assert(ms[a] == m0[a0]);
                            assert(ms[b] == m0[b0]);
                        }
                        assert forall|k2: int| 0 <= k2 < ms.len() implies #[trigger] ms[k2].id < self.next_id by {
                            let a0 = if k2 < k { k2 } else { k2 + 1 };
                            assert(ms[k2] == m0[a0]);
                        }
                        assert forall|k2: int, j: int|
                            0 <= k2 < ms.len() && 0 <= j < ms[k2].objects@.len()
                                implies has_frame(self.frames@, #[trigger] ms[k2].objects@[j].frame) by {
                            let a0 = if k2 < k { k2 } else { k2 + 1 };
                            assert(ms[k2] == m0[a0]);
                        }
                        assert(ms[idx as int].id == self.active_machine);
                    }
                }
            },
        }
    }

    /// Makes the next machine in storage order active (`forward`), or the
    /// previous one, wrapping around.
    pub fn cycle_active_machine(&mut self, forward: bool)
        requires
            old(self).wf(),
        ensures
            final(self).wf(),
            final(self).frames@ == old(self).frames@,
            final(self).links@ == old(self).links@,
            final(self).machines@ == old(self).machines@,
            final(self).next_id == old(self).next_id,
            final(self).id == old(self).id,
            final(self).name@ == old(self).name@,
            forall|k: int|
                0 <= k < old(self).machines@.len() && (#[trigger] old(self).machines@[k]).id == old(self).active_machine
                    ==> final(self).active_machine == old(self).machines@[next_index(k, old(self).machines@.len() as int, forward)].id,
    {
        match self.machine_index(self.active_machine) {
            None => {},
            Some(k) => {
                let n = self.machines.len();
                let idx = if forward {
                    if k + 1 < n {
                        k + 1
                    } else {
                        0
                    }
                } else if k > 0 {
                    k - 1
                } else {
                    n - 1
                };
                self.active_machine = self.machines[idx].id;
                proof {
                    assert(self.machines@[idx as int].id == self.active_machine);
                }
            },
        }
    }

    /// Adds a link between `a` and `b`, which name only existing frames.
    /// Returns its id.
    pub fn add_link(&mut self, a: LinkTerminator, b: LinkTerminator, order: i32) -> (r: u64)
        requires
            old(self).wf(),
            old(self).next_id < u64::MAX,
            terminator_valid(old(self).frames@, a),
            terminator_valid(old(self).frames@, b),
            slot_valid(old(self).frames@, a),
            slot_valid(old(self).frames@, b),
        ensures
            final(self).wf(),
            r == old(self).next_id,
            final(self).next_id == old(self).next_id + 1,
            final(self).links@ == old(self).links@.push(Link { id: r, a, b, order }),
            final(self).frames@ == old(self).frames@,
            final(self).machines@ == old(self).machines@,
            final(self).active_machine == old(self).active_machine,
            final(self).id == old(self).id,
            final(self).name@ == old(self).name@,
    {
        let id = self.next_id;
        self.links.push(Link { id, a, b, order });
        self.next_id = id + 1;
        proof {
            let ls = self.links@;
            assert forall|l: int| 0 <= l < ls.len() implies terminator_valid(
                self.frames@,
                #[trigger] ls[l].a,
            ) && terminator_valid(self.frames@, ls[l].b) && ls[l].id < self.next_id by {
                if l < old(self).links@.len() {
                    assert(ls[l] == old(self).links@[l]);
                }
            }
            assert forall|l: int| 0 <= l < ls.len() implies slot_valid(self.frames@, (#[trigger] ls[l]).a) && slot_valid(
                self.frames@,
                ls[l].b,
            ) by {
                if l < old(self).links@.len() {
                    assert(ls[l] == old(self).links@[l]);
                }
            }
            let k0 = choose|k: int|
                0 <= k < self.machines@.len() && #[trigger] self.machines@[k].id == self.active_machine;
        }
        id
    }

    /// Sets end `a` (`side_a`) or end `b` of link `id` to `t`. Returns whether
    /// the link exists.
    pub fn set_link_end(&mut self, id: u64, side_a: bool, t: LinkTerminator) -> (r: bool)
        requires
            old(self).wf(),
            terminator_valid(old(self).frames@, t),
            slot_valid(old(self).frames@, t),
        ensures
            final(self).wf(),
            r == exists|l: int| 0 <= l < old(self).links@.len() && #[trigger] old(self).links@[l].id == id,
            r ==> exists|l: int|
                0 <= l < old(self).links@.len() && #[trigger] old(self).links@[l].id == id
                    && (forall|l2: int| 0 <= l2 < l ==> old(self).links@[l2].id != id)
                    && final(self).links@ == old(self).links@.update(
                    l,
                    if side_a {
                        Link { a: t, ..old(self).links@[l] }
                    } else {
                        Link { b: t, ..old(self).links@[l] }
                    },
                ),
            !r ==> *final(self) == *old(self),
            final(self).frames@ == old(self).frames@,
            final(self).machines@ == old(self).machines@,
            final(self).active_machine == old(self).active_machine,
            final(self).next_id == old(self).next_id,
            final(self).id == old(self).id,
            final(self).name@ == old(self).name@,
    {
        match self.link_index(id) {
            None => false,
            Some(l) => {
                let ln = self.links[l];
                let nl = if side_a {
                    Link { a: t, ..ln }
                } else {
                    Link { b: t, ..ln }
                };
                self.links.set(l, nl);
                proof {
                    let ls = self.links@;
                    assert forall|l2: int| 0 <= l2 < ls.len() implies terminator_valid(
                        self.frames@,
                        #[trigger] ls[l2].a,
                    ) && terminator_valid(self.frames@, ls[l2].b) && ls[l2].id < self.next_id by {
                        assert(terminator_valid(self.frames@, old(self).links@[l2].a));
                        assert(terminator_valid(self.frames@, old(self).links@[l2].b));
                    }
                    assert forall|l2: int| 0 <= l2 < ls.len() implies slot_valid(self.frames@, (#[trigger] ls[l2]).a)
                        && slot_valid(self.frames@, ls[l2].b) by {
                        assert(slot_valid(self.frames@, old(self).links@[l2].a));
                        assert(slot_valid(self.frames@, old(self).links@[l2].b));
                    }
                    let k0 = choose|k: int|
                        0 <= k < self.machines@.len() && #[trigger] self.machines@[k].id == self.active_machine;
                }
                true
            },
        }
    }

    /// The index of the first link with id `id`.
    pub fn link_index(&self, id: u64) -> (r: Option<usize>)
        ensures
            r matches Some(l) ==> l < self.links@.len() && self.links@[l as int].id == id && forall|l2: int|
                0 <= l2 < l ==> self.links@[l2].id != id,
            r is None ==> forall|l: int| 0 <= l < self.links@.len() ==> #[trigger] self.links@[l].id != id,
    {
        let mut l: usize = 0;
        while l < self.links.len()
            invariant
                l <= self.links@.len(),
                forall|l2: int| 0 <= l2 < l ==> #[trigger] self.links@[l2].id != id,
            decreases self.links@.len() - l,
        {
            if self.links[l].id == id {
                return Some(l);
            }
            l = l + 1;
        }
        None
    }

    /// Removes the first link with id `id`. Returns whether there was one.
    pub fn remove_link(&mut self, id: u64) -> (r: bool)
        requires
            old(self).wf(),
        ensures
            final(self).wf(),
            r == exists|l: int| 0 <= l < old(self).links@.len() && #[trigger] old(self).links@[l].id == id,
            r ==> exists|l: int|
                0 <= l < old(self).links@.len() && #[trigger] old(self).links@[l].id == id
                    && final(self).links@ == old(self).links@.remove(l),
            !r ==> final(self).links@ == old(self).links@,
            final(self).frames@ == old(self).frames@,
            final(self).machines@ == old(self).machines@,
            final(self).active_machine == old(self).active_machine,
            final(self).next_id == old(self).next_id,
            final(self).id == old(self).id,
            final(self).name@ == old(self).name@,
    {
        match self.link_index(id) {
            None => false,
            Some(l) => {
                self.links.remove(l);
                proof {
                    let ls = self.links@;
                    let l0 = old(self).links@;
                    assert forall|j: int| 0 <= j < ls.len() implies terminator_valid(
                        self.frames@,
                        #[trigger] ls[j].a,
                    ) && terminator_valid(self.frames@, ls[j].b) && ls[j].id < self.next_id by {
                        let j0 = if j < l { j } else { j + 1 };
                        assert(ls[j] == l0[j0]);
                        assert(terminator_valid(self.frames@, l0[j0].a));
                    }
                    let k0 = choose|k: int|
                        0 <= k < self.machines@.len() && #[trigger] self.machines@[k].id == self.active_machine;
                }
                true
            },
        }
    }

    /// For each parameter slot of the frame at `i`, the frames linked into it:
    /// from the links whose end `a` is that slot and whose end `b` is a frame,
    /// in link order.
    pub fn collect_args(&self, i: usize) -> (r: Vec<Vec<u64>>)
        requires
            i < self.frames@.len(),
        ensures
            r@.len() == spec_param_count(self.frames@[i as int].typ),
            forall|p: int|
                0 <= p < r@.len() ==> (#[trigger] r@[p])@ == spec_arg_frames(
                    self.links@,
                    self.frames@[i as int].id,
                    p,
                ),
    {
        let frame = self.frames[i].id;
        let n = self.frames[i].typ.param_count();
        let mut args: Vec<Vec<u64>> = Vec::new();
        let mut p: usize = 0;
        while p < n
            invariant
                p <= n,
                n == spec_param_count(self.frames@[i as int].typ),
                frame == self.frames@[i as int].id,
                args@.len() == p,
                forall|slot: int|
                    0 <= slot < p ==> (#[trigger] args@[slot])@ == spec_arg_frames(self.links@, frame, slot),
            decreases n - p,
        {
            let mut slot: Vec<u64> = Vec::new();
            let mut l: usize = 0;
            while l < self.links.len()
                invariant
                    l <= self.links@.len(),
                    slot@ == self.links@.subrange(0, l as int).filter(arg_filter(frame, p as int)).map_values(
                        |ln: Link| arg_source(ln),
                    ),
                decreases self.links@.len() - l,
            {
                proof {
                    lemma_filter_step(self.links@, l as int, arg_filter(frame, p as int));
                }
                let ln = self.links[l];
                match ln.a {
                    LinkTerminator::FrameParam(fp) => {
                        if fp.frame == frame && fp.param_index == p {
                            match ln.b {
                                LinkTerminator::Frame(src) => {
                                    slot.push(src);
                                },
                                _ => {},
                            }
                        }
                    },
                    _ => {},
                }
                l = l + 1;
                proof {
                    assert(slot@ =~= self.links@.subrange(0, l as int).filter(arg_filter(frame, p as int)).map_values(
                        |ln: Link| arg_source(ln),
                    ));
                }
            }
            proof {
                assert(self.links@.subrange(0, l as int) =~= self.links@);
            }
            args.push(slot);
            p = p + 1;
        }
        args
    }
}

impl LinkTerminator {
    /// The frame that this end names, if it names one.
    pub fn frame(&self) -> (r: Option<u64>)
        ensures
            r == terminator_frame(*self),
    {
        match self {
            LinkTerminator::Frame(id) => Some(*id),
            LinkTerminator::FrameParam(fp) => Some(fp.frame),
            LinkTerminator::Point(_) => None,
        }
    }
}

impl Link {
    /// Whether either end of the link names frame `id`.
    pub fn touches(&self, id: u64) -> (r: bool)
        ensures
            r == link_touches(*self, id),
    {
        self.a.frame() == Some(id) || self.b.frame() == Some(id)
    }
}

/// The centre of parameter slot `idx` of `f`: the slots run down the left
/// edge, starting below the frame.
pub open spec fn spec_param_center(f: Frame, idx: int) -> (int, int) {
    (
        f.pos.x + 5 - f.size.width / 2,
        f.pos.y + f.size.height / 2 - 5 + 12 * (idx + 1),
    )
}

/// The position of a terminator before it is clamped to a frame's edge.
pub open spec fn spec_anchor(frames: Seq<Frame>, t: LinkTerminator) -> Option<(int, int)> {
    match t {
        LinkTerminator::Point(p) => Some((p.x as int, p.y as int)),
        LinkTerminator::Frame(id) => if has_frame(frames, id) {
            let f = frames[choose|i: int| 0 <= i < frames.len() && frames[i].id == id];
            Some((f.pos.x as int, f.pos.y as int))
        } else {
            None
        },
        LinkTerminator::FrameParam(fp) => if has_frame(frames, fp.frame) {
            let f = frames[choose|i: int| 0 <= i < frames.len() && frames[i].id == fp.frame];
            Some(spec_param_center(f, fp.param_index as int))
        } else {
            None
        },
    }
}

/// Coordinates that every frame position, and its offsets up to a frame size,
/// can reach without leaving `i64`.
pub open spec fn coords_fit(frames: Seq<Frame>) -> bool {
    forall|i: int|
        0 <= i < frames.len() ==> -0x1000_0000_0000_0000 <= (#[trigger] frames[i]).pos.x <= 0x1000_0000_0000_0000
            && -0x1000_0000_0000_0000 <= frames[i].pos.y <= 0x1000_0000_0000_0000 && frames[i].size.width
            <= 0x1000_0000_0000_0000 && frames[i].size.height <= 0x1000_0000_0000_0000
}

impl Blueprint {
    /// Whether every frame lies in the range where drawing positions are
    /// computed.
    pub fn coords_in_range(&self) -> (r: bool)
        ensures
            r == coords_fit(self.frames@),
    {
        let mut i: usize = 0;
        while i < self.frames.len()
            invariant
                i <= self.frames@.len(),
                forall|j: int| 0 <= j < i ==> -0x1000_0000_0000_0000 <= (#[trigger] self.frames@[j]).pos.x <= 0x1000_0000_0000_0000
                    && -0x1000_0000_0000_0000 <= self.frames@[j].pos.y <= 0x1000_0000_0000_0000 && self.frames@[j].size.width
                    <= 0x1000_0000_0000_0000 && self.frames@[j].size.height <= 0x1000_0000_0000_0000,
            decreases self.frames@.len() - i,
        {
            let f = self.frames[i];
            if !(-0x1000_0000_0000_0000 <= f.pos.x && f.pos.x <= 0x1000_0000_0000_0000 && -0x1000_0000_0000_0000 <= f.pos.y
                && f.pos.y <= 0x1000_0000_0000_0000 && f.size.width <= 0x1000_0000_0000_0000 && f.size.height
                <= 0x1000_0000_0000_0000) {
                return false;
            }
            i = i + 1;
        }
        true
    }

    fn anchor(&self, t: LinkTerminator) -> (r: Option<WorldPoint>)
        requires
            self.wf(),
            coords_fit(self.frames@),
        ensures
            r matches Some(p) ==> spec_anchor(self.frames@, t) == Some((p.x as int, p.y as int)),
            r is None ==> spec_anchor(self.frames@, t) is None || fp_too_far(t),
    {
        match t {
            LinkTerminator::Point(p) => Some(p),
            LinkTerminator::Frame(id) => match self.frame_index(id) {
                None => None,
                Some(i) => {
                    proof {
                        let c = choose|c: int| 0 <= c < self.frames@.len() && self.frames@[c].id == id;
                        assert(self.frames@[c].id == self.frames@[i as int].id);
                    }
                    Some(self.frames[i].pos)
                },
            },
            LinkTerminator::FrameParam(fp) => match self.frame_index(fp.frame) {
                None => None,
                Some(i) => {
                    proof {
                        let c = choose|c: int| 0 <= c < self.frames@.len() && self.frames@[c].id == fp.frame;
                        assert(self.frames@[c].id == self.frames@[i as int].id);
                        assert(frame_wf(self.frames@[i as int]));
                    }
                    if fp.param_index as u64 >= 0x1000_0000_0000 {
                        return None;
                    }
                    let f = self.frames[i];
                    let x = f.pos.x + 5 - f.size.width / 2;
                    let y = f.pos.y + f.size.height / 2 - 5 + 12 * (fp.param_index as i64 + 1);
                    Some(WorldPoint { x, y })
                },
            },
        }
    }

    /// Where end `t` of a link whose other end is `other` is drawn: a frame
    /// end sits on the frame's edge towards the other end's anchor, a
    /// parameter end at the slot's centre, a free end at its point. `None`
    /// when an end names a frame that is gone.
    pub fn terminator_pos(&self, t: LinkTerminator, other: LinkTerminator) -> (r: Option<WorldPoint>)
        requires
            self.wf(),
            coords_fit(self.frames@),
        ensures
            r matches Some(p) ==> match t {
                LinkTerminator::Frame(id) => exists|i: int|
                    0 <= i < self.frames@.len() && #[trigger] self.frames@[i].id == id && spec_anchor(self.frames@, other)
                        is Some && (p.x as int, p.y as int) == crate::geometry::spec_box_cast(
                        self.frames@[i].pos,
                        self.frames@[i].size,
                        anchor_point(self.frames@, other),
                    ),
                _ => spec_anchor(self.frames@, t) == Some((p.x as int, p.y as int)),
            },
            r is None ==> spec_anchor(self.frames@, t) is None || spec_anchor(self.frames@, other) is None
                || fp_too_far(t) || fp_too_far(other),
    {
        match t {
            LinkTerminator::Frame(id) => match self.frame_index(id) {
                None => {
                    proof {
                        assert(!has_frame(self.frames@, id));
                    }
                    None
                },
                Some(i) => match self.anchor(other) {
                    None => None,
                    Some(q) => {
                        assert(frame_wf(self.frames@[i as int]));
                        Some(self.frames[i].box_cast(&q))
                    },
                },
            },
            _ => self.anchor(t),
        }
    }
}

/// The anchor of `t` as a point.
pub open spec fn anchor_point(frames: Seq<Frame>, t: LinkTerminator) -> WorldPoint {
    let q = spec_anchor(frames, t)->Some_0;
    WorldPoint { x: q.0 as i64, y: q.1 as i64 }
}

/// A parameter index too large to place.
pub open spec fn fp_too_far(t: LinkTerminator) -> bool {
    t matches LinkTerminator::FrameParam(fp) && fp.param_index >= 0x1000_0000_0000
}

/// Machine ids of a well-formed blueprint are unique.
pub proof fn lemma_unique_machine(bp: Blueprint, a: int, b: int)
    requires
        bp.wf(),
        0 <= a < bp.machines@.len(),
        0 <= b < bp.machines@.len(),
        a != b,
    ensures
        bp.machines@[a].id != bp.machines@[b].id,
{
}

/// Filtering one element further extends the filtered prefix by that element
/// exactly when it passes.
pub proof fn lemma_filter_step<A>(s: Seq<A>, k: int, pred: spec_fn(A) -> bool)
    requires
        0 <= k < s.len(),
    ensures
        s.subrange(0, k + 1).filter(pred) == if pred(s[k]) {
            s.subrange(0, k).filter(pred).push(s[k])
        } else {
            s.subrange(0, k).filter(pred)
        },
{
    reveal(Seq::filter);
    assert(s.subrange(0, k + 1).drop_last() =~= s.subrange(0, k));
}

} // verus!
