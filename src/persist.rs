//! The persisted form of the model: plain documents in which entities refer
//! to each other by index. Saving writes the document of a model; loading
//! rebuilds a model from one and refuses a document with an unknown type, an
//! index out of range or a payload its type cannot read.

use vstd::prelude::*;
use vstd::string::*;
use crate::geometry::{WorldPoint, WorldSize, MIN_SIZE};
use crate::catalog::{
    spec_find_type, spec_param_count, TypeKind, Payload, GraphConsistencyError, find_type, spec_type_name, spec_serialize, spec_deserialize,
    deserializable, payload_kind, lemma_payload_round_trip,
};
use crate::graph::{frame_pos, Blueprint, Frame, FrameParam, Link, LinkTerminator, Machine, Object, has_frame};
use crate::vm::{Vm, Task, task_target, is_active_index};

verus! {

/// A frame as stored: its type by name.
#[derive(Debug)]
pub struct FrameDoc {
    pub typ: String,
    pub pos: WorldPoint,
    pub size: WorldSize,
    pub global: bool,
}

/// A link end as stored: frames by index.
#[derive(Clone, Copy, Debug, PartialEq, Eq, Structural)]
pub enum TerminatorDoc {
    Frame(usize),
    FrameParam { frame: usize, param_index: usize },
    Point(WorldPoint),
}

/// A link as stored.
#[derive(Clone, Copy, Debug, PartialEq, Eq, Structural)]
pub struct LinkDoc {
    pub a: TerminatorDoc,
    pub b: TerminatorDoc,
    pub order: i32,
}

/// An object as stored: its frame by index and its payload as bytes.
#[derive(Debug)]
pub struct ObjectDoc {
    pub frame: usize,
    pub execute: bool,
    pub data: Vec<u8>,
}

/// A blueprint as stored; the active machine by index.
#[derive(Debug)]
pub struct BlueprintDoc {
    pub name: String,
    pub frames: Vec<FrameDoc>,
    pub links: Vec<LinkDoc>,
    pub machines: Vec<Vec<ObjectDoc>>,
    pub active_machine: usize,
}

/// A queued run as stored: blueprint, frame and machine by index.
#[derive(Clone, Copy, Debug, PartialEq, Eq, Structural)]
pub struct TaskDoc {
    pub blueprint: usize,
    pub frame: usize,
    pub machine: usize,
}

/// The whole model as stored.
#[derive(Debug)]
pub struct VmDoc {
    pub blueprints: Vec<BlueprintDoc>,
    pub active_blueprint: usize,
    pub tasks: Vec<TaskDoc>,
}

pub struct FrameDocModel {
    pub typ: Seq<char>,
    pub pos: WorldPoint,
    pub size: WorldSize,
    pub global: bool,
}

pub struct ObjectDocModel {
    pub frame: usize,
    pub execute: bool,
    pub data: Seq<u8>,
}

pub struct BlueprintDocModel {
    pub name: Seq<char>,
    pub frames: Seq<FrameDocModel>,
    pub links: Seq<LinkDoc>,
    pub machines: Seq<Seq<ObjectDocModel>>,
    pub active_machine: usize,
}

pub struct VmDocModel {
    pub blueprints: Seq<BlueprintDocModel>,
    pub active_blueprint: usize,
    pub tasks: Seq<TaskDoc>,
}

impl View for FrameDoc {
    type V = FrameDocModel;

    open spec fn view(&self) -> FrameDocModel {
        FrameDocModel { typ: self.typ@, pos: self.pos, size: self.size, global: self.global }
    }
}

impl View for ObjectDoc {
    type V = ObjectDocModel;

    open spec fn view(&self) -> ObjectDocModel {
        ObjectDocModel { frame: self.frame, execute: self.execute, data: self.data@ }
    }
}

impl View for BlueprintDoc {
    type V = BlueprintDocModel;

    open spec fn view(&self) -> BlueprintDocModel {
        BlueprintDocModel {
            name: self.name@,
            frames: self.frames@.map_values(|f: FrameDoc| f@),
            links: self.links@,
            machines: self.machines@.map_values(|m: Vec<ObjectDoc>| m@.map_values(|o: ObjectDoc| o@)),
            active_machine: self.active_machine,
        }
    }
}

impl View for VmDoc {
    type V = VmDocModel;

    open spec fn view(&self) -> VmDocModel {
        VmDocModel {
            blueprints: self.blueprints@.map_values(|b: BlueprintDoc| b@),
            active_blueprint: self.active_blueprint,
            tasks: self.tasks@,
        }
    }
}

/// The index of the machine with id `id`.
pub open spec fn machine_pos(machines: Seq<Machine>, id: u64) -> int {
    choose|k: int| 0 <= k < machines.len() && machines[k].id == id
}

pub open spec fn frame_doc(f: Frame) -> FrameDocModel {
    FrameDocModel { typ: spec_type_name(f.typ), pos: f.pos, size: f.size, global: f.global }
}

pub open spec fn terminator_doc(frames: Seq<Frame>, t: LinkTerminator) -> TerminatorDoc {
    match t {
        LinkTerminator::Frame(id) => TerminatorDoc::Frame(frame_pos(frames, id) as usize),
        LinkTerminator::FrameParam(fp) => TerminatorDoc::FrameParam {
            frame: frame_pos(frames, fp.frame) as usize,
            param_index: fp.param_index,
        },
        LinkTerminator::Point(p) => TerminatorDoc::Point(p),
    }
}

pub open spec fn link_doc(frames: Seq<Frame>, l: Link) -> LinkDoc {
    LinkDoc { a: terminator_doc(frames, l.a), b: terminator_doc(frames, l.b), order: l.order }
}

pub open spec fn object_doc(frames: Seq<Frame>, o: Object) -> ObjectDocModel {
    ObjectDocModel { frame: frame_pos(frames, o.frame) as usize, execute: o.execute, data: spec_serialize(o.data@) }
}

/// The document of a blueprint.
pub open spec fn blueprint_doc(bp: Blueprint) -> BlueprintDocModel {
    BlueprintDocModel {
        name: bp.name@,
        frames: bp.frames@.map_values(|f: Frame| frame_doc(f)),
        links: bp.links@.map_values(|l: Link| link_doc(bp.frames@, l)),
        machines: bp.machines@.map_values(|m: Machine| m.objects@.map_values(|o: Object| object_doc(bp.frames@, o))),
        active_machine: machine_pos(bp.machines@, bp.active_machine) as usize,
    }
}

/// Mapping a sequence with one more element gives one more mapped element.
pub proof fn lemma_map_push<A, B>(s: Seq<A>, x: A, f: spec_fn(A) -> B)
    ensures
        s.push(x).map_values(f) == s.map_values(f).push(f(x)),
{
    assert(s.push(x).map_values(f) =~= s.map_values(f).push(f(x)));
}

/// Mapping one element more of a prefix.
pub proof fn lemma_map_prefix<A, B>(s: Seq<A>, i: int, f: spec_fn(A) -> B)
    requires
        0 <= i < s.len(),
    ensures
        s.subrange(0, i + 1).map_values(f) == s.subrange(0, i).map_values(f).push(f(s[i])),
{
    assert(s.subrange(0, i + 1) =~= s.subrange(0, i).push(s[i]));
    lemma_map_push(s.subrange(0, i), s[i], f);
}

/// In a blueprint, the index that `frame_pos` names is the one with the id.
pub proof fn lemma_frame_pos(frames: Seq<Frame>, id: u64, i: int)
    requires
        crate::graph::frame_ids_unique(frames),
        0 <= i < frames.len(),
        frames[i].id == id,
    ensures
        frame_pos(frames, id) == i,
{
    let c = frame_pos(frames, id);
    assert(frames[c].id == frames[i].id);
}

/// In a blueprint, the index that `machine_pos` names is the one with the id.
pub proof fn lemma_machine_pos(machines: Seq<Machine>, id: u64, k: int)
    requires
        crate::graph::machine_ids_unique(machines),
        0 <= k < machines.len(),
        machines[k].id == id,
    ensures
        machine_pos(machines, id) == k,
{
    let c = machine_pos(machines, id);
    assert(machines[c].id == machines[k].id);
}

fn save_terminator(bp: &Blueprint, t: LinkTerminator) -> (r: TerminatorDoc)
    requires
        bp.wf(),
        crate::graph::terminator_valid(bp.frames@, t),
    ensures
        r == terminator_doc(bp.frames@, t),
{
    match t {
        LinkTerminator::Frame(id) => {
            let i = save_frame_index(bp, id);
            TerminatorDoc::Frame(i)
        },
        LinkTerminator::FrameParam(fp) => {
            let i = save_frame_index(bp, fp.frame);
            TerminatorDoc::FrameParam { frame: i, param_index: fp.param_index }
        },
        LinkTerminator::Point(p) => TerminatorDoc::Point(p),
    }
}

fn save_frame_index(bp: &Blueprint, id: u64) -> (r: usize)
    requires
        bp.wf(),
        has_frame(bp.frames@, id),
    ensures
        r == frame_pos(bp.frames@, id),
{
    match bp.frame_index(id) {
        Some(i) => {
            proof { lemma_frame_pos(bp.frames@, id, i as int); }
            i
        },
        None => 0,
    }
}

/// The document of a blueprint.
pub fn save_blueprint(bp: &Blueprint) -> (r: BlueprintDoc)
    requires
        bp.wf(),
    ensures
        r@ == blueprint_doc(*bp),
{
    let mut frames: Vec<FrameDoc> = Vec::new();
    let mut i: usize = 0;
    while i < bp.frames.len()
        invariant
            i <= bp.frames@.len(),
            frames@.map_values(|f: FrameDoc| f@) == bp.frames@.subrange(0, i as int).map_values(|f: Frame| frame_doc(f)),
        decreases bp.frames@.len() - i,
    {
        let f = bp.frames[i];
        let ghost before = frames@;
        let fd = FrameDoc { typ: String::from_str(f.typ.name()), pos: f.pos, size: f.size, global: f.global };
        assert(fd@ == frame_doc(bp.frames@[i as int]));
        frames.push(fd);
        proof {
            lemma_map_push(before, fd, |f: FrameDoc| f@);
            lemma_map_prefix(bp.frames@, i as int, |f: Frame| frame_doc(f));
        }
        i = i + 1;
    }
    let mut links: Vec<LinkDoc> = Vec::new();
    let mut l: usize = 0;
    while l < bp.links.len()
        invariant
            bp.wf(),
            l <= bp.links@.len(),
            links@ == bp.links@.subrange(0, l as int).map_values(|x: Link| link_doc(bp.frames@, x)),
        decreases bp.links@.len() - l,
    {
        let x = bp.links[l];
        let a = save_terminator(bp, x.a);
        let b = save_terminator(bp, x.b);
        links.push(LinkDoc { a, b, order: x.order });
        l = l + 1;
        proof {
            assert(links@ =~= bp.links@.subrange(0, l as int).map_values(|x: Link| link_doc(bp.frames@, x)));
        }
    }
    let mut machines: Vec<Vec<ObjectDoc>> = Vec::new();
    let mut k: usize = 0;
    while k < bp.machines.len()
        invariant
            bp.wf(),
            k <= bp.machines@.len(),
            machines@.map_values(|m: Vec<ObjectDoc>| m@.map_values(|o: ObjectDoc| o@)) == bp.machines@.subrange(0, k as int).map_values(
                |m: Machine| m.objects@.map_values(|o: Object| object_doc(bp.frames@, o)),
            ),
        decreases bp.machines@.len() - k,
    {
        let objs = &bp.machines[k].objects;
        let mut docs: Vec<ObjectDoc> = Vec::new();
        let mut j: usize = 0;
        while j < objs.len()
            invariant
                bp.wf(),
                k < bp.machines@.len(),
                objs@ == bp.machines@[k as int].objects@,
                j <= objs@.len(),
                docs@.map_values(|o: ObjectDoc| o@) == objs@.subrange(0, j as int).map_values(|o: Object| object_doc(bp.frames@, o)),
            decreases objs@.len() - j,
        {
            let o = &objs[j];
            assert(has_frame(bp.frames@, o.frame));
            let fi = save_frame_index(bp, o.frame);
            let ghost before = docs@;
            let od = ObjectDoc { frame: fi, execute: o.execute, data: o.data.serialize() };
            assert(od@ == object_doc(bp.frames@, objs@[j as int]));
            docs.push(od);
            proof {
                lemma_map_push(before, od, |o: ObjectDoc| o@);
                lemma_map_prefix(objs@, j as int, |o: Object| object_doc(bp.frames@, o));
            }
            j = j + 1;
        }
        let ghost before = machines@;
        proof {
            assert(objs@.subrange(0, j as int) =~= objs@);
        }
        machines.push(docs);
        proof {
            lemma_map_push(before, docs, |m: Vec<ObjectDoc>| m@.map_values(|o: ObjectDoc| o@));
            lemma_map_prefix(bp.machines@, k as int, |m: Machine| m.objects@.map_values(|o: Object| object_doc(bp.frames@, o)));
        }
        k = k + 1;
    }
    let active = match bp.machine_index(bp.active_machine) {
        Some(k) => {
            proof { lemma_machine_pos(bp.machines@, bp.active_machine, k as int); }
            k
        },
        None => 0,
    };
    proof {
        assert(bp.frames@.subrange(0, i as int) =~= bp.frames@);
        assert(bp.links@.subrange(0, l as int) =~= bp.links@);
        assert(bp.machines@.subrange(0, k as int) =~= bp.machines@);
    }
    let r = BlueprintDoc { name: bp.name.clone(), frames, links, machines, active_machine: active };
    proof {
        assert(r@.frames =~= blueprint_doc(*bp).frames);
        assert(r@.machines =~= blueprint_doc(*bp).machines);
    }
    r
}

/// The type of frame `i` of a blueprint document.
pub open spec fn doc_type(d: BlueprintDocModel, i: int) -> TypeKind {
    spec_find_type(d.frames[i].typ)->0
}

pub open spec fn terminator_doc_valid(nf: int, t: TerminatorDoc) -> bool {
    match t {
        TerminatorDoc::Frame(i) => i < nf,
        TerminatorDoc::FrameParam { frame, param_index: _ } => frame < nf,
        TerminatorDoc::Point(_) => true,
    }
}

/// A parameter end of a document names a slot of its frame's type.
pub open spec fn slot_doc_valid(d: BlueprintDocModel, t: TerminatorDoc) -> bool {
    t matches TerminatorDoc::FrameParam { frame, param_index } ==> param_index < spec_param_count(
        doc_type(d, frame as int),
    )
}

/// A blueprint document can be loaded: every type is known, every size at
/// least the minimum, every index in range, every payload readable by its
/// type, and there is a machine to be active.
pub open spec fn blueprint_doc_valid(d: BlueprintDocModel) -> bool {
    &&& d.frames.len() + d.links.len() + d.machines.len() < u64::MAX
    &&& forall|i: int| 0 <= i < d.frames.len() ==> spec_find_type((#[trigger] d.frames[i]).typ) is Some
        && d.frames[i].size.width >= MIN_SIZE && d.frames[i].size.height >= MIN_SIZE
    &&& forall|l: int| 0 <= l < d.links.len() ==> terminator_doc_valid(d.frames.len() as int, (#[trigger] d.links[l]).a)
        && terminator_doc_valid(d.frames.len() as int, d.links[l].b)
    &&& forall|l: int| 0 <= l < d.links.len() ==> slot_doc_valid(d, (#[trigger] d.links[l]).a) && slot_doc_valid(
        d,
        d.links[l].b,
    )
    &&& d.machines.len() >= 1
    &&& d.active_machine < d.machines.len()
    &&& forall|k: int, j: int|
        0 <= k < d.machines.len() && 0 <= j < d.machines[k].len() ==> (#[trigger] d.machines[k][j]).frame
            < d.frames.len() && deserializable(doc_type(d, d.machines[k][j].frame as int), d.machines[k][j].data)
}

/// An object document with its payload as its type writes it back.
pub open spec fn canonical_object(d: BlueprintDocModel, o: ObjectDocModel) -> ObjectDocModel {
    ObjectDocModel { data: spec_serialize(spec_deserialize(doc_type(d, o.frame as int), o.data)), ..o }
}

/// A blueprint document with every payload as its type writes it back.
pub open spec fn canonical_blueprint(d: BlueprintDocModel) -> BlueprintDocModel {
    BlueprintDocModel {
        machines: d.machines.map_values(|m: Seq<ObjectDocModel>| m.map_values(|o: ObjectDocModel| canonical_object(d, o))),
        ..d
    }
}

fn load_terminator(nf: usize, t: TerminatorDoc) -> (r: Option<LinkTerminator>)
    ensures
        r is Some <==> terminator_doc_valid(nf as int, t),
        r matches Some(x) ==> match t {
            TerminatorDoc::Frame(i) => x == LinkTerminator::Frame(i as u64),
            TerminatorDoc::FrameParam { frame, param_index } => x == LinkTerminator::FrameParam(
                FrameParam { frame: frame as u64, param_index },
            ),
            TerminatorDoc::Point(p) => x == LinkTerminator::Point(p),
        },
{
    match t {
        TerminatorDoc::Frame(i) => if i < nf {
            Some(LinkTerminator::Frame(i as u64))
        } else {
            None
        },
        TerminatorDoc::FrameParam { frame, param_index } => if frame < nf {
            Some(LinkTerminator::FrameParam(FrameParam { frame: frame as u64, param_index }))
        } else {
            None
        },
        TerminatorDoc::Point(p) => Some(LinkTerminator::Point(p)),
    }
}

/// Whether a parameter end of a document names a slot of its frame's type;
/// other ends pass.
fn slot_ok(frames: &Vec<Frame>, t: TerminatorDoc) -> (r: bool)
    requires
        terminator_doc_valid(frames@.len() as int, t),
    ensures
        r == (t matches TerminatorDoc::FrameParam { frame, param_index } ==> param_index < spec_param_count(
            frames@[frame as int].typ,
        )),
{
    match t {
        TerminatorDoc::FrameParam { frame, param_index } => param_index < frames[frame].typ.param_count(),
        _ => true,
    }
}

/// Frames whose ids are their indices.
pub open spec fn ids_are_indices(frames: Seq<Frame>) -> bool {
    forall|i: int| 0 <= i < frames.len() ==> (#[trigger] frames[i]).id == i
}

/// Rebuilds a blueprint with id `id` from its document. Frame `i` gets id
/// `i` and machine `k` id `frames + k`.
pub fn load_blueprint(doc: &BlueprintDoc, id: u64) -> (r: Result<Blueprint, GraphConsistencyError>)
    ensures
        r is Ok <==> blueprint_doc_valid(doc@),
        r matches Ok(bp) ==> {
            &&& bp.wf()
            &&& bp.id == id
            &&& blueprint_doc(bp) == canonical_blueprint(doc@)
            &&& ids_are_indices(bp.frames@)
            &&& forall|k: int| 0 <= k < bp.machines@.len() ==> (#[trigger] bp.machines@[k]).id == bp.frames@.len() + k
        },
{
    let ghost d = doc@;
    let nf = doc.frames.len();
    let nl = doc.links.len();
    let nm = doc.machines.len();
    if nf as u128 + nl as u128 + nm as u128 >= u64::MAX as u128 {
        return Err(GraphConsistencyError::BadIndex);
    }
    let mut frames: Vec<Frame> = Vec::new();
    let mut i: usize = 0;
    while i < nf
        invariant
            d == doc@,
            nf == doc.frames@.len(),
            nf + nl + nm < u64::MAX,
            i <= nf,
            frames@.len() == i,
            forall|n: int| 0 <= n < i ==> (#[trigger] frames@[n]).id == n && frame_doc(frames@[n]) == d.frames[n]
                && frames@[n].typ == doc_type(d, n) && crate::graph::frame_wf(frames@[n]),
            forall|n: int| 0 <= n < i ==> spec_find_type((#[trigger] d.frames[n]).typ) is Some
                && d.frames[n].size.width >= MIN_SIZE && d.frames[n].size.height >= MIN_SIZE,
        decreases nf - i,
    {
        let fd = &doc.frames[i];
        assert(fd@ == d.frames[i as int]);
        let t = match find_type(fd.typ.as_str()) {
            Some(t) => t,
            None => {
                return Err(GraphConsistencyError::UnknownType);
            },
        };
        if fd.size.width < MIN_SIZE || fd.size.height < MIN_SIZE {
            return Err(GraphConsistencyError::BadSize);
        }
        frames.push(Frame { id: i as u64, typ: t, pos: fd.pos, size: fd.size, global: fd.global });
        i = i + 1;
    }
    proof {
        assert forall|a: int, b: int|
            0 <= a < frames@.len() && 0 <= b < frames@.len() && #[trigger] frames@[a].id == #[trigger] frames@[b].id
            implies a == b by {}
        assert(ids_are_indices(frames@));
    }
    let mut links: Vec<Link> = Vec::new();
    let mut l: usize = 0;
    while l < nl
        invariant
            d == doc@,
            nl == doc.links@.len(),
            nf == frames@.len(),
            nf == doc.frames@.len(),
            nf + nl + nm < u64::MAX,
            ids_are_indices(frames@),
            crate::graph::frame_ids_unique(frames@),
            l <= nl,
            links@.len() == l,
            forall|n: int| 0 <= n < l ==> link_doc(frames@, #[trigger] links@[n]) == d.links[n]
                && (links@[n]).id < nf + nl + nm && crate::graph::terminator_valid(frames@, links@[n].a)
                && crate::graph::terminator_valid(frames@, links@[n].b),
            forall|n: int| 0 <= n < l ==> terminator_doc_valid(nf as int, (#[trigger] d.links[n]).a)
                && terminator_doc_valid(nf as int, d.links[n].b),
            forall|n: int| 0 <= n < l ==> slot_doc_valid(d, (#[trigger] d.links[n]).a) && slot_doc_valid(d, d.links[n].b),
            forall|n: int| 0 <= n < l ==> crate::graph::slot_valid(frames@, (#[trigger] links@[n]).a)
                && crate::graph::slot_valid(frames@, links@[n].b),
            forall|n: int| 0 <= n < nf ==> (#[trigger] frames@[n]).typ == doc_type(d, n),
            forall|n: int| 0 <= n < l ==> (#[trigger] links@[n]).id == nf + nm + n,
        decreases nl - l,
    {
        let ld = doc.links[l];
        assert(ld == d.links[l as int]);
        assert(d.frames.len() == nf);
        let a = match load_terminator(nf, ld.a) {
            Some(a) => a,
            None => {
                assert(!terminator_doc_valid(d.frames.len() as int, d.links[l as int].a));
                assert(!blueprint_doc_valid(d));
                return Err(GraphConsistencyError::BadIndex);
            },
        };
        let b = match load_terminator(nf, ld.b) {
            Some(b) => b,
            None => {
                assert(!terminator_doc_valid(d.frames.len() as int, d.links[l as int].b));
                assert(!blueprint_doc_valid(d));
                return Err(GraphConsistencyError::BadIndex);
            },
        };
        if !slot_ok(&frames, ld.a) || !slot_ok(&frames, ld.b) {
            proof {
                assert(!(slot_doc_valid(d, d.links[l as int].a) && slot_doc_valid(d, d.links[l as int].b)));
                assert(!blueprint_doc_valid(d));
            }
            return Err(GraphConsistencyError::BadIndex);
        }
        let x = Link { id: nf as u64 + nm as u64 + l as u64, a, b, order: ld.order };
        proof {
            lemma_terminator_round_trip(frames@, ld.a, a);
            lemma_terminator_round_trip(frames@, ld.b, b);
        }
        let ghost before = links@;
        links.push(x);
        proof {
            assert forall|n: int| 0 <= n < l + 1 implies crate::graph::slot_valid(frames@, (#[trigger] links@[n]).a)
                && crate::graph::slot_valid(frames@, links@[n].b) && links@[n].id == nf + nm + n by {
                if n < l {
                    assert(links@[n] == before[n]);
                }
            }
        }
        l = l + 1;
    }
    if nm == 0 || doc.active_machine >= nm {
        return Err(GraphConsistencyError::BadIndex);
    }
    let mut machines: Vec<Machine> = Vec::new();
    let mut k: usize = 0;
    while k < nm
        invariant
            d == doc@,
            nm == doc.machines@.len(),
            nf == frames@.len(),
            nf == doc.frames@.len(),
            nf + nl + nm < u64::MAX,
            ids_are_indices(frames@),
            crate::graph::frame_ids_unique(frames@),
            forall|n: int| 0 <= n < nf ==> (#[trigger] frames@[n]).typ == doc_type(d, n),
            k <= nm,
            machines@.len() == k,
            forall|n: int| 0 <= n < k ==> (#[trigger] machines@[n]).id == nf + n,
            forall|n: int| 0 <= n < k ==> (#[trigger] machines@[n]).objects@.map_values(|o: Object| object_doc(frames@, o))
                == d.machines[n].map_values(|o: ObjectDocModel| canonical_object(d, o)),
            forall|n: int, j: int| 0 <= n < k && 0 <= j < machines@[n].objects@.len() ==> has_frame(frames@, #[trigger] machines@[n].objects@[j].frame),
            crate::graph::objects_typed(frames@, machines@),
            forall|n: int, j: int|
                0 <= n < k && 0 <= j < d.machines[n].len() ==> (#[trigger] d.machines[n][j]).frame < nf
                    && deserializable(doc_type(d, d.machines[n][j].frame as int), d.machines[n][j].data),
        decreases nm - k,
    {
        let ods = &doc.machines[k];
        let ghost dm = d.machines[k as int];
        assert(ods@.map_values(|o: ObjectDoc| o@) == dm);
        let mut objects: Vec<Object> = Vec::new();
        let mut j: usize = 0;
        while j < ods.len()
            invariant
                d == doc@,
                ods@.map_values(|o: ObjectDoc| o@) == dm,
                k < d.machines.len(),
                dm == d.machines[k as int],
                nf == frames@.len(),
                nf == doc.frames@.len(),
                ids_are_indices(frames@),
                crate::graph::frame_ids_unique(frames@),
                forall|n: int| 0 <= n < nf ==> (#[trigger] frames@[n]).typ == doc_type(d, n),
                j <= ods@.len(),
                objects@.len() == j,
                objects@.map_values(|o: Object| object_doc(frames@, o)) == dm.subrange(0, j as int).map_values(
                    |o: ObjectDocModel| canonical_object(d, o),
                ),
                forall|n: int| 0 <= n < j ==> has_frame(frames@, #[trigger] objects@[n].frame),
                forall|n: int| 0 <= n < j ==> payload_kind((#[trigger] objects@[n]).data@) == frames@[frame_pos(frames@, objects@[n].frame)].typ,
                forall|n: int| 0 <= n < j ==> (#[trigger] dm[n]).frame < nf && deserializable(doc_type(d, dm[n].frame as int), dm[n].data),
            decreases ods@.len() - j,
        {
            let od = &ods[j];
            assert(od@ == dm[j as int]);
            assert(dm[j as int] == d.machines[k as int][j as int]);
            if od.frame >= nf {
                assert(d.frames.len() == nf);
                assert(d.machines[k as int][j as int].frame >= d.frames.len());
                assert(!blueprint_doc_valid(d));
                return Err(GraphConsistencyError::BadIndex);
            }
            let t = frames[od.frame].typ;
            let data = match t.deserialize(&od.data) {
                Ok(p) => p,
                Err(e) => {
                    assert(!deserializable(doc_type(d, d.machines[k as int][j as int].frame as int), d.machines[k as int][j as int].data));
                    assert(!blueprint_doc_valid(d));
                    return Err(e);
                },
            };
            let o = Object { frame: od.frame as u64, execute: od.execute, data };
            proof {
                lemma_frame_pos(frames@, od.frame as u64, od.frame as int);
                assert(frames@[od.frame as int].id == od.frame);
                assert(object_doc(frames@, o) == canonical_object(d, dm[j as int]));
            }
            let ghost before = objects@;
            proof {
                assert(payload_kind(o.data@) == frames@[frame_pos(frames@, o.frame)].typ);
            }
            objects.push(o);
            proof {
                assert forall|n: int| 0 <= n < j + 1 implies payload_kind((#[trigger] objects@[n]).data@) == frames@[frame_pos(frames@, objects@[n].frame)].typ by {
                    if n < j { assert(objects@[n] == before[n]); }
                }
            }
            proof {
                lemma_map_push(before, o, |o: Object| object_doc(frames@, o));
                lemma_map_prefix(dm, j as int, |o: ObjectDocModel| canonical_object(d, o));
            }
            j = j + 1;
        }
        proof {
            assert(dm.subrange(0, j as int) =~= dm);
        }
        let ghost ms0 = machines@;
        let ghost objs = objects@;
        machines.push(Machine { id: nf as u64 + k as u64, objects });
        proof {
            assert forall|n: int, j2: int|
                0 <= n < machines@.len() && 0 <= j2 < machines@[n].objects@.len() implies payload_kind(
                    (#[trigger] machines@[n].objects@[j2]).data@,
                ) == frames@[frame_pos(frames@, machines@[n].objects@[j2].frame)].typ by {
                if n < ms0.len() { assert(machines@[n] == ms0[n]); } else { assert(machines@[n].objects@ == objs); }
            }
        }
        k = k + 1;
    }
    let active = doc.active_machine;
    let bp = Blueprint {
        id,
        name: doc.name.clone(),
        frames,
        links,
        machines,
        active_machine: nf as u64 + active as u64,
        next_id: nf as u64 + nl as u64 + nm as u64,
    };
    proof {
        assert(bp.has_machine(bp.active_machine)) by {
            assert(bp.machines@[active as int].id == bp.active_machine);
        }
        assert forall|a: int, b: int|
            0 <= a < bp.machines@.len() && 0 <= b < bp.machines@.len() && #[trigger] bp.machines@[a].id == #[trigger] bp.machines@[b].id
            implies a == b by {}
        assert forall|n: int| 0 <= n < nf implies #[trigger] bp.frames@[n].id < bp.next_id by {}
        lemma_machine_pos(bp.machines@, bp.active_machine, active as int);
        assert forall|a: int, b: int|
            0 <= a < bp.links@.len() && 0 <= b < bp.links@.len() && #[trigger] bp.links@[a].id == #[trigger] bp.links@[b].id
            implies a == b by {}
        assert(blueprint_doc(bp).frames =~= d.frames);
        assert(blueprint_doc(bp).links =~= d.links);
        assert(blueprint_doc(bp).machines =~= canonical_blueprint(d).machines);
        assert(blueprint_doc(bp) == canonical_blueprint(d));
    }
    Ok(bp)
}

/// A terminator read from a document and written back is the same.
proof fn lemma_terminator_round_trip(frames: Seq<Frame>, t: TerminatorDoc, x: LinkTerminator)
    requires
        ids_are_indices(frames),
        crate::graph::frame_ids_unique(frames),
        terminator_doc_valid(frames.len() as int, t),
        match t {
            TerminatorDoc::Frame(i) => x == LinkTerminator::Frame(i as u64),
            TerminatorDoc::FrameParam { frame, param_index } => x == LinkTerminator::FrameParam(
                FrameParam { frame: frame as u64, param_index },
            ),
            TerminatorDoc::Point(p) => x == LinkTerminator::Point(p),
        },
    ensures
        terminator_doc(frames, x) == t,
        crate::graph::terminator_valid(frames, x),
        (t matches TerminatorDoc::FrameParam { frame, param_index } ==> param_index < spec_param_count(
            frames[frame as int].typ,
        )) ==> crate::graph::slot_valid(frames, x),
{
    match t {
        TerminatorDoc::Frame(i) => {
            lemma_frame_pos(frames, i as u64, i as int);
            assert(frames[i as int].id == i as u64);
        },
        TerminatorDoc::FrameParam { frame, param_index } => {
            lemma_frame_pos(frames, frame as u64, frame as int);
            assert(frames[frame as int].id == frame as u64);
        },
        TerminatorDoc::Point(_) => {},
    }
}

/// Task `t` names an object that exists.
pub open spec fn task_resolves(vm: Vm, t: Task) -> bool {
    exists|b: int, m: int, i: int, j: int| task_target(vm, t, b, m, i, j)
}

/// The stored form of a task that resolves: its blueprint, frame and machine
/// by index.
pub open spec fn task_doc(vm: Vm, t: Task) -> TaskDoc {
    let (b, m, i, j) = choose|b: int, m: int, i: int, j: int| task_target(vm, t, b, m, i, j);
    TaskDoc { blueprint: b as usize, frame: i as usize, machine: m as usize }
}

/// The index of the active blueprint.
pub open spec fn active_pos(vm: Vm) -> int {
    choose|k: int| is_active_index(vm, k)
}

/// The document of a model: every blueprint, the active one by index, and
/// the queued runs whose objects still exist.
pub open spec fn vm_doc(vm: Vm) -> VmDocModel {
    VmDocModel {
        blueprints: vm.blueprints@.map_values(|b: Blueprint| blueprint_doc(b)),
        active_blueprint: active_pos(vm) as usize,
        tasks: vm.tasks@.filter(|t: Task| task_resolves(vm, t)).map_values(|t: Task| task_doc(vm, t)),
    }
}

/// A task document names an object of the document.
pub open spec fn task_doc_valid(d: VmDocModel, t: TaskDoc) -> bool {
    &&& t.blueprint < d.blueprints.len()
    &&& t.frame < d.blueprints[t.blueprint as int].frames.len()
    &&& t.machine < d.blueprints[t.blueprint as int].machines.len()
    &&& exists|j: int|
        0 <= j < d.blueprints[t.blueprint as int].machines[t.machine as int].len()
            && (#[trigger] d.blueprints[t.blueprint as int].machines[t.machine as int][j]).frame == t.frame
}

/// A model document can be loaded.
pub open spec fn vm_doc_valid(d: VmDocModel) -> bool {
    &&& d.blueprints.len() < u64::MAX
    &&& forall|b: int| 0 <= b < d.blueprints.len() ==> blueprint_doc_valid(#[trigger] d.blueprints[b])
    &&& d.active_blueprint < d.blueprints.len()
    &&& forall|n: int| 0 <= n < d.tasks.len() ==> task_doc_valid(d, #[trigger] d.tasks[n])
}

/// A model document with every payload as its type writes it back.
pub open spec fn canonical_vm(d: VmDocModel) -> VmDocModel {
    VmDocModel { blueprints: d.blueprints.map_values(|b: BlueprintDocModel| canonical_blueprint(b)), ..d }
}

/// The indices where a task lands are the only ones.
pub proof fn lemma_task_target_unique(vm: Vm, t: Task, b: int, m: int, i: int, j: int, b2: int, m2: int, i2: int, j2: int)
    requires
        task_target(vm, t, b, m, i, j),
        task_target(vm, t, b2, m2, i2, j2),
    ensures
        b == b2 && m == m2 && i == i2 && j == j2,
{
    if b < b2 {
        assert(vm.blueprints@[b].id != t.blueprint);
    }
    if b2 < b {
        assert(vm.blueprints@[b2].id != t.blueprint);
    }
    assert(b == b2);
    let bp = vm.blueprints@[b];
    if m < m2 {
        assert(bp.machines@[m].id != t.machine);
    }
    if m2 < m {
        assert(bp.machines@[m2].id != t.machine);
    }
    if i < i2 {
        assert(bp.frames@[i].id != t.frame);
    }
    if i2 < i {
        assert(bp.frames@[i2].id != t.frame);
    }
    if j < j2 {
        assert(bp.machines@[m].objects@[j].frame != t.frame);
    }
    if j2 < j {
        assert(bp.machines@[m].objects@[j2].frame != t.frame);
    }
}

/// The document of a model. Fails with `MissingEntity` when there is no
/// active blueprint.
pub fn save(vm: &Vm) -> (r: Result<VmDoc, GraphConsistencyError>)
    requires
        vm.wf(),
    ensures
        r is Ok <==> exists|k: int| is_active_index(*vm, k),
        r matches Ok(d) ==> d@ == vm_doc(*vm),
        r matches Err(e) ==> e == GraphConsistencyError::MissingEntity,
{
    let active = match vm.blueprint_index(vm.active_blueprint) {
        Some(k) => k,
        None => {
            return Err(GraphConsistencyError::MissingEntity);
        },
    };
    proof {
        assert(is_active_index(*vm, active as int));
        let c = active_pos(*vm);
        if c < active { assert(vm.blueprints@[c].id != vm.active_blueprint); }
        if c > active { assert(vm.blueprints@[active as int].id != vm.active_blueprint); }
    }
    let mut blueprints: Vec<BlueprintDoc> = Vec::new();
    let mut b: usize = 0;
    while b < vm.blueprints.len()
        invariant
            vm.wf(),
            b <= vm.blueprints@.len(),
            blueprints@.map_values(|x: BlueprintDoc| x@) == vm.blueprints@.subrange(0, b as int).map_values(|x: Blueprint| blueprint_doc(x)),
        decreases vm.blueprints@.len() - b,
    {
        let ghost before = blueprints@;
        let bd = save_blueprint(&vm.blueprints[b]);
        blueprints.push(bd);
        proof {
            lemma_map_push(before, bd, |x: BlueprintDoc| x@);
            lemma_map_prefix(vm.blueprints@, b as int, |x: Blueprint| blueprint_doc(x));
        }
        b = b + 1;
    }
    let ghost keep = |t: Task| task_resolves(*vm, t);
    let mut tasks: Vec<TaskDoc> = Vec::new();
    let mut n: usize = 0;
    while n < vm.tasks.len()
        invariant
            vm.wf(),
            n <= vm.tasks@.len(),
            keep == (|t: Task| task_resolves(*vm, t)),
            tasks@ == vm.tasks@.subrange(0, n as int).filter(keep).map_values(|t: Task| task_doc(*vm, t)),
        decreases vm.tasks@.len() - n,
    {
        let t = vm.tasks[n];
        proof {
            crate::graph::lemma_filter_step(vm.tasks@, n as int, keep);
        }
        match vm.resolve_task(t) {
            Some((bi, m, i, j)) => {
                proof {
                    let (b2, m2, i2, j2) = choose|b2: int, m2: int, i2: int, j2: int| task_target(*vm, t, b2, m2, i2, j2);
                    lemma_task_target_unique(*vm, t, bi as int, m as int, i as int, j as int, b2, m2, i2, j2);
                }
                let ghost before = tasks@;
                tasks.push(TaskDoc { blueprint: bi, frame: i, machine: m });
                proof {
                    let pre = vm.tasks@.subrange(0, n as int).filter(keep);
                    lemma_map_push(pre, t, |t: Task| task_doc(*vm, t));
                }
            },
            None => {},
        }
        n = n + 1;
    }
    proof {
        assert(vm.blueprints@.subrange(0, b as int) =~= vm.blueprints@);
        assert(vm.tasks@.subrange(0, n as int) =~= vm.tasks@);
    }
    let r = VmDoc { blueprints, active_blueprint: active, tasks };
    proof {
        assert(r@.blueprints =~= vm_doc(*vm).blueprints);
        assert(r@.tasks =~= vm_doc(*vm).tasks);
    }
    Ok(r)
}

/// Task `t` lands on blueprint, machine and frame as `td` names them.
pub open spec fn task_lands(vm: Vm, t: Task, td: TaskDoc) -> bool {
    exists|j: int| task_target(vm, t, td.blueprint as int, td.machine as int, td.frame as int, j)
}

/// Keeping every element of a sequence keeps the sequence.
pub proof fn lemma_filter_all<A>(s: Seq<A>, p: spec_fn(A) -> bool)
    requires
        forall|i: int| 0 <= i < s.len() ==> p(#[trigger] s[i]),
    ensures
        s.filter(p) == s,
    decreases s.len(),
{
    reveal(Seq::filter);
    if s.len() > 0 {
        lemma_filter_all(s.drop_last(), p);
        assert(s.drop_last().push(s.last()) =~= s);
    }
}

/// Rebuilds a model from its document: blueprint `b` gets id `b`, and no
/// handler runs. Fails when the document cannot be loaded.
pub fn load(doc: &VmDoc) -> (r: Result<Vm, GraphConsistencyError>)
    ensures
        r is Ok <==> vm_doc_valid(doc@),
        r matches Ok(vm) ==> vm.wf() && vm_doc(vm) == canonical_vm(doc@) && vm.handler is None
            && vm.tasks@.len() == doc@.tasks.len() && forall|q: int|
            0 <= q < vm.tasks@.len() ==> task_resolves(vm, #[trigger] vm.tasks@[q]) && task_doc(vm, vm.tasks@[q])
                == doc@.tasks[q],
{
    let ghost d = doc@;
    let nb = doc.blueprints.len();
    if nb as u128 >= u64::MAX as u128 {
        return Err(GraphConsistencyError::BadIndex);
    }
    let mut bps: Vec<Blueprint> = Vec::new();
    let mut b: usize = 0;
    while b < nb
        invariant
            d == doc@,
            nb == doc.blueprints@.len(),
            nb < u64::MAX,
            b <= nb,
            bps@.len() == b,
            forall|n: int| 0 <= n < b ==> {
                &&& (#[trigger] bps@[n]).wf()
                &&& bps@[n].id == n
                &&& blueprint_doc(bps@[n]) == canonical_blueprint(d.blueprints[n])
                &&& ids_are_indices(bps@[n].frames@)
                &&& forall|k: int| 0 <= k < bps@[n].machines@.len() ==> (#[trigger] bps@[n].machines@[k]).id == bps@[n].frames@.len() + k
            },
            forall|n: int| 0 <= n < b ==> blueprint_doc_valid(#[trigger] d.blueprints[n]),
        decreases nb - b,
    {
        assert(doc.blueprints@[b as int]@ == d.blueprints[b as int]);
        match load_blueprint(&doc.blueprints[b], b as u64) {
            Ok(bp) => {
                bps.push(bp);
            },
            Err(e) => {
                return Err(e);
            },
        }
        b = b + 1;
    }
    if doc.active_blueprint >= nb {
        return Err(GraphConsistencyError::BadIndex);
    }
    let mut vm = Vm::new();
    vm.blueprints = bps;
    vm.active_blueprint = doc.active_blueprint as u64;
    vm.next_id = nb as u64;
    assert(vm.wf());
    let mut tasks: Vec<Task> = Vec::new();
    let mut n: usize = 0;
    while n < doc.tasks.len()
        invariant
            d == doc@,
            nb == vm.blueprints@.len(),
            nb == d.blueprints.len(),
            vm.wf(),
            forall|x: int| 0 <= x < nb ==> {
                &&& (#[trigger] vm.blueprints@[x]).id == x
                &&& blueprint_doc(vm.blueprints@[x]) == canonical_blueprint(d.blueprints[x])
                &&& ids_are_indices(vm.blueprints@[x].frames@)
                &&& forall|k: int| 0 <= k < vm.blueprints@[x].machines@.len() ==> (#[trigger] vm.blueprints@[x].machines@[k]).id == vm.blueprints@[x].frames@.len() + k
            },
            n <= doc.tasks@.len(),
            tasks@.len() == n,
            forall|q: int| 0 <= q < n ==> task_doc_valid(d, #[trigger] d.tasks[q]),
            forall|q: int| 0 <= q < n ==> task_lands(vm, #[trigger] tasks@[q], d.tasks[q]),
        decreases doc.tasks@.len() - n,
    {
        let td = doc.tasks[n];
        assert(td == d.tasks[n as int]);
        if td.blueprint >= nb {
            return Err(GraphConsistencyError::BadIndex);
        }
        let bp = &vm.blueprints[td.blueprint];
        proof {
            assert(d.blueprints[td.blueprint as int].frames.len() == bp.frames@.len()) by {
                assert(blueprint_doc(*bp).frames.len() == bp.frames@.len());
            }
            assert(d.blueprints[td.blueprint as int].machines.len() == bp.machines@.len()) by {
                assert(blueprint_doc(*bp).machines.len() == bp.machines@.len());
            }
        }
        if td.frame >= bp.frames.len() || td.machine >= bp.machines.len() {
            return Err(GraphConsistencyError::BadIndex);
        }
        let mach = &bp.machines[td.machine];
        let ghost dm = d.blueprints[td.blueprint as int].machines[td.machine as int];
        proof {
            assert(blueprint_doc(*bp).machines[td.machine as int] == mach.objects@.map_values(|o: Object| object_doc(bp.frames@, o)));
            assert(canonical_blueprint(d.blueprints[td.blueprint as int]).machines[td.machine as int] == dm.map_values(|o: ObjectDocModel| canonical_object(d.blueprints[td.blueprint as int], o)));
            assert(dm.len() == mach.objects@.len());
            assert forall|j: int| 0 <= j < dm.len() implies (#[trigger] dm[j]).frame as int == mach.objects@[j].frame as int by {
                let o = mach.objects@[j];
                assert(has_frame(bp.frames@, o.frame));
                let fi = choose|fi: int| 0 <= fi < bp.frames@.len() && #[trigger] bp.frames@[fi].id == o.frame;
                lemma_frame_pos(bp.frames@, o.frame, fi);
                let db = d.blueprints[td.blueprint as int];
                assert(*bp == vm.blueprints@[td.blueprint as int]);
                assert(blueprint_doc(*bp).machines == canonical_blueprint(db).machines);
                assert(mach.objects@.map_values(|o: Object| object_doc(bp.frames@, o))[j] == object_doc(bp.frames@, o));
                assert(dm.map_values(|o: ObjectDocModel| canonical_object(db, o))[j] == canonical_object(db, dm[j]));
                assert(object_doc(bp.frames@, o) == canonical_object(db, dm[j]));
            }
        }
        let j = match mach.object_index(td.frame as u64) {
            Some(j) => j,
            None => {
                proof {
                    assert forall|j: int| 0 <= j < dm.len() implies (#[trigger] dm[j]).frame != td.frame by {
                        assert(mach.objects@[j].frame != td.frame as u64);
                    }
                    assert(!task_doc_valid(d, d.tasks[n as int]));
                }
                return Err(GraphConsistencyError::MissingEntity);
            },
        };
        let t = Task { blueprint: td.blueprint as u64, machine: mach.id, frame: td.frame as u64 };
        proof {
            assert(task_doc_valid(d, td)) by {
                assert(dm[j as int].frame == td.frame);
            }
            let bi = td.blueprint as int;
            assert forall|b2: int| 0 <= b2 < bi implies vm.blueprints@[b2].id != t.blueprint by {
                assert(vm.blueprints@[b2].id == b2);
            }
            assert forall|m2: int| 0 <= m2 < td.machine implies bp.machines@[m2].id != t.machine by {
                assert(bp.machines@[m2].id == bp.frames@.len() + m2);
            }
            assert forall|i2: int| 0 <= i2 < td.frame implies bp.frames@[i2].id != t.frame by {
                assert(bp.frames@[i2].id == i2);
            }
            assert(bp.frames@[td.frame as int].id == td.frame);
            assert(task_target(vm, t, bi, td.machine as int, td.frame as int, j as int));
        }
        let ghost before = tasks@;
        tasks.push(t);
        proof {
            assert(task_lands(vm, t, td));
            assert forall|q: int| 0 <= q < n + 1 implies task_lands(vm, #[trigger] tasks@[q], d.tasks[q]) by {
                if q < n {
                    assert(tasks@[q] == before[q]);
                } else {
                    assert(tasks@[q] == t);
                }
            }
        }
        n = n + 1;
    }
    let ghost vm0 = vm;
    vm.tasks = tasks;
    proof {
        let fin = vm;
        assert forall|q: int| 0 <= q < fin.tasks@.len() implies task_resolves(fin, #[trigger] fin.tasks@[q])
            && task_doc(fin, fin.tasks@[q]) == d.tasks[q] by {
            let t = fin.tasks@[q];
            assert(task_lands(vm0, t, d.tasks[q]));
            let j = choose|j: int| task_target(vm0, t, d.tasks[q].blueprint as int, d.tasks[q].machine as int, d.tasks[q].frame as int, j);
            assert(task_target(fin, t, d.tasks[q].blueprint as int, d.tasks[q].machine as int, d.tasks[q].frame as int, j));
            let (b2, m2, i2, j2) = choose|b2: int, m2: int, i2: int, j2: int| task_target(fin, t, b2, m2, i2, j2);
            lemma_task_target_unique(fin, t, d.tasks[q].blueprint as int, d.tasks[q].machine as int, d.tasks[q].frame as int, j, b2, m2, i2, j2);
        }
        lemma_filter_all(fin.tasks@, |t: Task| task_resolves(fin, t));
        assert(vm_doc(fin).tasks =~= d.tasks);
        let c = active_pos(fin);
        assert(is_active_index(fin, d.active_blueprint as int)) by {
            assert forall|k2: int| 0 <= k2 < d.active_blueprint implies fin.blueprints@[k2].id != fin.active_blueprint by {
                assert(fin.blueprints@[k2].id == k2);
            }
        }
        assert(c == d.active_blueprint) by {
            assert(fin.blueprints@[c].id == c);
        }
        assert(vm_doc(fin).blueprints =~= canonical_vm(d).blueprints);
    }
    Ok(vm)
}

/// The entity counts of a blueprint leave room for its ids.
pub open spec fn counts_fit(bp: Blueprint) -> bool {
    bp.frames@.len() + bp.links@.len() + bp.machines@.len() < u64::MAX
}

proof fn lemma_frame_pos_in_range(frames: Seq<Frame>, id: u64)
    requires
        has_frame(frames, id),
    ensures
        0 <= frame_pos(frames, id) < frames.len(),
        frames[frame_pos(frames, id)].id == id,
{
}

proof fn lemma_terminator_doc_valid(bp: Blueprint, t: LinkTerminator)
    requires
        crate::graph::terminator_valid(bp.frames@, t),
        crate::graph::slot_valid(bp.frames@, t),
    ensures
        terminator_doc_valid(bp.frames@.len() as int, terminator_doc(bp.frames@, t)),
        slot_doc_valid(blueprint_doc(bp), terminator_doc(bp.frames@, t)),
{
    match t {
        LinkTerminator::Frame(id) => lemma_frame_pos_in_range(bp.frames@, id),
        LinkTerminator::FrameParam(fp) => {
            lemma_frame_pos_in_range(bp.frames@, fp.frame);
            let fi = frame_pos(bp.frames@, fp.frame);
            assert(bp.frames@.len() == bp.frames.len());
            crate::catalog::lemma_find_type_name(bp.frames@[fi].typ);
            assert(doc_type(blueprint_doc(bp), fi) == bp.frames@[fi].typ);
        },
        LinkTerminator::Point(_) => {},
    }
}

/// The document of a blueprint can be loaded, and its payloads are already
/// as their types write them.
pub proof fn lemma_blueprint_doc_round_trip(bp: Blueprint)
    requires
        bp.wf(),
        counts_fit(bp),
    ensures
        blueprint_doc_valid(blueprint_doc(bp)),
        canonical_blueprint(blueprint_doc(bp)) == blueprint_doc(bp),
{
    let d = blueprint_doc(bp);
    assert forall|i: int| 0 <= i < d.frames.len() implies spec_find_type((#[trigger] d.frames[i]).typ) is Some
        && d.frames[i].size.width >= MIN_SIZE && d.frames[i].size.height >= MIN_SIZE by {
        crate::catalog::lemma_find_type_name(bp.frames@[i].typ);
        assert(crate::graph::frame_wf(bp.frames@[i]));
    }
    assert forall|l: int| 0 <= l < d.links.len() implies terminator_doc_valid(d.frames.len() as int, (#[trigger] d.links[l]).a)
        && terminator_doc_valid(d.frames.len() as int, d.links[l].b) && slot_doc_valid(d, d.links[l].a) && slot_doc_valid(
        d,
        d.links[l].b,
    ) by {
        lemma_terminator_doc_valid(bp, bp.links@[l].a);
        lemma_terminator_doc_valid(bp, bp.links@[l].b);
    }
    assert(0 <= machine_pos(bp.machines@, bp.active_machine) < bp.machines@.len());
    assert forall|k: int, j: int|
        0 <= k < d.machines.len() && 0 <= j < d.machines[k].len() implies (#[trigger] d.machines[k][j]).frame
            < d.frames.len() && deserializable(doc_type(d, d.machines[k][j].frame as int), d.machines[k][j].data)
            && canonical_object(d, d.machines[k][j]) == d.machines[k][j] by {
        let o = bp.machines@[k].objects@[j];
        assert(d.machines[k][j] == object_doc(bp.frames@, o));
        lemma_frame_pos_in_range(bp.frames@, o.frame);
        let fi = frame_pos(bp.frames@, o.frame);
        assert(bp.frames@.len() == bp.frames.len());
        assert(d.machines[k][j].frame as int == fi);
        crate::catalog::lemma_find_type_name(bp.frames@[fi].typ);
        assert(doc_type(d, fi) == bp.frames@[fi].typ);
        assert(payload_kind(o.data@) == bp.frames@[fi].typ);
        lemma_payload_round_trip(o.data@);
    }
    assert(canonical_blueprint(d).machines =~= d.machines) by {
        assert forall|k: int| 0 <= k < d.machines.len() implies (#[trigger] canonical_blueprint(d).machines[k]) == d.machines[k] by {
            assert(canonical_blueprint(d).machines[k] =~= d.machines[k]);
        }
    }
}

/// Saving a model and loading its document back succeeds, and the loaded
/// model has the same document: by the contracts of `save` and `load`, it has
/// as many blueprints, frames, links and machines, the same link ends and
/// the same queued runs, by index.
pub proof fn lemma_save_load_round_trip(vm: Vm)
    requires
        vm.wf(),
        exists|k: int| is_active_index(vm, k),
        vm.blueprints@.len() < u64::MAX,
        forall|b: int| 0 <= b < vm.blueprints@.len() ==> counts_fit(#[trigger] vm.blueprints@[b]),
    ensures
        vm_doc_valid(vm_doc(vm)),
        canonical_vm(vm_doc(vm)) == vm_doc(vm),
{
    let d = vm_doc(vm);
    assert forall|b: int| 0 <= b < d.blueprints.len() implies blueprint_doc_valid(#[trigger] d.blueprints[b])
        && canonical_blueprint(d.blueprints[b]) == d.blueprints[b] by {
        lemma_blueprint_doc_round_trip(vm.blueprints@[b]);
    }
    let k = active_pos(vm);
    assert(is_active_index(vm, k));
    let keep = |t: Task| task_resolves(vm, t);
    let kept = vm.tasks@.filter(keep);
    assert forall|n: int| 0 <= n < d.tasks.len() implies task_doc_valid(d, #[trigger] d.tasks[n]) by {
        broadcast use vstd::seq_lib::group_filter_ensures;
        let t = kept[n];
        assert(d.tasks[n] == task_doc(vm, t));
        assert(keep(t));
        let (b, m, i, j) = choose|b: int, m: int, i: int, j: int| task_target(vm, t, b, m, i, j);
        let bp = vm.blueprints@[b];
        let o = bp.machines@[m].objects@[j];
        lemma_frame_pos(bp.frames@, t.frame, i);
        assert(bp.frames@.len() == bp.frames.len());
        assert(bp.machines@.len() == bp.machines.len());
        assert(vm.blueprints@.len() == vm.blueprints.len());
        assert(d.tasks[n].blueprint == b && d.tasks[n].machine == m && d.tasks[n].frame == i);
        assert(d.blueprints[b].machines[m][j] == object_doc(bp.frames@, o));
        assert(d.blueprints[b].machines[m][j].frame == i);
    }
    assert(canonical_vm(d).blueprints =~= d.blueprints);
}

} // verus!
