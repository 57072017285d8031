use blueprint_vm::catalog::{Payload, TypeKind};
use blueprint_vm::geometry::{WorldPoint, WorldSize};
use blueprint_vm::graph::{Blueprint, FrameParam, LinkTerminator};

fn at(bp: &mut Blueprint, typ: TypeKind, global: bool, x: i64, y: i64) -> u64 {
    let id = bp.add_frame(typ, global);
    let i = bp.frame_index(id).unwrap();
    bp.set_frame_box(i, WorldPoint { x, y }, WorldSize { width: 20, height: 20 });
    id
}

#[test]
fn new_blueprint_has_one_active_global_machine() {
    let bp = Blueprint::new(7, "Default".to_string());
    assert_eq!(bp.id, 7);
    assert_eq!(bp.name, "Default");
    assert_eq!(bp.machines.len(), 1);
    assert_eq!(bp.active_machine, bp.machines[0].id);
    assert!(bp.frames.is_empty() && bp.links.is_empty());
}

#[test]
fn global_frames_live_in_global_machine_local_frames_everywhere() {
    let mut bp = Blueprint::new(0, "b".to_string());
    let m1 = bp.add_machine();
    let g = bp.add_frame(TypeKind::Text, true);
    let l = bp.add_frame(TypeKind::Process, false);
    assert_eq!(bp.machines.len(), 2);
    assert_eq!(bp.machines[0].objects.len(), 2);
    assert_eq!(bp.machines[1].id, m1);
    assert_eq!(bp.machines[1].objects.len(), 1);
    assert_eq!(bp.machines[1].objects[0].frame, l);
    assert!(matches!(&bp.machines[0].objects[0].data, Payload::Text(s) if s.is_empty()));
    assert_eq!(bp.machines[0].objects[0].frame, g);
    let m2 = bp.add_machine();
    let k = bp.machine_index(m2).unwrap();
    assert_eq!(bp.machines[k].objects.len(), 1);
    assert_eq!(bp.machines[k].objects[0].frame, l);
    assert_eq!(bp.frames[0].size, WorldSize { width: 10, height: 10 });
}

#[test]
fn deleting_a_frame_removes_its_links_and_objects() {
    let mut bp = Blueprint::new(0, "b".to_string());
    bp.add_machine();
    let a = at(&mut bp, TypeKind::Text, false, 0, 0);
    let b = at(&mut bp, TypeKind::Process, false, 50, 0);
    let c = at(&mut bp, TypeKind::Text, false, 100, 0);
    bp.add_link(LinkTerminator::FrameParam(FrameParam { frame: b, param_index: 0 }), LinkTerminator::Frame(a), 0);
    bp.add_link(LinkTerminator::Frame(a), LinkTerminator::Frame(c), 1);
    bp.add_link(LinkTerminator::FrameParam(FrameParam { frame: b, param_index: 1 }), LinkTerminator::Frame(c), 2);
    bp.add_link(LinkTerminator::Point(WorldPoint { x: 1, y: 1 }), LinkTerminator::Frame(b), 3);
    assert!(bp.delete_frame(a));
    assert_eq!(bp.frames.len(), 2);
    assert!(bp.frame_index(a).is_none());
    assert_eq!(bp.links.len(), 2);
    assert_eq!(bp.links[0].order, 2);
    assert_eq!(bp.links[1].order, 3);
    for m in bp.machines.iter() {
        assert!(m.objects.iter().all(|o| o.frame != a));
        assert_eq!(m.objects.len(), 2);
    }
    assert!(!bp.delete_frame(a));
    assert!(bp.delete_frame(b));
    assert_eq!(bp.links.len(), 0);
}

#[test]
fn query_frame_takes_first_in_storage_order() {
    let mut bp = Blueprint::new(0, "b".to_string());
    at(&mut bp, TypeKind::Text, true, 0, 0);
    at(&mut bp, TypeKind::Text, true, 5, 0);
    assert_eq!(bp.query_frame(&WorldPoint { x: 6, y: 0 }), Some(0));
    assert_eq!(bp.query_frame(&WorldPoint { x: 12, y: 0 }), Some(1));
    assert_eq!(bp.query_frame(&WorldPoint { x: 15, y: 0 }), None);
}

#[test]
fn objects_resolve_in_the_right_machine() {
    let mut bp = Blueprint::new(0, "b".to_string());
    let m1 = bp.add_machine();
    let g = bp.add_frame(TypeKind::Text, true);
    let l = bp.add_frame(TypeKind::Text, false);
    assert_eq!(bp.get_object(g).map(|(k, _)| k), Some(0));
    assert_eq!(bp.get_object(l).map(|(k, _)| k), Some(0));
    assert!(bp.activate(m1));
    assert_eq!(bp.get_object(l).map(|(k, _)| k), Some(1));
    assert_eq!(bp.get_object(g).map(|(k, _)| k), Some(0));
    assert!(bp.get_object(999).is_none());
    assert!(!bp.activate(999));
}

#[test]
fn machines_cycle_and_global_machine_stays() {
    let mut bp = Blueprint::new(0, "b".to_string());
    let m0 = bp.machines[0].id;
    let m1 = bp.add_machine();
    let m2 = bp.add_machine();
    bp.cycle_active_machine(true);
    assert_eq!(bp.active_machine, m1);
    bp.cycle_active_machine(false);
    bp.cycle_active_machine(false);
    assert_eq!(bp.active_machine, m2);
    bp.remove_active_machine();
    assert_eq!(bp.machines.len(), 2);
    assert_eq!(bp.active_machine, m1);
    bp.cycle_active_machine(false);
    assert_eq!(bp.active_machine, m0);
    bp.remove_active_machine();
    assert_eq!(bp.machines.len(), 2);
}

#[test]
fn collect_args_follows_links_in_order() {
    let mut bp = Blueprint::new(0, "b".to_string());
    let p = bp.add_frame(TypeKind::Process, true);
    let a = bp.add_frame(TypeKind::Text, true);
    let b = bp.add_frame(TypeKind::Text, true);
    bp.add_link(LinkTerminator::FrameParam(FrameParam { frame: p, param_index: 1 }), LinkTerminator::Frame(b), 0);
    bp.add_link(LinkTerminator::FrameParam(FrameParam { frame: p, param_index: 1 }), LinkTerminator::Frame(a), 0);
    bp.add_link(LinkTerminator::FrameParam(FrameParam { frame: p, param_index: 0 }), LinkTerminator::Point(WorldPoint { x: 0, y: 0 }), 0);
    let i = bp.frame_index(p).unwrap();
    let args = bp.collect_args(i);
    assert_eq!(args.len(), 4);
    assert!(args[0].is_empty());
    assert_eq!(args[1], vec![b, a]);
}

#[test]
fn link_ends_can_be_moved_and_links_removed() {
    let mut bp = Blueprint::new(0, "b".to_string());
    let a = bp.add_frame(TypeKind::Text, true);
    let id = bp.add_link(LinkTerminator::Frame(a), LinkTerminator::Point(WorldPoint { x: 1, y: 2 }), 0);
    assert!(bp.set_link_end(id, false, LinkTerminator::Point(WorldPoint { x: 3, y: 4 })));
    assert_eq!(bp.links[0].b, LinkTerminator::Point(WorldPoint { x: 3, y: 4 }));
    assert!(!bp.set_link_end(999, true, LinkTerminator::Frame(a)));
    assert!(bp.remove_link(id));
    assert!(bp.links.is_empty());
    assert!(!bp.remove_link(id));
}

#[test]
fn link_ends_are_drawn_on_frame_edges_and_slot_centres() {
    let mut bp = Blueprint::new(0, "b".to_string());
    let p = at(&mut bp, TypeKind::Process, true, 0, 0);
    let t = at(&mut bp, TypeKind::Text, true, 100, 0);
    let a = LinkTerminator::FrameParam(FrameParam { frame: p, param_index: 0 });
    let b = LinkTerminator::Frame(t);
    assert!(bp.coords_in_range());
    assert_eq!(bp.terminator_pos(a, b), Some(WorldPoint { x: -5, y: 17 }));
    assert_eq!(bp.terminator_pos(b, a), Some(WorldPoint { x: 90, y: 10 }));
    assert_eq!(bp.frames[1].box_cast(&WorldPoint { x: 0, y: 0 }), WorldPoint { x: 90, y: 0 });
    assert!(bp.frames[1].hit_test(&WorldPoint { x: 109, y: -9 }));
    assert_eq!(bp.terminator_pos(LinkTerminator::Frame(999), b), None);
}
