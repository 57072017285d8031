use blueprint_vm::catalog::{GraphConsistencyError, Payload, TypeKind};
use blueprint_vm::geometry::{WorldPoint, WorldSize};
use blueprint_vm::graph::{FrameParam, LinkTerminator};
use blueprint_vm::persist::{load, save, FrameDoc, TerminatorDoc};
use blueprint_vm::vm::Vm;

fn sample() -> Vm {
    let mut vm = Vm::with_default_blueprint();
    let second = vm.add_blueprint("Second".to_string());
    {
        let bp = &mut vm.blueprints[0];
        let a = bp.add_frame(TypeKind::Text, false);
        bp.set_frame_box(0, WorldPoint { x: -20, y: -20 }, WorldSize { width: 50, height: 10 });
        let p = bp.add_frame(TypeKind::Process, true);
        bp.add_link(LinkTerminator::Frame(a), LinkTerminator::FrameParam(FrameParam { frame: p, param_index: 2 }), 5);
        bp.add_link(LinkTerminator::Point(WorldPoint { x: 7, y: 8 }), LinkTerminator::Frame(p), -1);
        bp.add_machine();
        let (k, j) = bp.get_object(a).unwrap();
        bp.machines[k].objects[j].data = Payload::Text("say \"hi\"".to_string());
    }
    let a = vm.blueprints[0].frames[0].id;
    assert!(vm.enqueue_run(a));
    vm.blueprints[1].add_frame(TypeKind::Empty, true);
    assert!(vm.activate(second));
    vm
}

#[test]
fn save_and_load_keep_the_graph() {
    let vm = sample();
    let doc = save(&vm).unwrap();
    assert_eq!(doc.blueprints.len(), 2);
    assert_eq!(doc.active_blueprint, 1);
    assert_eq!(doc.tasks.len(), 1);
    assert_eq!((doc.tasks[0].blueprint, doc.tasks[0].frame, doc.tasks[0].machine), (0, 0, 0));
    assert_eq!(doc.blueprints[0].links[0].a, TerminatorDoc::Frame(0));
    assert_eq!(doc.blueprints[0].links[0].b, TerminatorDoc::FrameParam { frame: 1, param_index: 2 });
    let back = load(&doc).unwrap();
    assert_eq!(back.blueprints.len(), 2);
    assert_eq!(back.blueprints[0].next_id as usize, 2 + 2 + 2);
    let b0 = &back.blueprints[0];
    assert_eq!(b0.name, "Default");
    assert_eq!(b0.frames.len(), 2);
    assert_eq!(b0.links.len(), 2);
    assert_eq!(b0.machines.len(), 2);
    assert_eq!(b0.frames[0].pos, WorldPoint { x: -20, y: -20 });
    assert_eq!(b0.links[0].a, LinkTerminator::Frame(b0.frames[0].id));
    assert_eq!(b0.links[0].b, LinkTerminator::FrameParam(FrameParam { frame: b0.frames[1].id, param_index: 2 }));
    assert_eq!(b0.links[1].a, LinkTerminator::Point(WorldPoint { x: 7, y: 8 }));
    assert_eq!(b0.links[1].order, -1);
    assert_eq!(back.active_blueprint, back.blueprints[1].id);
    assert_eq!(back.tasks.len(), 1);
    assert_eq!(back.tasks[0].frame, b0.frames[0].id);
    assert_eq!(back.tasks[0].machine, b0.machines[0].id);
    let (k, j) = b0.get_object(b0.frames[0].id).unwrap();
    assert!(matches!(&b0.machines[k].objects[j].data, Payload::Text(s) if s == "say \"hi\""));
    let again = save(&back).unwrap();
    assert_eq!(again.tasks, doc.tasks);
    assert_eq!(again.blueprints[0].links, doc.blueprints[0].links);
    assert_eq!(again.blueprints[0].machines.len(), doc.blueprints[0].machines.len());
    assert_eq!(again.blueprints[1].frames.len(), 1);
}

#[test]
fn unknown_type_is_refused() {
    let mut doc = save(&sample()).unwrap();
    doc.blueprints[0].frames.push(FrameDoc {
        typ: "Widget".to_string(),
        pos: WorldPoint { x: 0, y: 0 },
        size: WorldSize { width: 10, height: 10 },
        global: true,
    });
    assert!(matches!(load(&doc), Err(GraphConsistencyError::UnknownType)));
}

#[test]
fn index_out_of_range_is_refused() {
    let mut doc = save(&sample()).unwrap();
    doc.blueprints[0].links[0].a = TerminatorDoc::Frame(9);
    assert!(matches!(load(&doc), Err(GraphConsistencyError::BadIndex)));
    let mut doc = save(&sample()).unwrap();
    doc.blueprints[0].links[0].b = TerminatorDoc::FrameParam { frame: 1, param_index: 4 };
    assert!(matches!(load(&doc), Err(GraphConsistencyError::BadIndex)));
    let mut doc = save(&sample()).unwrap();
    doc.blueprints[0].links[0].b = TerminatorDoc::FrameParam { frame: 0, param_index: 0 };
    assert!(matches!(load(&doc), Err(GraphConsistencyError::BadIndex)));
    let mut doc = save(&sample()).unwrap();
    doc.active_blueprint = 2;
    assert!(matches!(load(&doc), Err(GraphConsistencyError::BadIndex)));
    let mut doc = save(&sample()).unwrap();
    doc.blueprints[0].machines[0][0].frame = 5;
    assert!(matches!(load(&doc), Err(GraphConsistencyError::BadIndex)));
}

#[test]
fn small_frame_and_bad_payload_are_refused() {
    let mut doc = save(&sample()).unwrap();
    doc.blueprints[0].frames[0].size = WorldSize { width: 9, height: 10 };
    assert!(matches!(load(&doc), Err(GraphConsistencyError::BadSize)));
    let mut doc = save(&sample()).unwrap();
    doc.blueprints[0].machines[0][0].data = vec![0xc3];
    assert!(matches!(load(&doc), Err(GraphConsistencyError::BadPayload)));
}

#[test]
fn task_without_object_is_refused() {
    let mut doc = save(&sample()).unwrap();
    doc.tasks[0].machine = 1;
    doc.tasks[0].frame = 1;
    assert!(matches!(load(&doc), Err(GraphConsistencyError::MissingEntity)));
}

#[test]
fn save_needs_an_active_blueprint() {
    let mut vm = sample();
    vm.active_blueprint = 999;
    assert!(matches!(save(&vm), Err(GraphConsistencyError::MissingEntity)));
}
