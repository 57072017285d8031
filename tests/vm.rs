use blueprint_vm::catalog::{Payload, TypeKind};
use blueprint_vm::geometry::{DragMode, WorldPoint, WorldSize};
use blueprint_vm::graph::{FrameParam, LinkTerminator};
use blueprint_vm::touch::{frame_menu, radial_bin, DisplayPoint, Handler, LinkSide, Shortcut};
use blueprint_vm::vm::{is_run_key, next_step, LoopStep, Vm};

fn w(x: i64, y: i64) -> WorldPoint {
    WorldPoint { x, y }
}

fn d(x: i32, y: i32) -> DisplayPoint {
    DisplayPoint { x, y }
}

fn set_text(vm: &mut Vm, frame: u64, text: &str) {
    let bp = &mut vm.blueprints[0];
    let (k, j) = bp.get_object(frame).unwrap();
    bp.machines[k].objects[j].data = Payload::Text(text.to_string());
}

#[test]
fn run_task_receives_linked_texts() {
    let mut vm = Vm::with_default_blueprint();
    assert_eq!(vm.blueprints[0].name, "Default");
    let bp = &mut vm.blueprints[0];
    let t1 = bp.add_frame(TypeKind::Text, true);
    bp.set_frame_box(0, w(-20, -20), WorldSize { width: 50, height: 10 });
    let t2 = bp.add_frame(TypeKind::Text, true);
    bp.set_frame_box(1, w(-20, 20), WorldSize { width: 50, height: 10 });
    let p = bp.add_frame(TypeKind::Process, true);
    bp.add_link(LinkTerminator::FrameParam(FrameParam { frame: p, param_index: 0 }), LinkTerminator::Frame(t1), 0);
    bp.add_link(LinkTerminator::FrameParam(FrameParam { frame: p, param_index: 1 }), LinkTerminator::Frame(t2), 0);
    set_text(&mut vm, t1, "/bin/ls");
    set_text(&mut vm, t2, "/home/user");
    assert!(vm.enqueue_run(p));
    assert_eq!(vm.tasks.len(), 1);
    let req = vm.pop_task().unwrap();
    assert!(vm.tasks.is_empty());
    assert_eq!(req.typ, TypeKind::Process);
    assert_eq!(req.args.len(), 4);
    assert_eq!(req.args[0].len(), 1);
    assert!(matches!(&req.args[0][0], Payload::Text(s) if s == "/bin/ls"));
    assert_eq!(req.args[1].len(), 1);
    assert!(matches!(&req.args[1][0], Payload::Text(s) if s == "/home/user"));
    let (prog, argv) = req.command_line().unwrap();
    assert_eq!(prog, "/bin/ls");
    assert_eq!(argv, vec!["/home/user".to_string()]);
    assert!(vm.pop_task().is_none());
}

#[test]
fn task_of_deleted_frame_is_dropped() {
    let mut vm = Vm::with_default_blueprint();
    let f = vm.blueprints[0].add_frame(TypeKind::Empty, true);
    assert!(vm.enqueue_run(f));
    assert!(vm.blueprints[0].delete_frame(f));
    assert!(vm.pop_task().is_none());
    assert!(vm.tasks.is_empty());
    assert!(!vm.enqueue_run(f));
}

#[test]
fn command_line_needs_a_text_command() {
    let mut vm = Vm::with_default_blueprint();
    let p = vm.blueprints[0].add_frame(TypeKind::Process, true);
    vm.enqueue_run(p);
    let req = vm.pop_task().unwrap();
    assert!(req.command_line().is_none());
}

#[test]
fn menu_button_opens_radial_menu_and_far_drag_activates_entry() {
    let mut vm = Vm::with_default_blueprint();
    vm.pointer_down(2, d(0, 0), w(5, 5));
    match &vm.handler {
        Some(Handler::Menu { menu, anchor }) => {
            assert_eq!(*anchor, d(0, 0));
            assert_eq!(menu.entries.len(), 4);
            assert_eq!(menu.entries[0].name, "Move view");
            assert_eq!(menu.entries[1].name, "New Process");
        }
        other => panic!("unexpected {:?}", other),
    }
    assert!(vm.pointer_move(d(-5, 0), w(5, 5)));
    assert!(matches!(vm.handler, Some(Handler::Menu { .. })));
    assert!(vm.pointer_move(d(-30, 0), w(5, 5)));
    match vm.handler {
        Some(Handler::DragFrame { horizontal, vertical, .. }) => {
            assert_eq!(horizontal, DragMode::Drag);
            assert_eq!(vertical, DragMode::Drag);
        }
        ref other => panic!("unexpected {:?}", other),
    }
    assert_eq!(vm.blueprints[0].frames.len(), 1);
    assert_eq!(vm.blueprints[0].frames[0].typ, TypeKind::Process);
    assert_eq!(vm.blueprints[0].frames[0].pos, w(5, 5));
    vm.pointer_up();
    assert!(vm.handler.is_none());
}

#[test]
fn radial_bins_follow_directions() {
    assert_eq!(radial_bin(10, 0), Some(0));
    assert_eq!(radial_bin(10, 10), Some(1));
    assert_eq!(radial_bin(0, 10), Some(2));
    assert_eq!(radial_bin(-10, 10), Some(3));
    assert_eq!(radial_bin(-10, 0), Some(4));
    assert_eq!(radial_bin(-10, -10), Some(5));
    assert_eq!(radial_bin(0, -10), Some(6));
    assert_eq!(radial_bin(10, -10), Some(7));
    assert_eq!(radial_bin(10, 3), Some(0));
    assert_eq!(radial_bin(10, 5), Some(1));
    assert_eq!(radial_bin(0, 0), None);
}

#[test]
fn left_button_drags_frame_under_pointer() {
    let mut vm = Vm::with_default_blueprint();
    let f = vm.blueprints[0].add_frame(TypeKind::Empty, true);
    vm.blueprints[0].set_frame_box(0, w(0, 0), WorldSize { width: 20, height: 20 });
    vm.pointer_down(0, d(0, 0), w(1, 1));
    assert!(matches!(vm.handler, Some(Handler::DragFrame { frame, .. }) if frame == f));
    assert!(vm.pointer_move(d(0, 0), w(11, 6)));
    assert_eq!(vm.blueprints[0].frames[0].pos, w(10, 5));
    vm.pointer_up();
    assert!(vm.handler.is_none());
    assert!(!vm.pointer_move(d(1, 1), w(30, 30)));
    assert_eq!(vm.blueprints[0].frames[0].pos, w(10, 5));
}

#[test]
fn left_button_on_frame_edge_stretches() {
    let mut vm = Vm::with_default_blueprint();
    vm.blueprints[0].add_frame(TypeKind::Empty, true);
    vm.blueprints[0].set_frame_box(0, w(0, 0), WorldSize { width: 20, height: 20 });
    vm.pointer_down(0, d(0, 0), w(-8, 0));
    assert!(matches!(vm.handler, Some(Handler::DragFrame { horizontal: DragMode::StretchLow, vertical: DragMode::Drag, .. })));
    vm.pointer_move(d(0, 0), w(-14, 0));
    assert_eq!(vm.blueprints[0].frames[0].pos, w(-3, 0));
    assert_eq!(vm.blueprints[0].frames[0].size, WorldSize { width: 26, height: 20 });
    // one unit at a time: the odd unit is carried, not lost
    vm.pointer_move(d(0, 0), w(-15, 0));
    assert_eq!(vm.blueprints[0].frames[0].size.width, 26);
    vm.pointer_move(d(0, 0), w(-16, 0));
    assert_eq!(vm.blueprints[0].frames[0].size.width, 28);
    assert_eq!(vm.blueprints[0].frames[0].pos.x, -4);
}

#[test]
fn connecting_a_parameter_and_dropping_on_a_frame_links_them() {
    let mut vm = Vm::with_default_blueprint();
    let p = vm.blueprints[0].add_frame(TypeKind::Process, true);
    vm.blueprints[0].set_frame_box(0, w(0, 0), WorldSize { width: 20, height: 20 });
    let t = vm.blueprints[0].add_frame(TypeKind::Text, true);
    vm.blueprints[0].set_frame_box(1, w(100, 0), WorldSize { width: 20, height: 20 });
    // first parameter hotspot: (pos.x - w/2 + r, pos.y + h/2 - r + 12)
    vm.pointer_down(0, d(0, 0), w(-5, 17));
    assert!(matches!(vm.handler, Some(Handler::DragLink { side: LinkSide::B, .. })));
    assert_eq!(vm.blueprints[0].links.len(), 1);
    vm.pointer_move(d(0, 0), w(100, 2));
    assert_eq!(vm.blueprints[0].links[0].b, LinkTerminator::Point(w(100, 2)));
    vm.pointer_up();
    assert_eq!(vm.blueprints[0].links.len(), 1);
    assert_eq!(vm.blueprints[0].links[0].a, LinkTerminator::FrameParam(FrameParam { frame: p, param_index: 0 }));
    assert_eq!(vm.blueprints[0].links[0].b, LinkTerminator::Frame(t));
}

#[test]
fn dropping_a_link_on_empty_canvas_removes_it() {
    let mut vm = Vm::with_default_blueprint();
    vm.blueprints[0].add_frame(TypeKind::Process, true);
    vm.blueprints[0].set_frame_box(0, w(0, 0), WorldSize { width: 20, height: 20 });
    vm.pointer_down(0, d(0, 0), w(-5, 17));
    vm.pointer_move(d(0, 0), w(500, 500));
    vm.pointer_up();
    assert!(vm.blueprints[0].links.is_empty());
}

#[test]
fn middle_button_pans_the_view() {
    let mut vm = Vm::with_default_blueprint();
    vm.pointer_down(1, d(0, 0), w(0, 0));
    assert!(matches!(vm.handler, Some(Handler::MovePoint { stick: true, .. })));
    vm.pointer_move(d(0, 0), w(4, -3));
    assert_eq!(vm.center, w(4, -3));
    vm.pointer_move(d(0, 0), w(5, -3));
    assert_eq!(vm.center, w(9, -6));
    vm.pointer_up();
    vm.pointer_down(3, d(0, 0), w(0, 0));
    assert!(vm.handler.is_none());
}

#[test]
fn keys_edit_text_run_and_manage_machines() {
    let mut vm = Vm::with_default_blueprint();
    let t = vm.blueprints[0].add_frame(TypeKind::Text, true);
    vm.blueprints[0].set_frame_box(0, w(0, 0), WorldSize { width: 20, height: 20 });
    vm.pointer_move(d(0, 0), w(1, 1));
    assert!(!vm.key_down("KeyA", "a"));
    assert!(!vm.key_down("KeyB", "b"));
    assert!(!vm.key_down("Backspace", "Backspace"));
    let (k, j) = vm.blueprints[0].get_object(t).unwrap();
    assert!(matches!(&vm.blueprints[0].machines[k].objects[j].data, Payload::Text(s) if s == "a"));
    assert!(!vm.key_down("Space", " "));
    assert_eq!(vm.tasks.len(), 1);
    assert!(!vm.key_down("Insert", "Insert"));
    assert_eq!(vm.blueprints[0].machines.len(), 2);
    assert!(!vm.key_down("PageDown", "PageDown"));
    assert_eq!(vm.blueprints[0].active_machine, vm.blueprints[0].machines[1].id);
    assert!(vm.key_down("Print", "Print"));
    assert!(is_run_key("Enter") && is_run_key("Space"));
    assert!(!is_run_key("KeyA") && !is_run_key("Delete"));
}

#[test]
fn updates_of_a_deleted_object_are_dropped() {
    let mut vm = Vm::with_default_blueprint();
    let p = vm.blueprints[0].add_frame(TypeKind::Process, true);
    vm.enqueue_run(p);
    let req = vm.pop_task().unwrap();
    let run = vm.start_run(req.task).unwrap();
    let second = vm.start_run(req.task).unwrap();
    assert_ne!(run, second);
    assert_eq!(vm.update_target(run), Some((0, 0, 0)));
    assert!(vm.update_target(999).is_none());
    assert!(vm.finish_run(run));
    assert!(vm.update_target(run).is_none());
    assert!(!vm.finish_run(run));
    assert!(vm.blueprints[0].delete_frame(p));
    assert!(vm.update_target(second).is_none());
}

#[test]
fn loop_takes_input_before_tasks() {
    assert_eq!(next_step(true, true), LoopStep::ProcessInput);
    assert_eq!(next_step(false, true), LoopStep::RunTask);
    assert_eq!(next_step(false, false), LoopStep::Wait);
}

#[test]
fn delete_key_removes_active_local_machine_and_frame_under_pointer() {
    let mut vm = Vm::with_default_blueprint();
    let f = vm.blueprints[0].add_frame(TypeKind::Empty, true);
    vm.blueprints[0].set_frame_box(0, w(0, 0), WorldSize { width: 20, height: 20 });
    vm.key_down("Insert", "Insert");
    vm.key_down("PageUp", "PageUp");
    assert_eq!(vm.blueprints[0].active_machine, vm.blueprints[0].machines[1].id);
    vm.pointer_move(d(0, 0), w(1, 1));
    vm.key_down("Delete", "Delete");
    assert_eq!(vm.blueprints[0].machines.len(), 1);
    assert_eq!(vm.blueprints[0].active_machine, vm.blueprints[0].machines[0].id);
    assert!(vm.blueprints[0].frame_index(f).is_none());
    vm.key_down("Delete", "Delete");
    assert_eq!(vm.blueprints[0].machines.len(), 1);
}

#[test]
fn frame_menu_offers_move_run_and_delete_with_shortcuts() {
    let mut vm = Vm::with_default_blueprint();
    vm.blueprints[0].add_frame(TypeKind::Empty, true);
    vm.blueprints[0].set_frame_box(0, w(0, 0), WorldSize { width: 20, height: 20 });
    let m = frame_menu(&vm.blueprints[0].frames[0], &w(1, 1)).unwrap();
    assert_eq!(m.entries.len(), 3);
    assert_eq!(m.entries[0].name, "Move");
    assert_eq!(m.entries[0].shortcuts, vec![Shortcut::Lmb]);
    assert_eq!(m.entries[1].shortcuts, vec![Shortcut::Space]);
    assert_eq!(m.entries[2].name, "Delete");
    assert_eq!(m.entries[2].shortcuts, vec![Shortcut::Delete]);
    let m = frame_menu(&vm.blueprints[0].frames[0], &w(8, 1)).unwrap();
    assert_eq!(m.entries[0].name, "Resize");
}

#[test]
fn releasing_inside_the_radial_menu_keeps_it_open() {
    let mut vm = Vm::with_default_blueprint();
    vm.pointer_down(2, d(0, 0), w(0, 0));
    vm.pointer_move(d(5, 5), w(0, 0));
    vm.pointer_up();
    assert!(matches!(vm.handler, Some(Handler::Menu { .. })));
    vm.pointer_move(d(-30, 0), w(2, 2));
    assert!(matches!(vm.handler, Some(Handler::DragFrame { .. })));
    vm.pointer_up();
    assert!(vm.handler.is_none());
    assert_eq!(vm.blueprints[0].frames.len(), 1);
}

#[test]
fn space_runs_the_frame_under_the_pointer_even_over_a_hotspot() {
    let mut vm = Vm::with_default_blueprint();
    vm.blueprints[0].add_frame(TypeKind::Process, true);
    vm.blueprints[0].set_frame_box(0, w(0, 0), WorldSize { width: 20, height: 20 });
    let t = vm.blueprints[0].add_frame(TypeKind::Text, true);
    vm.blueprints[0].set_frame_box(1, w(-5, 20), WorldSize { width: 20, height: 20 });
    vm.pointer_move(d(0, 0), w(-5, 17));
    assert!(!vm.key_down("Enter", "Enter"));
    assert_eq!(vm.tasks.len(), 1);
    assert_eq!(vm.tasks[0].frame, t);
}

#[test]
fn global_sources_feed_a_local_run() {
    let mut vm = Vm::with_default_blueprint();
    let m1 = vm.blueprints[0].add_machine();
    let t = vm.blueprints[0].add_frame(TypeKind::Text, true);
    let p = vm.blueprints[0].add_frame(TypeKind::Process, false);
    vm.blueprints[0].add_link(LinkTerminator::FrameParam(FrameParam { frame: p, param_index: 0 }), LinkTerminator::Frame(t), 0);
    set_text(&mut vm, t, "/bin/true");
    assert!(vm.blueprints[0].activate(m1));
    assert!(vm.enqueue_run(p));
    assert_eq!(vm.tasks[0].machine, m1);
    let req = vm.pop_task().unwrap();
    assert_eq!(req.args[0].len(), 1);
    assert!(matches!(&req.args[0][0], Payload::Text(s) if s == "/bin/true"));
}

#[test]
fn pointer_down_is_ignored_while_a_handler_runs() {
    let mut vm = Vm::with_default_blueprint();
    vm.pointer_down(1, d(0, 0), w(0, 0));
    vm.pointer_down(2, d(3, 3), w(3, 3));
    assert!(matches!(vm.handler, Some(Handler::MovePoint { .. })));
    assert_eq!(vm.mouse_world, w(3, 3));
}
