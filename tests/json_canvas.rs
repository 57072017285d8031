use blueprint_vm::json_canvas::JsonCanvas;
use blueprint_vm::http::port;

#[test]
fn translate() {
    assert_eq!(
        JsonCanvas::new().translate(-1, 1).serialize(),
        r#"[{"type":"translate","x":-1,"y":1}]"#
    );
}

#[test]
#[allow(non_snake_case)]
fn fillText() {
    assert_eq!(
        JsonCanvas::new().fill_text("a b c", 1, 2).serialize(),
        r#"[{"type":"fillText","text":"a b c","x":1,"y":2}]"#
    );
}

#[test]
#[allow(non_snake_case)]
fn fillText_edge_cases() {
    assert_eq!(
        JsonCanvas::new().fill_text("\\\"\"\\", 1, 2).serialize(),
        r#"[{"type":"fillText","text":"\\\"\"\\","x":1,"y":2}]"#
    );
}

#[test]
fn empty_canvas_is_empty_array() {
    assert_eq!(JsonCanvas::new().serialize(), "[]");
}

#[test]
fn commands_are_comma_separated_in_order() {
    let s = JsonCanvas::new()
        .command("save")
        .fill_rect(0, -5, 10, 20)
        .fill_style("#888")
        .command("restore")
        .serialize();
    assert_eq!(
        s,
        r##"[{"type":"save"},{"type":"fillRect","x":0,"y":-5,"w":10,"h":20},{"type":"fillStyle","val":"#888"},{"type":"restore"}]"##
    );
}

#[test]
fn large_numbers_are_written_in_full() {
    assert_eq!(
        JsonCanvas::new().move_to(i64::MIN, i64::MAX).serialize(),
        r#"[{"type":"moveTo","x":-9223372036854775808,"y":9223372036854775807}]"#
    );
}

#[test]
fn text_with_newline_is_escaped() {
    assert_eq!(
        JsonCanvas::new().fill_text("a\nb", 0, 0).serialize(),
        r#"[{"type":"fillText","text":"a\nb","x":0,"y":0}]"#
    );
}

#[test]
fn port_is_8080() {
    assert_eq!(port(), 8080);
}
