use rc_gcode::handler::{parse_layers, GCodeValueHandlerPath};
use rc_gcode::parser::{tokenize, GCodeParser, GCodeValue, GCodeValueHandler, GCodeValueHandlerImpl};
use rc_gcode::path::{point, PathEvent};

fn words(line: &Vec<GCodeValue>) -> Vec<(String, String)> {
    line.iter().map(|t| (t.command.clone(), t.value.clone())).collect()
}

fn pair(c: &str, v: &str) -> (String, String) {
    (c.to_string(), v.to_string())
}

const MM: i64 = 1_000_000;

#[test]
fn lib_it_works() {
    let text = "a\na\r\n你好Rust";
    println!("{}", text.len());
    println!("{}", text.chars().count());
    let mut count = 0;
    for c in text.chars() {
        println!("{}", c);
        count += 1;
    }
    println!("{}", count);
    assert_eq!(count, 11);
}

#[test]
fn lib_test() {
    println!("Hello, test!");
    assert_eq!(2 + 2, 4);
}

#[test]
fn tokenizer_splits_words_of_a_line() {
    let lines = tokenize("G1 X1.5 Y-2");
    assert_eq!(lines.len(), 1);
    assert_eq!(words(&lines[0]), vec![pair("G", "1"), pair("X", "1.5"), pair("Y", "-2")]);
}

#[test]
fn tokenizer_drops_comment_rest() {
    let lines = tokenize("G1 X1.5 ;Y-2 comment\nY3");
    assert_eq!(lines.len(), 2);
    assert_eq!(words(&lines[0]), vec![pair("G", "1"), pair("X", "1.5")]);
    assert_eq!(words(&lines[1]), vec![pair("Y", "3")]);
}

#[test]
fn tokenizer_skips_empty_lines_and_crlf() {
    let lines = tokenize("G90\r\n\r\n; only a comment\nG21\n");
    assert_eq!(lines.len(), 2);
    assert_eq!(words(&lines[0]), vec![pair("G", "90")]);
    assert_eq!(words(&lines[1]), vec![pair("G", "21")]);
}

#[test]
fn tokenizer_ignores_stray_digits_and_unknown_letters() {
    let lines = tokenize("12 G0 Q7 X+1e2");
    assert_eq!(lines.len(), 1);
    assert_eq!(words(&lines[0]), vec![pair("G", "07"), pair("X", "+1e2")]);
}

#[test]
fn tokenizer_keeps_repeated_letters_and_empty_values() {
    let lines = tokenize("G X1 X2");
    assert_eq!(words(&lines[0]), vec![pair("G", ""), pair("X", "1"), pair("X", "2")]);
}

#[test]
fn tokenizer_empty_text() {
    assert!(tokenize("").is_empty());
}

#[test]
fn value_text_reads_as_fixed_point() {
    let mut t = GCodeValue::new();
    t.command = "X".to_string();
    t.value = "1.5".to_string();
    assert_eq!(t.value_fixed(), 1_500_000);
    assert_eq!(t.to_string(), "X1.5");
    assert!(t.is_x() && t.is_xy() && !t.is_y());
    t.value = "-2".to_string();
    assert_eq!(t.value_fixed(), -2 * MM);
    t.value = ".25".to_string();
    assert_eq!(t.value_fixed(), 250_000);
    t.value = "3.1234567".to_string();
    assert_eq!(t.value_fixed(), 3_123_456);
    t.value = "1.2.3".to_string();
    assert_eq!(t.value_fixed(), 0);
    t.value = "-".to_string();
    assert_eq!(t.value_fixed(), 0);
    t.value = "".to_string();
    assert_eq!(t.value_fixed(), 0);
}

#[test]
fn parser_feeds_handler() {
    let mut parser = GCodeParser::new("G90\nG0 X1 Y1\n\nG1 X2".to_string());
    let mut h = GCodeValueHandlerImpl::new();
    let lines = parser.parse(&mut h);
    assert_eq!(lines.len(), 3);
    assert_eq!(h.line_count, 3);
}

fn events_of(text: &str) -> Vec<Vec<PathEvent>> {
    parse_layers(text).iter().map(|l| l.path.events.clone()).collect()
}

#[test]
fn builder_rebuilds_one_layer() {
    let layers = parse_layers("G90\nG21\nG0 X0 Y0\nG1 X10 Y0\nG1 X10 Y10\nZ1");
    assert_eq!(layers.len(), 1);
    assert!(!layers[0].have_z());
    assert_eq!(layers[0].z_fixed(), 0);
    let start = point(0, 0);
    let corner = point(10 * MM, 0);
    let end = point(10 * MM, 10 * MM);
    assert_eq!(
        layers[0].path.events,
        vec![
            PathEvent::Begin { at: start },
            PathEvent::Line { from: start, to: corner },
            PathEvent::Line { from: corner, to: end },
            PathEvent::End { last: end, first: start, close: false },
        ]
    );
}

#[test]
fn builder_tags_layers_with_previous_z() {
    let layers = parse_layers("Z0.2\nG0 X0 Y0\nG1 X1\nZ0.4\nG0 X0 Y0\nG1 Y1\n");
    assert_eq!(layers.len(), 2);
    assert_eq!(layers[0].z_fixed(), 200_000);
    assert_eq!(layers[1].z_fixed(), 400_000);
    assert_eq!(layers[1].path.events[1], PathEvent::Line { from: point(0, 0), to: point(0, MM) });
}

#[test]
fn builder_scales_inches() {
    let ev = events_of("G20\nG0 X0 Y0\nG1 X1");
    assert_eq!(ev[0][1], PathEvent::Line { from: point(0, 0), to: point(25_400_000, 0) });
}

#[test]
fn builder_relative_moves() {
    let ev = events_of("G0 X5 Y5\nG91\nG1 X1 Y1");
    assert_eq!(ev[0][1], PathEvent::Line { from: point(5 * MM, 5 * MM), to: point(6 * MM, 6 * MM) });
}

#[test]
fn builder_relative_inches_scale_then_offset() {
    let ev = events_of("G0 X1 Y0\nG91 G20\nG1 X1");
    assert_eq!(ev[0][1], PathEvent::Line { from: point(MM, 0), to: point(26_400_000, 0) });
}

#[test]
fn builder_missing_axis_keeps_last_position() {
    let ev = events_of("G0 X3 Y4\nG1 X7");
    assert_eq!(ev[0][1], PathEvent::Line { from: point(3 * MM, 4 * MM), to: point(7 * MM, 4 * MM) });
}

#[test]
fn builder_line_without_move_begins() {
    let ev = events_of("G1 X1 Y1\nG1 X2 Y2");
    let a = point(MM, MM);
    let b = point(2 * MM, 2 * MM);
    assert_eq!(
        ev[0],
        vec![
            PathEvent::Begin { at: a },
            PathEvent::Line { from: a, to: b },
            PathEvent::End { last: b, first: a, close: false },
        ]
    );
}

#[test]
fn builder_second_move_starts_new_contour() {
    let ev = events_of("G0 X0 Y0\nG1 X1 Y0\nG0 X5 Y5\nG1 X6 Y5");
    assert_eq!(ev.len(), 1);
    assert_eq!(ev[0].len(), 6);
    assert_eq!(ev[0][2], PathEvent::End { last: point(MM, 0), first: point(0, 0), close: false });
    assert_eq!(ev[0][3], PathEvent::Begin { at: point(5 * MM, 5 * MM) });
}

#[test]
fn builder_moves_only_give_no_layer() {
    assert!(parse_layers("G0 X1 Y1\nG0 X2 Y2\nZ3").is_empty());
    assert!(parse_layers("").is_empty());
}

#[test]
fn builder_ignores_other_words() {
    let ev = events_of("M3 S1000\nG0 X0 Y0 F300\nG1 X1 Y1 F1200\nG0 Z1");
    assert_eq!(ev.len(), 1);
    assert_eq!(ev[0][1], PathEvent::Line { from: point(0, 0), to: point(MM, MM) });
}

#[test]
fn builder_as_handler() {
    let mut parser = GCodeParser::new("G0 X0 Y0\nG1 X1 Y1".to_string());
    let mut h = GCodeValueHandlerPath::new();
    parser.parse(&mut h);
    assert_eq!(h.layers.len(), 1);
    h.start();
    h.end();
    assert_eq!(h.layers.len(), 1);
}

#[test]
fn value_text_limits() {
    let mut t = GCodeValue::new();
    t.value = "999999999999.999999".to_string();
    assert_eq!(t.value_fixed(), 999_999_999_999_999_999);
    t.value = "-1234567890123".to_string();
    assert_eq!(t.value_fixed(), 0);
    t.value = "1e3".to_string();
    assert_eq!(t.value_fixed(), 1000 * MM);
    t.value = "1.5e-1".to_string();
    assert_eq!(t.value_fixed(), 150_000);
    t.value = "-2E+2".to_string();
    assert_eq!(t.value_fixed(), -200 * MM);
    t.value = "1e-7".to_string();
    assert_eq!(t.value_fixed(), 0);
    t.value = "1e".to_string();
    assert_eq!(t.value_fixed(), 0);
    t.value = "1e123".to_string();
    assert_eq!(t.value_fixed(), 0);
    t.value = "1e12".to_string();
    assert_eq!(t.value_fixed(), 0);
    t.value = "9e11".to_string();
    assert_eq!(t.value_fixed(), 900_000_000_000 * MM);
    t.value = "1.2.3e1".to_string();
    assert_eq!(t.value_fixed(), 0);
    t.value = "+7.".to_string();
    assert_eq!(t.value_fixed(), 7 * MM);
}

#[test]
fn builder_move_with_z_on_same_line_keeps_layer_open() {
    let ev = events_of("G0 X0 Y0\nG1 X1 Y0 Z5\nG1 X2 Y0");
    assert_eq!(ev.len(), 1);
    assert_eq!(ev[0].len(), 4);
}

#[test]
fn parse_into_layer_builder() {
    let mut parser = GCodeParser::new("G90\nG21\nG0 X0 Y0\nG1 X10 Y0\nG1 X10 Y10\nZ1".to_string());
    let mut h = GCodeValueHandlerPath::default();
    parser.parse(&mut h);
    assert_eq!(h.layers.len(), 1);
    assert!(h.layers[0].z.is_none());
    assert_eq!(h.layers[0].path.events.len(), 4);
}

#[test]
fn end_resets_mode_and_unit() {
    let mut h = GCodeValueHandlerPath::default();
    h.handle_gcode_value(tokenize("G91 G20").remove(0));
    h.end();
    h.handle_gcode_value(tokenize("G0 X1 Y1").remove(0));
    h.handle_gcode_value(tokenize("G1 X2 Y1").remove(0));
    h.end();
    assert_eq!(h.layers[0].path.events[1], PathEvent::Line { from: point(MM, MM), to: point(2 * MM, MM) });
}

#[test]
fn counting_handler_restarts() {
    let mut h = GCodeValueHandlerImpl::default();
    GCodeParser::new("G0\nG1".to_string()).parse(&mut h);
    assert_eq!(h.line_count, 2);
    h.start();
    assert_eq!(h.line_count, 0);
}

fn feed(h: &mut GCodeValueHandlerPath, text: &str) {
    for line in tokenize(text) {
        h.handle_gcode_value(line);
    }
}

#[test]
fn handler_layers_through_visitor_calls() {
    let mut h = GCodeValueHandlerPath::default();
    feed(&mut h, "G90\nG21\nG0 X0 Y0\nG1 X10 Y0\nG1 X10 Y10\nZ1");
    assert_eq!(h.layers().len(), 1);
    h.end();
    assert_eq!(h.layers().len(), 1);
    assert!(h.layers()[0].z.is_none());

    let mut h2 = GCodeValueHandlerPath::default();
    feed(&mut h2, "G90\nG21\nG0 X0 Y0\nG1 X10 Y0\nG1 X10 Y10\nZ1\nG0 X0 Y0\nG1 X5 Y0");
    h2.end();
    assert_eq!(h2.layers().len(), 2);
    let z = h2.layers()[1].z.as_ref().unwrap();
    assert_eq!((z.command.as_str(), z.value.as_str()), ("Z", "1"));
}

#[test]
fn handler_inch_then_relative() {
    let mut h = GCodeValueHandlerPath::default();
    feed(&mut h, "G0 X5 Y5\nG20\nG91\nG1 X1");
    h.end();
    assert_eq!(h.layers()[0].path.events[1], PathEvent::Line { from: point(5 * MM, 5 * MM), to: point(30_400_000, 5 * MM) });
    let mut h = GCodeValueHandlerPath::default();
    feed(&mut h, "G0 X0 Y3\nG20\nG1 X1");
    h.end();
    assert_eq!(h.layers()[0].path.events[1], PathEvent::Line { from: point(0, 3 * MM), to: point(25_400_000, 3 * MM) });
}

#[test]
fn handler_implicit_move_and_first_match() {
    let mut h = GCodeValueHandlerPath::default();
    feed(&mut h, "G1 X3 Y4");
    h.end();
    assert!(h.layers().is_empty());
    let mut h = GCodeValueHandlerPath::default();
    feed(&mut h, "G0 X0 Y0\nG1 X1 Y0\nG0 X1 Y1 Z5");
    assert_eq!(h.layers().len(), 0);
    feed(&mut h, "G0 Z5");
    assert_eq!(h.layers().len(), 1);
}
