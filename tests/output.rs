use rc_gcode::colors::RgbaColor;
use rc_gcode::ild::{frames_to_ild_bytes_2d_color_index, frames_to_ild_bytes_2d_rgb};
use rc_gcode::sampler::{events_to_lines, samples_to_gcode, samples_to_lines};
use rc_gcode::bytes::{dec_to_hex, hex_string, ByteReader, ByteWriter};
use rc_gcode::handler::parse_layers;
use rc_gcode::ild::{
    image_to_ild_bytes, points_to_ild_bytes, points_to_ild_bytes_3d, points_to_ild_bytes_index,
    points_to_ild_bytes_index_3d, write_image_to_ild_bytes_2d_color_index, IldWriter, PixelRgba,
};
use rc_gcode::path::{point, split_path_contours, Path, PathBuilder, PathEvent};
use rc_gcode::writer::{events_to_gcode, events_to_svg_path, format_fixed_string, GCodeWriter, SvgPathWriter};

const MM: i64 = 1_000_000;

#[test]
fn test_byte_reader() {
    println!("{:?}", dec_to_hex(0xffeeccaa, 8));
    assert_eq!(dec_to_hex(0xffeeccaa, 8), "00000000FFEECCAA");
    assert_eq!(dec_to_hex(0xffeeccaa, 2), "CCAA");
    assert_eq!(dec_to_hex(-1, 3), "FFFFFF");
}

#[test]
fn test_image_to_ild_bytes() {
    let count = 10 as u16;
    for i in 0..count {
        println!("{}", i)
    }
}

#[test]
fn test_gcode_writer() {
    let mut writer = GCodeWriter::new(6);
    writer.write_line("G90");
    writer.write_line("G21");
    writer.move_to(-10 * MM, 0);
    writer.arc_to(0, -10 * MM, 0, 0, false);
    writer.arc_to(10 * MM, 0, 0, 0, false);
    writer.arc_to(0, 10 * MM, 0, 0, false);
    writer.arc_to(-10 * MM, 0, 0, 0, false);
    println!("{}", writer.to_string());
    assert_eq!(
        writer.to_string(),
        "G90\nG21\nG0 X-10 Y0\nG3 X0 Y-10 I10 J0\nG3 X10 Y0 I0 J10\nG3 X0 Y10 I-10 J0\nG3 X-10 Y0 I0 J-10"
    );
}

fn two_lines() -> Path {
    let mut b = PathBuilder::new();
    b.begin(point(10 * MM, 10 * MM));
    b.line_to(point(20 * MM, 20 * MM));
    b.end(false);
    b.begin(point(20 * MM, 10 * MM));
    b.line_to(point(30 * MM, 20 * MM));
    b.end(false);
    b.build()
}

#[test]
fn test_path_gcode_writer() {
    let mut b = PathBuilder::new();
    b.begin(point(10 * MM, 10 * MM));
    b.line_to(point(30 * MM, 40 * MM));
    b.end(false);
    let path = b.build();
    let gcode = events_to_gcode(&path.events, 6, "G90\nG21");
    assert_eq!(gcode, "G90\nG21\nG0 X10 Y10\nG1 X30 Y40");
}

#[test]
fn test_path_to_gcode() {
    let gcode = events_to_gcode(&two_lines().events, 6, "G90\nG21");
    assert_eq!(gcode, "G90\nG21\nG0 X10 Y10\nG1 X20 Y20\nG0 X20 Y10\nG1 X30 Y20");
}

#[test]
fn svg_path_of_two_lines() {
    let svg = events_to_svg_path(&two_lines().events, 6, "");
    assert_eq!(svg, "M10,10 L20,20 M20,10 L30,20");
}

#[test]
fn svg_writer_commands() {
    let mut w = SvgPathWriter::new(2);
    w.move_to(1_500_000, -250_000);
    w.bezier_to(MM, MM, 2 * MM, 0);
    w.bezier3_to(0, 0, MM, MM, 3 * MM, 3_333_333);
    w.arc_to(4 * MM, 4 * MM, 5 * MM, 5 * MM, true);
    w.line_to(0, 0);
    assert_eq!(w.to_string(), "M1.5,-0.25 Q1,1 2,0 C0,0 1,1 3,3.33 A5,5 1 0 4,4 L0,0");
}

#[test]
fn format_trims_and_rounds() {
    assert_eq!(format_fixed_string(10 * MM as i128, 6), "10");
    assert_eq!(format_fixed_string(10_500_000, 6), "10.5");
    assert_eq!(format_fixed_string(123_456, 6), "0.123456");
    assert_eq!(format_fixed_string(1_005_000, 2), "1.01");
    assert_eq!(format_fixed_string(1_004_999, 2), "1");
    assert_eq!(format_fixed_string(-1_250_000, 1), "-1.3");
    assert_eq!(format_fixed_string(2_500_000, 0), "3");
    assert_eq!(format_fixed_string(100 * MM as i128, 0), "100");
    assert_eq!(format_fixed_string(0, 6), "0");
    assert_eq!(format_fixed_string(7, 9), "0.000007");
}

#[test]
fn gcode_round_trip_through_builder() {
    let path = two_lines();
    let gcode = events_to_gcode(&path.events, 6, "");
    let layers = parse_layers(&gcode);
    assert_eq!(layers.len(), 1);
    assert_eq!(layers[0].path.events, path.events);
}

#[test]
fn splitter_keeps_each_contour() {
    let path = two_lines();
    let parts = split_path_contours(&path);
    assert_eq!(parts.len(), 2);
    assert_eq!(parts[0].events, path.events[0..3].to_vec());
    assert_eq!(parts[1].events, path.events[3..6].to_vec());
}

#[test]
fn splitter_drops_stray_and_unfinished() {
    let a = point(0, 0);
    let b = point(MM, 0);
    let path = Path {
        events: vec![
            PathEvent::Line { from: a, to: b },
            PathEvent::Begin { at: a },
            PathEvent::Quadratic { from: a, ctrl: b, to: a },
            PathEvent::End { last: a, first: a, close: true },
            PathEvent::End { last: a, first: a, close: true },
            PathEvent::Begin { at: b },
            PathEvent::Cubic { from: b, ctrl1: a, ctrl2: a, to: b },
        ],
    };
    let parts = split_path_contours(&path);
    assert_eq!(parts.len(), 1);
    assert_eq!(parts[0].events, path.events[1..4].to_vec());
    assert!(split_path_contours(&Path { events: vec![] }).is_empty());
}

#[test]
fn ild_header_layout() {
    let mut w = IldWriter::new();
    w.writer_header(5, 1, 0, 3);
    let b = &w.bytes;
    assert_eq!(b.len(), 32);
    assert_eq!(&b[0..4], b"ILDA");
    assert_eq!(&b[4..7], &[0, 0, 0]);
    assert_eq!(b[7], 5);
    assert_eq!(&b[8..16], b"angcyo.f");
    assert_eq!(&b[16..24], b"angcyo.c");
    assert_eq!(&b[24..26], &[0, 3]);
    assert_eq!(&b[26..28], &[0, 0]);
    assert_eq!(&b[28..30], &[0, 1]);
    assert_eq!(&b[30..32], &[0, 0]);
}

#[test]
fn ild_point_records() {
    let mut w = IldWriter::new();
    w.write_point_2d_index_rgb(&(-2, 258), 1, 2, 3);
    assert_eq!(w.bytes, vec![0xFF, 0xFE, 0x01, 0x02, 0x00, 3, 2, 1]);
    let mut w = IldWriter::new();
    w.write_point_3d_index_color(&(1, 2, -1024), 46);
    assert_eq!(w.bytes, vec![0, 1, 0, 2, 0xFC, 0x00, 0, 46]);
    let mut w = IldWriter::new();
    w.write_point_3d_index_rgb(&(0, 0, 1), 10, 20, 30);
    assert_eq!(w.bytes, vec![0, 0, 0, 0, 0, 1, 0, 30, 20, 10]);
    let mut w = IldWriter::new();
    w.write_point_2d_index_color(&(0, -1), 7);
    w.write_color(1, 2, 3);
    w.write_int16(-2);
    w.fill_byte(2);
    w.write_ascii_string("ok");
    assert_eq!(w.bytes, vec![0, 0, 0xFF, 0xFF, 0, 7, 1, 2, 3, 0xFF, 0xFE, 0, 0, b'o', b'k']);
    assert_eq!(IldWriter::get_status_code(true), 0);
    assert_eq!(IldWriter::get_status_code(false), 0x40);
}

#[test]
fn ild_frames_of_points() {
    let pts = vec![(1i16, 2i16), (3, 4)];
    let b = points_to_ild_bytes(&pts, 0xff, 0x1f, 0xff);
    assert_eq!(b.len(), 32 + 2 * 8);
    assert_eq!(b[7], 5);
    assert_eq!(&b[24..26], &[0, 2]);
    assert_eq!(&b[32..40], &[0, 1, 0, 2, 0, 0xff, 0x1f, 0xff]);
    let b = points_to_ild_bytes_3d(&pts, 1, 2, 3, -1024);
    assert_eq!(b.len(), 32 + 2 * 10);
    assert_eq!(b[7], 4);
    let b = points_to_ild_bytes_index(&pts, 46);
    assert_eq!(b.len(), 32 + 2 * 6);
    assert_eq!(b[7], 1);
    let b = points_to_ild_bytes_index_3d(&pts, 46, 0);
    assert_eq!(b.len(), 32 + 2 * 8);
    assert_eq!(b[7], 0);
    assert_eq!(&b[32..40], &[0, 1, 0, 2, 0, 0, 0, 46]);
    assert_eq!(points_to_ild_bytes_index_3d(&vec![], 46, 0).len(), 32);
}

#[test]
fn ild_frame_of_image_pixels() {
    let px = |x, y, r, g, b, a| PixelRgba { x, y, r, g, b, a };
    let pixels = vec![px(0, 0, 0, 0, 0, 255), px(1, 0, 255, 255, 255, 255), px(2, 0, 255, 255, 255, 10), px(3, 1, 200, 100, 50, 255)];
    let b = image_to_ild_bytes(&pixels, 10, -1, 100, 20);
    assert_eq!(&b[24..26], &[0, 2]);
    assert_eq!(&b[32..40], &[0, 11, 0xFF, 0xFF, 0, 255, 255, 255]);
    assert_eq!(&b[40..48], &[0, 13, 0, 0, 0, 50, 100, 200]);
    let mut w = IldWriter::new();
    write_image_to_ild_bytes_2d_color_index(&mut w, &pixels, 3, 2, 0, 0, 100, 20, 9);
    assert_eq!(&w.bytes[24..30], &[0, 2, 0, 2, 0, 3]);
    assert_eq!(&w.bytes[32..38], &[0, 1, 0, 0, 0, 9]);
}

#[test]
fn byte_writer_orders_and_limits() {
    let mut w = ByteWriter::new(usize::MAX);
    assert!(!w.write_int(0xffeeccaa, 2, false));
    w.write_int(0xffeeccaa, 4, true);
    w.write_int16(-1919, false);
    w.write_int32(-191919, true);
    w.write_int8(-1, false);
    w.write_int64(1, false);
    assert!(w.write_string("ab", true));
    assert_eq!(
        w.bytes,
        vec![0xCC, 0xAA, 0xAA, 0xCC, 0xEE, 0xFF, 0xF8, 0x81, 0x51, 0x12, 0xFD, 0xFF, 0xFF, 0, 0, 0, 0, 0, 0, 0, 1, b'a', b'b', 0]
    );
    let mut small = ByteWriter::new(2);
    assert!(small.write_bytes(&[1, 2, 3]));
    assert!(!small.write_byte(4));
    assert!(!small.write_vec(&vec![5]));
    assert!(!small.write_ascii_string("x"));
    assert_eq!(small.bytes, vec![1, 2, 3]);
    let mut edge = ByteWriter::new(2);
    edge.write_byte(1);
    assert!(edge.write_string("z", true));
    assert_eq!(edge.bytes, vec![1, b'z']);
}

#[test]
fn byte_reader_reads_back() {
    let data = vec![0xCC, 0xAA, 0xF8, 0x81, 0x4F, 0x78, 0xFD, 0xFF, b'h', b'i', 0, 7];
    let mut r = ByteReader::new(&data);
    assert_eq!(r.read_int(2, false), 0xCCAA);
    assert_eq!(r.read_int16(false), -1919);
    assert_eq!(r.read_int32(true), -165809);
    assert_eq!(r.read_utf8(), "hi");
    assert_eq!(r.next(), Some(7));
    assert_eq!(r.next(), None);
    let mut r = ByteReader::new(&data);
    assert_eq!(r.read_hex_int(2, true), "AACC");
    r.offset(1);
    assert_eq!(r.read_int8(true), -127);
    assert_eq!(r.read_int(8, true), 0x0700_6968_FFFD_784F);
    let mut r = ByteReader::new(&data);
    assert_eq!(r.read_int64(false) as u64, 0xCCAA_F881_4F78_FDFF);
    assert_eq!(hex_string(&vec![0, 0x0f, 0xa0]), "000FA0");
}

#[test]
fn writers_by_default() {
    let mut g = GCodeWriter::default();
    g.move_to(1_234_567, 0);
    g.write_lines(&["M2", "M30"]);
    assert_eq!(g.to_string(), "G0 X1.234567 Y0\nM2\nM30");
    let mut s = SvgPathWriter::default();
    s.write_lines(&["Z"]);
    assert_eq!(s.to_string(), "Z");
    assert!(IldWriter::default().bytes.is_empty());
    assert!(ByteWriter::default().bytes.is_empty());
}

#[test]
fn ild_count_field_wraps() {
    let pts = vec![(0i16, 0i16); 65537];
    let b = points_to_ild_bytes_index(&pts, 1);
    assert_eq!(&b[24..26], &[0, 1]);
    assert_eq!(b.len(), 32 + 6);
}

#[test]
fn walk_samples_group_at_contour_starts() {
    let samples: Vec<(bool, _)> = (0..6).map(|i| (i == 0, point(2 * i * MM, 0))).collect();
    let lines = samples_to_lines(&samples);
    assert_eq!(lines.len(), 1);
    assert_eq!(lines[0].len(), 6);
    assert_eq!(lines[0][5], point(10 * MM, 0));
    let two = vec![(true, point(0, 0)), (false, point(MM, 0)), (true, point(5 * MM, 0)), (false, point(6 * MM, 0))];
    let lines = samples_to_lines(&two);
    assert_eq!(lines, vec![vec![point(0, 0), point(MM, 0)], vec![point(5 * MM, 0), point(6 * MM, 0)]]);
    assert!(samples_to_lines(&vec![]).is_empty());
    assert_eq!(samples_to_lines(&vec![(false, point(1, 1))]), vec![vec![point(1, 1)]]);
    assert_eq!(samples_to_gcode(&two, 6, "G90"), "G90\nG0 X0 Y0\nG1 X1 Y0\nG0 X5 Y0\nG1 X6 Y0");
}

#[test]
fn flattened_events_give_point_lines() {
    let lines = events_to_lines(&two_lines().events);
    assert_eq!(
        lines,
        vec![vec![point(10 * MM, 10 * MM), point(20 * MM, 20 * MM)], vec![point(20 * MM, 10 * MM), point(30 * MM, 20 * MM)]]
    );
}

#[test]
fn animation_frames_carry_index_and_count() {
    let px = |x, a| PixelRgba { x, y: 0, r: 255, g: 255, b: 255, a };
    let frames = vec![vec![px(0, 255)], vec![px(1, 255), px(2, 0)], vec![]];
    let b = frames_to_ild_bytes_2d_rgb(&frames, 0, 0, 100, 20);
    assert_eq!(b.len(), 3 * 32 + 2 * 8);
    assert_eq!(&b[24..30], &[0, 1, 0, 0, 0, 3]);
    assert_eq!(&b[40 + 24..40 + 30], &[0, 1, 0, 1, 0, 3]);
    assert_eq!(&b[80 + 24..80 + 30], &[0, 0, 0, 2, 0, 3]);
    let b = frames_to_ild_bytes_2d_color_index(&frames, 0, 0, 100, 20, 9);
    assert_eq!(b.len(), 3 * 32 + 2 * 6);
    assert_eq!(b[7], 1);
}

#[test]
fn packed_colour_channels() {
    let c = u32::from_rgba(0x12, 0x34, 0x56, 0x78);
    assert_eq!(c, 0x12345678);
    assert_eq!((c.r(), c.g(), c.b(), c.a()), (0x12, 0x34, 0x56, 0x78));
}

#[test]
fn read_utf8_moves_past_terminator() {
    let data = vec![b'a', 0, b'b'];
    let mut r = ByteReader::new(&data);
    assert_eq!(r.read_utf8(), "a");
    assert_eq!(r.next(), Some(b'b'));
    assert_eq!(r.read_utf8(), "");
    assert_eq!(r.next(), None);
}

#[test]
fn gcode_round_trip_rounds_to_digits() {
    let mut b = PathBuilder::new();
    b.begin(point(1_234_567, -2_000_001));
    b.line_to(point(3_005_000, 0));
    b.end(false);
    let gcode = events_to_gcode(&b.build().events, 2, "");
    assert_eq!(gcode, "G0 X1.23 Y-2\nG1 X3.01 Y0");
    let layers = parse_layers(&gcode);
    assert_eq!(
        layers[0].path.events[1],
        PathEvent::Line { from: point(1_230_000, -2_000_000), to: point(3_010_000, 0) }
    );
}
