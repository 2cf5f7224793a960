//! The ILDA laser-frame writer: 32-byte section headers followed by point
//! records with big-endian 16-bit coordinates, a status byte, and an
//! indexed or true colour.

use vstd::prelude::*;
use vstd::string::StringSliceAdditionalSpecFns;
use crate::bytes::{append_bytes, be_bytes, int_bytes_of, le_bytes};

verus! {

/// Format code: 3D coordinates with indexed colour.
pub const FORMAT_3D_INDEXED: u8 = 0;
/// Format code: 2D coordinates with indexed colour.
pub const FORMAT_2D_INDEXED: u8 = 1;
/// Format code: 3D coordinates with true colour.
pub const FORMAT_3D_TRUE_COLOR: u8 = 4;
/// Format code: 2D coordinates with true colour.
pub const FORMAT_2D_TRUE_COLOR: u8 = 5;

/// The status byte of a point: bit 6 set means the laser is off.
pub open spec fn status_code(on: bool) -> u8 {
    if on {
        0
    } else {
        0x40
    }
}

/// A big-endian 16-bit field.
pub open spec fn be16(v: u16) -> Seq<u8> {
    be_bytes(v as nat, 2)
}

/// A signed coordinate in two's complement, big-endian.
pub open spec fn coord(v: i16) -> Seq<u8> {
    be16(v as u16)
}

/// The section magic, "ILDA" in ASCII.
pub open spec fn magic() -> Seq<u8> {
    seq![0x49u8, 0x4C, 0x44, 0x41]
}

/// The frame name field, "angcyo.f" in ASCII.
pub open spec fn frame_name() -> Seq<u8> {
    seq![0x61u8, 0x6E, 0x67, 0x63, 0x79, 0x6F, 0x2E, 0x66]
}

/// The company name field, "angcyo.c" in ASCII.
pub open spec fn company_name() -> Seq<u8> {
    seq![0x61u8, 0x6E, 0x67, 0x63, 0x79, 0x6F, 0x2E, 0x63]
}

/// The 32-byte section header: magic, three reserved bytes, the format
/// code, frame and company names, point count, frame index and frame count
/// (big-endian), projector number and a reserved byte.
pub open spec fn ild_header(fmt: u8, frame_count: u16, frame_index: u16, data_count: u16) -> Seq<
    u8,
> {
    magic() + seq![0u8, 0, 0, fmt] + frame_name() + company_name() + be16(data_count) + be16(
        frame_index,
    ) + be16(frame_count) + seq![0u8, 0]
}

pub open spec fn bgr(r: u8, g: u8, b: u8) -> Seq<u8> {
    seq![b, g, r]
}

pub open spec fn point_3d_index(p: (i16, i16, i16), color_index: u8) -> Seq<u8> {
    coord(p.0) + coord(p.1) + coord(p.2) + seq![status_code(true), color_index]
}

pub open spec fn point_2d_index(p: (i16, i16), color_index: u8) -> Seq<u8> {
    coord(p.0) + coord(p.1) + seq![status_code(true), color_index]
}

pub open spec fn point_3d_rgb(p: (i16, i16, i16), r: u8, g: u8, b: u8) -> Seq<u8> {
    coord(p.0) + coord(p.1) + coord(p.2) + seq![status_code(true)] + bgr(r, g, b)
}

pub open spec fn point_2d_rgb(p: (i16, i16), r: u8, g: u8, b: u8) -> Seq<u8> {
    coord(p.0) + coord(p.1) + seq![status_code(true)] + bgr(r, g, b)
}

proof fn lemma_be16_len(v: u16)
    ensures
        be16(v).len() == 2,
{
    reveal_with_fuel(le_bytes, 3);
}

/// Accumulates the bytes of an ILDA file.
pub struct IldWriter {
    pub bytes: Vec<u8>,
}

impl IldWriter {
    pub fn new() -> (r: Self)
        ensures
            r.bytes@ == Seq::<u8>::empty(),
    {
        IldWriter { bytes: Vec::new() }
    }

    /// The status byte of a point that is drawn (`on`) or blanked.
    pub fn get_status_code(on: bool) -> (r: u8)
        ensures
            r == status_code(on),
    {
        if on {
            0
        } else {
            0x40
        }
    }

    pub fn write_vec(&mut self, bytes: &Vec<u8>)
        ensures
            final(self).bytes@ == old(self).bytes@ + bytes@,
    {
        append_bytes(&mut self.bytes, bytes.as_slice());
    }

    /// Writes the UTF-8 bytes of `string`.
    pub fn write_ascii_string(&mut self, string: &str)
        ensures
            final(self).bytes@ == old(self).bytes@ + string.spec_bytes(),
    {
        append_bytes(&mut self.bytes, string.as_bytes());
    }

    pub fn write_bytes(&mut self, bytes: &[u8])
        ensures
            final(self).bytes@ == old(self).bytes@ + bytes@,
    {
        append_bytes(&mut self.bytes, bytes);
    }

    /// Writes `count` zero bytes.
    pub fn fill_byte(&mut self, count: usize)
        ensures
            final(self).bytes@ == old(self).bytes@ + Seq::new(count as nat, |i: int| 0u8),
    {
        let mut i: usize = 0;
        while i < count
            invariant
                i <= count,
                self.bytes@ == old(self).bytes@ + Seq::new(i as nat, |k: int| 0u8),
            decreases count - i,
        {
            self.bytes.push(0);
            i += 1;
            assert(self.bytes@ =~= old(self).bytes@ + Seq::new(i as nat, |k: int| 0u8));
        }
    }

    pub fn write_byte(&mut self, byte: u8)
        ensures
            final(self).bytes@ == old(self).bytes@.push(byte),
    {
        self.bytes.push(byte);
    }

    fn write_u16(&mut self, value: u16)
        ensures
            final(self).bytes@ == old(self).bytes@ + be16(value),
    {
        let b = int_bytes_of(value as u64, 2, false);
        self.write_vec(&b);
    }

    /// Writes a signed 16-bit value, big-endian.
    pub fn write_int16(&mut self, value: i16)
        ensures
            final(self).bytes@ == old(self).bytes@ + coord(value),
    {
        self.write_u16(value as u16);
    }

    /// Writes a section header.
    pub fn writer_header(&mut self, fmt: u8, frame_count: u16, frame_index: u16, data_count: u16)
        ensures
            final(self).bytes@ == old(self).bytes@ + ild_header(
                fmt,
                frame_count,
                frame_index,
                data_count,
            ),
            final(self).bytes@.len() == old(self).bytes@.len() + 32,
    {
        let ghost b0 = self.bytes@;
        self.write_vec(&vec![0x49u8, 0x4C, 0x44, 0x41]);
        self.fill_byte(3);
        self.write_byte(fmt);
        self.write_vec(&vec![0x61u8, 0x6E, 0x67, 0x63, 0x79, 0x6F, 0x2E, 0x66]);
        self.write_vec(&vec![0x61u8, 0x6E, 0x67, 0x63, 0x79, 0x6F, 0x2E, 0x63]);
        self.write_u16(data_count);
        self.write_u16(frame_index);
        self.write_u16(frame_count);
        self.write_byte(0);
        self.write_byte(0);
        proof {
            assert(Seq::new(3, |i: int| 0u8) =~= seq![0u8, 0, 0]);
            assert(self.bytes@ =~= b0 + ild_header(fmt, frame_count, frame_index, data_count));
            lemma_be16_len(data_count);
            lemma_be16_len(frame_index);
            lemma_be16_len(frame_count);
        }
    }

    /// Writes a 3D point with an indexed colour.
    pub fn write_point_3d_index_color(&mut self, point: &(i16, i16, i16), color_index: u8)
        ensures
            final(self).bytes@ == old(self).bytes@ + point_3d_index(*point, color_index),
    {
        let ghost b0 = self.bytes@;
        self.write_int16(point.0);
        self.write_int16(point.1);
        self.write_int16(point.2);
        self.write_byte(Self::get_status_code(true));
        self.write_byte(color_index);
        assert(self.bytes@ =~= b0 + point_3d_index(*point, color_index));
    }

    /// Writes a 2D point with an indexed colour.
    pub fn write_point_2d_index_color(&mut self, point: &(i16, i16), color_index: u8)
        ensures
            final(self).bytes@ == old(self).bytes@ + point_2d_index(*point, color_index),
    {
        let ghost b0 = self.bytes@;
        self.write_int16(point.0);
        self.write_int16(point.1);
        self.write_byte(Self::get_status_code(true));
        self.write_byte(color_index);
        assert(self.bytes@ =~= b0 + point_2d_index(*point, color_index));
    }

    /// Writes a colour as red, green, blue.
    pub fn write_color(&mut self, r: u8, g: u8, b: u8)
        ensures
            final(self).bytes@ == old(self).bytes@ + seq![r, g, b],
    {
        let ghost b0 = self.bytes@;
        self.write_byte(r);
        self.write_byte(g);
        self.write_byte(b);
        assert(self.bytes@ =~= b0 + seq![r, g, b]);
    }

    /// Writes a colour as blue, green, red, the order of ILDA true-colour points.
    pub fn write_bgr(&mut self, r: u8, g: u8, b: u8)
        ensures
            final(self).bytes@ == old(self).bytes@ + bgr(r, g, b),
    {
        let ghost b0 = self.bytes@;
        self.write_byte(b);
        self.write_byte(g);
        self.write_byte(r);
        assert(self.bytes@ =~= b0 + bgr(r, g, b));
    }

    /// Writes a 3D point with a true colour.
    pub fn write_point_3d_index_rgb(&mut self, point: &(i16, i16, i16), r: u8, g: u8, b: u8)
        ensures
            final(self).bytes@ == old(self).bytes@ + point_3d_rgb(*point, r, g, b),
    {
        let ghost b0 = self.bytes@;
        self.write_int16(point.0);
        self.write_int16(point.1);
        self.write_int16(point.2);
        self.write_byte(Self::get_status_code(true));
        self.write_bgr(r, g, b);
        assert(self.bytes@ =~= b0 + point_3d_rgb(*point, r, g, b));
    }

    /// Writes a 2D point with a true colour.
    pub fn write_point_2d_index_rgb(&mut self, point: &(i16, i16), r: u8, g: u8, b: u8)
        ensures
            final(self).bytes@ == old(self).bytes@ + point_2d_rgb(*point, r, g, b),
    {
        let ghost b0 = self.bytes@;
        self.write_int16(point.0);
        self.write_int16(point.1);
        self.write_byte(Self::get_status_code(true));
        self.write_bgr(r, g, b);
        assert(self.bytes@ =~= b0 + point_2d_rgb(*point, r, g, b));
    }
}

impl Default for IldWriter {
    fn default() -> (r: Self)
        ensures
            r.bytes@ == Seq::<u8>::empty(),
    {
        IldWriter::new()
    }
}

/// The records of 2D true-colour points, one after another.
pub open spec fn records_2d_rgb(ps: Seq<(i16, i16)>, r: u8, g: u8, b: u8) -> Seq<u8>
    decreases ps.len(),
{
    if ps.len() == 0 {
        Seq::empty()
    } else {
        records_2d_rgb(ps.drop_last(), r, g, b) + point_2d_rgb(ps.last(), r, g, b)
    }
}

pub open spec fn records_3d_rgb(ps: Seq<(i16, i16)>, r: u8, g: u8, b: u8, z: i16) -> Seq<u8>
    decreases ps.len(),
{
    if ps.len() == 0 {
        Seq::empty()
    } else {
        records_3d_rgb(ps.drop_last(), r, g, b, z) + point_3d_rgb(
            (ps.last().0, ps.last().1, z),
            r,
            g,
            b,
        )
    }
}

pub open spec fn records_2d_index(ps: Seq<(i16, i16)>, color_index: u8) -> Seq<u8>
    decreases ps.len(),
{
    if ps.len() == 0 {
        Seq::empty()
    } else {
        records_2d_index(ps.drop_last(), color_index) + point_2d_index(ps.last(), color_index)
    }
}

pub open spec fn records_3d_index(ps: Seq<(i16, i16)>, color_index: u8, z: i16) -> Seq<u8>
    decreases ps.len(),
{
    if ps.len() == 0 {
        Seq::empty()
    } else {
        records_3d_index(ps.drop_last(), color_index, z) + point_3d_index(
            (ps.last().0, ps.last().1, z),
            color_index,
        )
    }
}

/// The points that fit the 16-bit count field: the count wraps, and only
/// that many points are written.
pub open spec fn counted<T>(ps: Seq<T>) -> Seq<T> {
    ps.take((ps.len() as u16) as int)
}

/// One frame of 2D true-colour points: a format 5 header and the points.
pub fn points_to_ild_bytes(points: &Vec<(i16, i16)>, r: u8, g: u8, b: u8) -> (out: Vec<u8>)
    ensures
        out@ == ild_header(FORMAT_2D_TRUE_COLOR, 1, 0, points.len() as u16) + records_2d_rgb(
            counted(points@),
            r,
            g,
            b,
        ),
{
    let mut w = IldWriter::new();
    let count = points.len() as u16;
    w.writer_header(FORMAT_2D_TRUE_COLOR, 1, 0, count);
    let ghost h = w.bytes@;
    let mut i: usize = 0;
    while i < count as usize
        invariant
            i <= count as usize <= points.len(),
            w.bytes@ == h + records_2d_rgb(points@.take(i as int), r, g, b),
        decreases count as usize - i,
    {
        assert(points@.take(i as int + 1).drop_last() =~= points@.take(i as int));
        w.write_point_2d_index_rgb(&points[i], r, g, b);
        i += 1;
    }
    w.bytes
}

/// One frame of 3D true-colour points at height `z`: a format 4 header and
/// the points.
pub fn points_to_ild_bytes_3d(points: &Vec<(i16, i16)>, r: u8, g: u8, b: u8, z: i16) -> (out: Vec<
    u8,
>)
    ensures
        out@ == ild_header(FORMAT_3D_TRUE_COLOR, 1, 0, points.len() as u16) + records_3d_rgb(
            counted(points@),
            r,
            g,
            b,
            z,
        ),
{
    let mut w = IldWriter::new();
    let count = points.len() as u16;
    w.writer_header(FORMAT_3D_TRUE_COLOR, 1, 0, count);
    let ghost h = w.bytes@;
    let mut i: usize = 0;
    while i < count as usize
        invariant
            i <= count as usize <= points.len(),
            w.bytes@ == h + records_3d_rgb(points@.take(i as int), r, g, b, z),
        decreases count as usize - i,
    {
        assert(points@.take(i as int + 1).drop_last() =~= points@.take(i as int));
        let p = points[i];
        w.write_point_3d_index_rgb(&(p.0, p.1, z), r, g, b);
        i += 1;
    }
    w.bytes
}

/// One frame of 2D indexed-colour points: a format 1 header and the points.
pub fn points_to_ild_bytes_index(points: &Vec<(i16, i16)>, color_index: u8) -> (out: Vec<u8>)
    ensures
        out@ == ild_header(FORMAT_2D_INDEXED, 1, 0, points.len() as u16) + records_2d_index(
            counted(points@),
            color_index,
        ),
{
    let mut w = IldWriter::new();
    let count = points.len() as u16;
    w.writer_header(FORMAT_2D_INDEXED, 1, 0, count);
    let ghost h = w.bytes@;
    let mut i: usize = 0;
    while i < count as usize
        invariant
            i <= count as usize <= points.len(),
            w.bytes@ == h + records_2d_index(points@.take(i as int), color_index),
        decreases count as usize - i,
    {
        assert(points@.take(i as int + 1).drop_last() =~= points@.take(i as int));
        w.write_point_2d_index_color(&points[i], color_index);
        i += 1;
    }
    w.bytes
}

/// One frame of 3D indexed-colour points at height `z`: a format 0 header
/// and the points.
pub fn points_to_ild_bytes_index_3d(points: &Vec<(i16, i16)>, color_index: u8, z: i16) -> (out:
    Vec<u8>)
    ensures
        out@ == ild_header(FORMAT_3D_INDEXED, 1, 0, points.len() as u16) + records_3d_index(
            counted(points@),
            color_index,
            z,
        ),
{
    let mut w = IldWriter::new();
    let count = points.len() as u16;
    w.writer_header(FORMAT_3D_INDEXED, 1, 0, count);
    let ghost h = w.bytes@;
    let mut i: usize = 0;
    while i < count as usize
        invariant
            i <= count as usize <= points.len(),
            w.bytes@ == h + records_3d_index(points@.take(i as int), color_index, z),
        decreases count as usize - i,
    {
        assert(points@.take(i as int + 1).drop_last() =~= points@.take(i as int));
        let p = points[i];
        w.write_point_3d_index_color(&(p.0, p.1, z), color_index);
        i += 1;
    }
    w.bytes
}

/// One pixel of a raster frame: its position and its RGBA colour.
#[derive(Clone, Copy, Debug, PartialEq, Eq, Structural)]
pub struct PixelRgba {
    pub x: u32,
    pub y: u32,
    pub r: u8,
    pub g: u8,
    pub b: u8,
    pub a: u8,
}

/// The grey level of a colour, 0.299 R + 0.587 G + 0.114 B, rounded down.
pub open spec fn gray_of(p: PixelRgba) -> int {
    (299 * p.r + 587 * p.g + 114 * p.b) / 1000
}

/// A pixel gives a point when it is brighter than the grey threshold and
/// more opaque than the alpha threshold.
pub open spec fn is_lit(p: PixelRgba, gray_threshold: u8, alpha_threshold: u8) -> bool {
    !(gray_of(p) <= gray_threshold || p.a <= alpha_threshold)
}

/// The pixels that give points, in order.
pub open spec fn lit_pixels(ps: Seq<PixelRgba>, gray_threshold: u8, alpha_threshold: u8) -> Seq<
    PixelRgba,
>
    decreases ps.len(),
{
    if ps.len() == 0 {
        Seq::empty()
    } else {
        let init = lit_pixels(ps.drop_last(), gray_threshold, alpha_threshold);
        if is_lit(ps.last(), gray_threshold, alpha_threshold) {
            init.push(ps.last())
        } else {
            init
        }
    }
}

/// A pixel position as a point: the coordinates are taken as 16-bit values
/// and shifted by the offsets, wrapping.
pub open spec fn pixel_point(p: PixelRgba, offset_x: i16, offset_y: i16) -> (i16, i16) {
    (((p.x as i16) + offset_x) as i16, ((p.y as i16) + offset_y) as i16)
}

pub open spec fn pixel_records_rgb(ps: Seq<PixelRgba>, offset_x: i16, offset_y: i16) -> Seq<u8>
    decreases ps.len(),
{
    if ps.len() == 0 {
        Seq::empty()
    } else {
        let p = ps.last();
        pixel_records_rgb(ps.drop_last(), offset_x, offset_y) + point_2d_rgb(
            pixel_point(p, offset_x, offset_y),
            p.r,
            p.g,
            p.b,
        )
    }
}

pub open spec fn pixel_records_index(
    ps: Seq<PixelRgba>,
    offset_x: i16,
    offset_y: i16,
    color_index: u8,
) -> Seq<u8>
    decreases ps.len(),
{
    if ps.len() == 0 {
        Seq::empty()
    } else {
        pixel_records_index(ps.drop_last(), offset_x, offset_y, color_index) + point_2d_index(
            pixel_point(ps.last(), offset_x, offset_y),
            color_index,
        )
    }
}

/// One true-colour raster frame: a format 5 header and a point for each
/// lit pixel, in its own colour.
pub open spec fn image_frame_rgb(
    pixels: Seq<PixelRgba>,
    frame_count: u16,
    frame_index: u16,
    offset_x: i16,
    offset_y: i16,
    gray_threshold: u8,
    alpha_threshold: u8,
) -> Seq<u8> {
    let lit = lit_pixels(pixels, gray_threshold, alpha_threshold);
    ild_header(FORMAT_2D_TRUE_COLOR, frame_count, frame_index, lit.len() as u16)
        + pixel_records_rgb(counted(lit), offset_x, offset_y)
}

/// One indexed-colour raster frame: a format 1 header and a point for each
/// lit pixel, all in one palette colour.
pub open spec fn image_frame_index(
    pixels: Seq<PixelRgba>,
    frame_count: u16,
    frame_index: u16,
    offset_x: i16,
    offset_y: i16,
    gray_threshold: u8,
    alpha_threshold: u8,
    color_index: u8,
) -> Seq<u8> {
    let lit = lit_pixels(pixels, gray_threshold, alpha_threshold);
    ild_header(FORMAT_2D_INDEXED, frame_count, frame_index, lit.len() as u16)
        + pixel_records_index(counted(lit), offset_x, offset_y, color_index)
}

/// The frames of an animation one after another, frame `i` with index `i`
/// and all with the frame count `total`.
pub open spec fn frames_rgb(
    frames: Seq<Vec<PixelRgba>>,
    total: u16,
    offset_x: i16,
    offset_y: i16,
    gray_threshold: u8,
    alpha_threshold: u8,
) -> Seq<u8>
    decreases frames.len(),
{
    if frames.len() == 0 {
        Seq::empty()
    } else {
        frames_rgb(frames.drop_last(), total, offset_x, offset_y, gray_threshold, alpha_threshold)
            + image_frame_rgb(
            frames.last()@,
            total,
            (frames.len() - 1) as u16,
            offset_x,
            offset_y,
            gray_threshold,
            alpha_threshold,
        )
    }
}

pub open spec fn frames_index(
    frames: Seq<Vec<PixelRgba>>,
    total: u16,
    offset_x: i16,
    offset_y: i16,
    gray_threshold: u8,
    alpha_threshold: u8,
    color_index: u8,
) -> Seq<u8>
    decreases frames.len(),
{
    if frames.len() == 0 {
        Seq::empty()
    } else {
        frames_index(
            frames.drop_last(),
            total,
            offset_x,
            offset_y,
            gray_threshold,
            alpha_threshold,
            color_index,
        ) + image_frame_index(
            frames.last()@,
            total,
            (frames.len() - 1) as u16,
            offset_x,
            offset_y,
            gray_threshold,
            alpha_threshold,
            color_index,
        )
    }
}

fn gray(p: &PixelRgba) -> (r: u32)
    ensures
        r == gray_of(*p),
{
    (299 * p.r as u32 + 587 * p.g as u32 + 114 * p.b as u32) / 1000
}

fn lit_pixels_of(pixels: &Vec<PixelRgba>, gray_threshold: u8, alpha_threshold: u8) -> (r: Vec<
    PixelRgba,
>)
    ensures
        r@ == lit_pixels(pixels@, gray_threshold, alpha_threshold),
{
    let mut out: Vec<PixelRgba> = Vec::new();
    let mut i: usize = 0;
    while i < pixels.len()
        invariant
            i <= pixels.len(),
            out@ == lit_pixels(pixels@.take(i as int), gray_threshold, alpha_threshold),
        decreases pixels.len() - i,
    {
        assert(pixels@.take(i as int + 1).drop_last() =~= pixels@.take(i as int));
        let p = pixels[i];
        let g = gray(&p);
        if !(g <= gray_threshold as u32 || p.a <= alpha_threshold) {
            out.push(p);
        }
        i += 1;
    }
    assert(pixels@.take(pixels.len() as int) =~= pixels@);
    out
}

fn pixel_to_point(p: &PixelRgba, offset_x: i16, offset_y: i16) -> (r: (i16, i16))
    ensures
        r == pixel_point(*p, offset_x, offset_y),
{
    (((p.x as i16) as i32 + offset_x as i32) as i16, ((p.y as i16) as i32 + offset_y as i32) as i16)
}

/// Appends one true-colour frame of a raster image: a format 5 header and a
/// point for each pixel that is lit, in its own colour.
pub fn write_image_to_ild_bytes_2d_rgb(
    writer: &mut IldWriter,
    pixels: &Vec<PixelRgba>,
    frame_count: u16,
    frame_index: u16,
    offset_x: i16,
    offset_y: i16,
    gray_threshold: u8,
    alpha_threshold: u8,
)
    ensures
        final(writer).bytes@ == old(writer).bytes@ + image_frame_rgb(
            pixels@,
            frame_count,
            frame_index,
            offset_x,
            offset_y,
            gray_threshold,
            alpha_threshold,
        ),
{
    let lit = lit_pixels_of(pixels, gray_threshold, alpha_threshold);
    let count = lit.len() as u16;
    writer.writer_header(FORMAT_2D_TRUE_COLOR, frame_count, frame_index, count);
    let ghost h = writer.bytes@;
    let mut i: usize = 0;
    while i < count as usize
        invariant
            i <= count as usize <= lit.len(),
            writer.bytes@ == h + pixel_records_rgb(lit@.take(i as int), offset_x, offset_y),
        decreases count as usize - i,
    {
        assert(lit@.take(i as int + 1).drop_last() =~= lit@.take(i as int));
        let p = lit[i];
        let pt = pixel_to_point(&p, offset_x, offset_y);
        writer.write_point_2d_index_rgb(&pt, p.r, p.g, p.b);
        i += 1;
    }
}

/// Appends one indexed-colour frame of a raster image: a format 1 header and
/// a point for each pixel that is lit, all in one palette colour.
pub fn write_image_to_ild_bytes_2d_color_index(
    writer: &mut IldWriter,
    pixels: &Vec<PixelRgba>,
    frame_count: u16,
    frame_index: u16,
    offset_x: i16,
    offset_y: i16,
    gray_threshold: u8,
    alpha_threshold: u8,
    color_index: u8,
)
    ensures
        final(writer).bytes@ == old(writer).bytes@ + image_frame_index(
            pixels@,
            frame_count,
            frame_index,
            offset_x,
            offset_y,
            gray_threshold,
            alpha_threshold,
            color_index,
        ),
{
    let lit = lit_pixels_of(pixels, gray_threshold, alpha_threshold);
    let count = lit.len() as u16;
    writer.writer_header(FORMAT_2D_INDEXED, frame_count, frame_index, count);
    let ghost h = writer.bytes@;
    let mut i: usize = 0;
    while i < count as usize
        invariant
            i <= count as usize <= lit.len(),
            writer.bytes@ == h + pixel_records_index(
                lit@.take(i as int),
                offset_x,
                offset_y,
                color_index,
            ),
        decreases count as usize - i,
    {
        assert(lit@.take(i as int + 1).drop_last() =~= lit@.take(i as int));
        let p = lit[i];
        let pt = pixel_to_point(&p, offset_x, offset_y);
        writer.write_point_2d_index_color(&pt, color_index);
        i += 1;
    }
}

/// The ILDA bytes of one raster frame in true colour.
pub fn image_to_ild_bytes(
    pixels: &Vec<PixelRgba>,
    offset_x: i16,
    offset_y: i16,
    gray_threshold: u8,
    alpha_threshold: u8,
) -> (out: Vec<u8>)
    ensures
        ({
            let lit = lit_pixels(pixels@, gray_threshold, alpha_threshold);
            out@ == ild_header(FORMAT_2D_TRUE_COLOR, 1, 0, lit.len() as u16) + pixel_records_rgb(
                counted(lit),
                offset_x,
                offset_y,
            )
        }),
{
    let mut w = IldWriter::new();
    write_image_to_ild_bytes_2d_rgb(
        &mut w,
        pixels,
        1,
        0,
        offset_x,
        offset_y,
        gray_threshold,
        alpha_threshold,
    );
    assert(w.bytes@ =~= Seq::<u8>::empty() + w.bytes@);
    w.bytes
}

/// The ILDA bytes of an animation in true colour: one frame per image, with
/// its index and the frame count (which wraps at 16 bits).
pub fn frames_to_ild_bytes_2d_rgb(
    frames: &Vec<Vec<PixelRgba>>,
    offset_x: i16,
    offset_y: i16,
    gray_threshold: u8,
    alpha_threshold: u8,
) -> (out: Vec<u8>)
    ensures
        out@ == frames_rgb(
            frames@,
            frames.len() as u16,
            offset_x,
            offset_y,
            gray_threshold,
            alpha_threshold,
        ),
{
    let total = frames.len() as u16;
    let mut w = IldWriter::new();
    let mut i: usize = 0;
    while i < frames.len()
        invariant
            i <= frames.len(),
            total == frames.len() as u16,
            w.bytes@ == frames_rgb(
                frames@.take(i as int),
                total,
                offset_x,
                offset_y,
                gray_threshold,
                alpha_threshold,
            ),
        decreases frames.len() - i,
    {
        assert(frames@.take(i as int + 1).drop_last() =~= frames@.take(i as int));
        write_image_to_ild_bytes_2d_rgb(
            &mut w,
            &frames[i],
            total,
            i as u16,
            offset_x,
            offset_y,
            gray_threshold,
            alpha_threshold,
        );
        i += 1;
    }
    assert(frames@.take(frames.len() as int) =~= frames@);
    w.bytes
}

/// The ILDA bytes of an animation in one palette colour: one frame per
/// image, with its index and the frame count (which wraps at 16 bits).
pub fn frames_to_ild_bytes_2d_color_index(
    frames: &Vec<Vec<PixelRgba>>,
    offset_x: i16,
    offset_y: i16,
    gray_threshold: u8,
    alpha_threshold: u8,
    color_index: u8,
) -> (out: Vec<u8>)
    ensures
        out@ == frames_index(
            frames@,
            frames.len() as u16,
            offset_x,
            offset_y,
            gray_threshold,
            alpha_threshold,
            color_index,
        ),
{
    let total = frames.len() as u16;
    let mut w = IldWriter::new();
    let mut i: usize = 0;
    while i < frames.len()
        invariant
            i <= frames.len(),
            total == frames.len() as u16,
            w.bytes@ == frames_index(
                frames@.take(i as int),
                total,
                offset_x,
                offset_y,
                gray_threshold,
                alpha_threshold,
                color_index,
            ),
        decreases frames.len() - i,
    {
        assert(frames@.take(i as int + 1).drop_last() =~= frames@.take(i as int));
        write_image_to_ild_bytes_2d_color_index(
            &mut w,
            &frames[i],
            total,
            i as u16,
            offset_x,
            offset_y,
            gray_threshold,
            alpha_threshold,
            color_index,
        );
        i += 1;
    }
    assert(frames@.take(frames.len() as int) =~= frames@);
    w.bytes
}

} // verus!
