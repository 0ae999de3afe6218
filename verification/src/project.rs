//! Round-trip (de)serialization of a project — the list of merged drawing
//! pairs — to and from one binary blob.
//!
//! The format is a little-endian, length-prefixed binary schema: a four-byte
//! magic tag and a format version, then the drawing count, then each drawing
//! as two appearance records, two length-prefixed point lists and a depth
//! layer. Decoding never panics on malformed input: every failure is reported
//! as a [`DecodeError`].

use vstd::prelude::*;
use vstd::bytes::lemma_auto_spec_u32_to_from_le_bytes;
use vstd::bytes::lemma_auto_spec_u64_to_from_le_bytes;
use vstd::bytes::spec_u32_to_le_bytes;
use vstd::bytes::spec_u32_from_le_bytes;
use vstd::bytes::spec_u64_to_le_bytes;
use vstd::bytes::spec_u64_from_le_bytes;
use vstd::bytes::u32_to_le_bytes;
use vstd::bytes::u32_from_le_bytes;
use vstd::bytes::u64_to_le_bytes;
use vstd::bytes::u64_from_le_bytes;
use vstd::slice::slice_subrange;

use crate::material::Color;
use crate::material::PointsSettings;
use crate::points::Point;
use crate::points::Points;

verus! {

/// The format version this build writes and accepts.
pub const FORMAT_VERSION: u32 = 1;

/// One persisted drawing pair: the two endpoint appearances, the two
/// length-reconciled point sequences, and the render depth of the pair.
pub struct Drawing {
    pub source_settings: PointsSettings,
    pub target_settings: PointsSettings,
    pub source_points: Points,
    pub target_points: Points,
    /// Render depth / z-order of the pair, an opaque 32-bit scalar word.
    pub layer: u32,
}

/// The mathematical content of a [`Drawing`].
pub ghost struct DrawingView {
    pub source_settings: PointsSettings,
    pub target_settings: PointsSettings,
    pub source_points: Seq<Point>,
    pub target_points: Seq<Point>,
    pub layer: u32,
}

impl View for Drawing {
    type V = DrawingView;

    open spec fn view(&self) -> DrawingView {
        DrawingView {
            source_settings: self.source_settings,
            target_settings: self.target_settings,
            source_points: self.source_points@,
            target_points: self.target_points@,
            layer: self.layer,
        }
    }
}

/// A whole project: the ordered list of persisted drawing pairs. Z-layering
/// is carried by each drawing's `layer` field, not by list order.
pub struct Project {
    pub drawings: Vec<Drawing>,
}

impl View for Project {
    type V = Seq<DrawingView>;

    open spec fn view(&self) -> Seq<DrawingView> {
        self.drawings@.map_values(|d: Drawing| d@)
    }
}

/// Why a project blob could not be decoded.
#[derive(Clone, Copy, PartialEq, Eq, Structural, Debug)]
pub enum DecodeError {
    /// The input ended before the announced content did.
    Truncated,
    /// The input does not start with the project magic tag.
    BadMagic,
    /// The input announces a format version this build does not read.
    UnsupportedVersion,
    /// Well-formed content followed by junk bytes.
    TrailingData,
}

/// The four-byte magic tag that opens every project blob.
pub open spec fn magic() -> Seq<u8> {
    seq![0x54u8, 0x45u8, 0x52u8, 0x50u8]
}

/// Encoding of one appearance record: four colour channels, then the radius.
pub open spec fn enc_settings(s: PointsSettings) -> Seq<u8> {
    spec_u32_to_le_bytes(s.color.red) + spec_u32_to_le_bytes(s.color.green) + spec_u32_to_le_bytes(
        s.color.blue,
    ) + spec_u32_to_le_bytes(s.color.alpha) + spec_u32_to_le_bytes(s.radius)
}

/// Encoding of one point: its three coordinate words.
pub open spec fn enc_point(p: Point) -> Seq<u8> {
    spec_u32_to_le_bytes(p.x) + spec_u32_to_le_bytes(p.y) + spec_u32_to_le_bytes(p.z)
}

/// Back-to-back encodings of a sequence of points.
pub open spec fn enc_points_cat(pts: Seq<Point>) -> Seq<u8>
    decreases pts.len(),
{
    if pts.len() == 0 {
        Seq::empty()
    } else {
        enc_point(pts[0]) + enc_points_cat(pts.drop_first())
    }
}

/// Encoding of a point list: its count, then the points.
pub open spec fn enc_point_list(pts: Seq<Point>) -> Seq<u8> {
    spec_u64_to_le_bytes(pts.len() as u64) + enc_points_cat(pts)
}

/// Encoding of one drawing record.
pub open spec fn enc_drawing(d: DrawingView) -> Seq<u8> {
    enc_settings(d.source_settings) + enc_settings(d.target_settings) + enc_point_list(
        d.source_points,
    ) + enc_point_list(d.target_points) + spec_u32_to_le_bytes(d.layer)
}

/// Back-to-back encodings of a sequence of drawings.
pub open spec fn enc_drawings_cat(ds: Seq<DrawingView>) -> Seq<u8>
    decreases ds.len(),
{
    if ds.len() == 0 {
        Seq::empty()
    } else {
        enc_drawing(ds[0]) + enc_drawings_cat(ds.drop_first())
    }
}

/// Encoding of a whole project: magic, version, drawing count, drawings.
pub open spec fn enc_project(ds: Seq<DrawingView>) -> Seq<u8> {
    magic() + spec_u32_to_le_bytes(FORMAT_VERSION) + spec_u64_to_le_bytes(ds.len() as u64)
        + enc_drawings_cat(ds)
}

/// Concatenated point encodings distribute over appending one point.
proof fn lemma_enc_points_cat_push(pts: Seq<Point>, p: Point)
    ensures
        enc_points_cat(pts.push(p)) == enc_points_cat(pts) + enc_point(p),
    decreases pts.len(),
{
    let whole = pts.push(p);
    assert(whole.len() > 0);
    assert(enc_points_cat(whole) == enc_point(whole[0]) + enc_points_cat(whole.drop_first()));
    if pts.len() == 0 {
        assert(whole[0] == p);
        assert(whole.drop_first() =~= Seq::<Point>::empty());
        assert(enc_points_cat(whole.drop_first()) == Seq::<u8>::empty());
        assert(enc_points_cat(whole) =~= enc_points_cat(pts) + enc_point(p));
    } else {
        assert(whole[0] == pts[0]);
        assert(whole.drop_first() =~= pts.drop_first().push(p));
        lemma_enc_points_cat_push(pts.drop_first(), p);
        assert(enc_points_cat(whole) =~= enc_points_cat(pts) + enc_point(p));
    }
}

/// Concatenated drawing encodings distribute over appending one drawing.
proof fn lemma_enc_drawings_cat_push(ds: Seq<DrawingView>, d: DrawingView)
    ensures
        enc_drawings_cat(ds.push(d)) == enc_drawings_cat(ds) + enc_drawing(d),
    decreases ds.len(),
{
    let whole = ds.push(d);
    assert(whole.len() > 0);
    assert(enc_drawings_cat(whole) == enc_drawing(whole[0]) + enc_drawings_cat(whole.drop_first()));
    if ds.len() == 0 {
        assert(whole[0] == d);
        assert(whole.drop_first() =~= Seq::<DrawingView>::empty());
        assert(enc_drawings_cat(whole.drop_first()) == Seq::<u8>::empty());
        assert(enc_drawings_cat(whole) =~= enc_drawings_cat(ds) + enc_drawing(d));
    } else {
        assert(whole[0] == ds[0]);
        assert(whole.drop_first() =~= ds.drop_first().push(d));
        lemma_enc_drawings_cat_push(ds.drop_first(), d);
        assert(enc_drawings_cat(whole) =~= enc_drawings_cat(ds) + enc_drawing(d));
    }
}

/// Reads one little-endian 32-bit word at `pos`.
pub open spec fn dec_u32(b: Seq<u8>, pos: int) -> Result<(u32, int), DecodeError> {
    if 0 <= pos && pos + 4 <= b.len() {
        Ok((spec_u32_from_le_bytes(b.subrange(pos, pos + 4)), pos + 4))
    } else {
        Err(DecodeError::Truncated)
    }
}

/// Reads one little-endian 64-bit word at `pos`.
pub open spec fn dec_u64(b: Seq<u8>, pos: int) -> Result<(u64, int), DecodeError> {
    if 0 <= pos && pos + 8 <= b.len() {
        Ok((spec_u64_from_le_bytes(b.subrange(pos, pos + 8)), pos + 8))
    } else {
        Err(DecodeError::Truncated)
    }
}

/// Reads one appearance record at `pos`.
pub open spec fn dec_settings(b: Seq<u8>, pos: int) -> Result<(PointsSettings, int), DecodeError> {
    match dec_u32(b, pos) {
        Err(e) => Err(e),
        Ok((red, p1)) => match dec_u32(b, p1) {
            Err(e) => Err(e),
            Ok((green, p2)) => match dec_u32(b, p2) {
                Err(e) => Err(e),
                Ok((blue, p3)) => match dec_u32(b, p3) {
                    Err(e) => Err(e),
                    Ok((alpha, p4)) => match dec_u32(b, p4) {
                        Err(e) => Err(e),
                        Ok((radius, p5)) => Ok(
                            (
                                PointsSettings {
                                    color: Color { red, green, blue, alpha },
                                    radius,
                                },
                                p5,
                            ),
                        ),
                    },
                },
            },
        },
    }
}

/// Reads one point at `pos`.
pub open spec fn dec_point(b: Seq<u8>, pos: int) -> Result<(Point, int), DecodeError> {
    match dec_u32(b, pos) {
        Err(e) => Err(e),
        Ok((x, p1)) => match dec_u32(b, p1) {
            Err(e) => Err(e),
            Ok((y, p2)) => match dec_u32(b, p2) {
                Err(e) => Err(e),
                Ok((z, p3)) => Ok((Point { x, y, z }, p3)),
            },
        },
    }
}

/// Reads `n` back-to-back points at `pos`.
pub open spec fn dec_points_cat(b: Seq<u8>, pos: int, n: nat) -> Result<
    (Seq<Point>, int),
    DecodeError,
>
    decreases n,
{
    if n == 0 {
        Ok((Seq::empty(), pos))
    } else {
        match dec_point(b, pos) {
            Err(e) => Err(e),
            Ok((p, p1)) => match dec_points_cat(b, p1, (n - 1) as nat) {
                Err(e) => Err(e),
                Ok((rest, p2)) => Ok((seq![p] + rest, p2)),
            },
        }
    }
}

/// Reads one point list (count, then points) at `pos`.
pub open spec fn dec_point_list(b: Seq<u8>, pos: int) -> Result<(Seq<Point>, int), DecodeError> {
    match dec_u64(b, pos) {
        Err(e) => Err(e),
        Ok((count, p1)) => dec_points_cat(b, p1, count as nat),
    }
}

/// Reads one drawing record at `pos`.
pub open spec fn dec_drawing(b: Seq<u8>, pos: int) -> Result<(DrawingView, int), DecodeError> {
    match dec_settings(b, pos) {
        Err(e) => Err(e),
        Ok((source_settings, p1)) => match dec_settings(b, p1) {
            Err(e) => Err(e),
            Ok((target_settings, p2)) => match dec_point_list(b, p2) {
                Err(e) => Err(e),
                Ok((source_points, p3)) => match dec_point_list(b, p3) {
                    Err(e) => Err(e),
                    Ok((target_points, p4)) => match dec_u32(b, p4) {
                        Err(e) => Err(e),
                        Ok((layer, p5)) => Ok(
                            (
                                DrawingView {
                                    source_settings,
                                    target_settings,
                                    source_points,
                                    target_points,
                                    layer,
                                },
                                p5,
                            ),
                        ),
                    },
                },
            },
        },
    }
}

/// Reads `n` back-to-back drawing records at `pos`.
pub open spec fn dec_drawings_cat(b: Seq<u8>, pos: int, n: nat) -> Result<
    (Seq<DrawingView>, int),
    DecodeError,
>
    decreases n,
{
    if n == 0 {
        Ok((Seq::empty(), pos))
    } else {
        match dec_drawing(b, pos) {
            Err(e) => Err(e),
            Ok((d, p1)) => match dec_drawings_cat(b, p1, (n - 1) as nat) {
                Err(e) => Err(e),
                Ok((rest, p2)) => Ok((seq![d] + rest, p2)),
            },
        }
    }
}

/// Reads a whole project blob: magic, version, count, drawings, and nothing
/// after them.
pub open spec fn dec_project(b: Seq<u8>) -> Result<Seq<DrawingView>, DecodeError> {
    if b.len() < 4 {
        Err(DecodeError::Truncated)
    } else if b.subrange(0, 4) != magic() {
        Err(DecodeError::BadMagic)
    } else {
        match dec_u32(b, 4) {
            Err(e) => Err(e),
            Ok((version, p1)) => if version != FORMAT_VERSION {
                Err(DecodeError::UnsupportedVersion)
            } else {
                match dec_u64(b, p1) {
                    Err(e) => Err(e),
                    Ok((count, p2)) => match dec_drawings_cat(b, p2, count as nat) {
                        Err(e) => Err(e),
                        Ok((ds, p3)) => if p3 == b.len() {
                            Ok(ds)
                        } else {
                            Err(DecodeError::TrailingData)
                        },
                    },
                }
            },
        }
    }
}

/// `chunk` is laid out in `b` starting at `pos`.
pub open spec fn chunk_at(b: Seq<u8>, pos: int, chunk: Seq<u8>) -> bool {
    &&& 0 <= pos
    &&& pos + chunk.len() <= b.len()
    &&& b.subrange(pos, pos + chunk.len()) == chunk
}

/// A concatenated chunk splits into its two halves, laid out back to back.
proof fn lemma_chunk_at_concat(b: Seq<u8>, pos: int, c1: Seq<u8>, c2: Seq<u8>)
    requires
        chunk_at(b, pos, c1 + c2),
    ensures
        chunk_at(b, pos, c1),
        chunk_at(b, pos + c1.len(), c2),
{
    let whole = c1 + c2;
    assert forall|k: int| 0 <= k < c1.len() implies b[pos + k] == c1[k] by {
        assert(b.subrange(pos, pos + whole.len() as int)[k] == whole[k]);
    }
    assert forall|k: int| 0 <= k < c2.len() implies b[pos + c1.len() + k] == c2[k] by {
        assert(b.subrange(pos, pos + whole.len() as int)[c1.len() + k] == whole[c1.len() + k]);
    }
    assert(b.subrange(pos, pos + c1.len() as int) =~= c1);
    assert(b.subrange(pos + c1.len(), pos + c1.len() + c2.len() as int) =~= c2);
}

/// Decoding reads back the 32-bit word that encoding wrote.
proof fn lemma_dec_u32_enc(b: Seq<u8>, pos: int, x: u32)
    requires
        chunk_at(b, pos, spec_u32_to_le_bytes(x)),
    ensures
        dec_u32(b, pos) == Ok::<(u32, int), DecodeError>((x, pos + 4)),
{
    lemma_auto_spec_u32_to_from_le_bytes();
}

/// Decoding reads back the 64-bit word that encoding wrote.
proof fn lemma_dec_u64_enc(b: Seq<u8>, pos: int, x: u64)
    requires
        chunk_at(b, pos, spec_u64_to_le_bytes(x)),
    ensures
        dec_u64(b, pos) == Ok::<(u64, int), DecodeError>((x, pos + 8)),
{
    lemma_auto_spec_u64_to_from_le_bytes();
}

/// Decoding reads back the appearance record that encoding wrote.
proof fn lemma_dec_settings_enc(b: Seq<u8>, pos: int, s: PointsSettings)
    requires
        chunk_at(b, pos, enc_settings(s)),
    ensures
        dec_settings(b, pos) == Ok::<(PointsSettings, int), DecodeError>((s, pos + 20)),
{
    lemma_auto_spec_u32_to_from_le_bytes();
    let e1 = spec_u32_to_le_bytes(s.color.red);
    let e2 = spec_u32_to_le_bytes(s.color.green);
    let e3 = spec_u32_to_le_bytes(s.color.blue);
    let e4 = spec_u32_to_le_bytes(s.color.alpha);
    let e5 = spec_u32_to_le_bytes(s.radius);
    lemma_chunk_at_concat(b, pos, e1 + e2 + e3 + e4, e5);
    lemma_chunk_at_concat(b, pos, e1 + e2 + e3, e4);
    lemma_chunk_at_concat(b, pos, e1 + e2, e3);
    lemma_chunk_at_concat(b, pos, e1, e2);
    lemma_dec_u32_enc(b, pos, s.color.red);
    lemma_dec_u32_enc(b, pos + 4, s.color.green);
    lemma_dec_u32_enc(b, pos + 8, s.color.blue);
    lemma_dec_u32_enc(b, pos + 12, s.color.alpha);
    lemma_dec_u32_enc(b, pos + 16, s.radius);
}

/// Decoding reads back the point that encoding wrote.
proof fn lemma_dec_point_enc(b: Seq<u8>, pos: int, p: Point)
    requires
        chunk_at(b, pos, enc_point(p)),
    ensures
        dec_point(b, pos) == Ok::<(Point, int), DecodeError>((p, pos + 12)),
{
    lemma_auto_spec_u32_to_from_le_bytes();
    let e1 = spec_u32_to_le_bytes(p.x);
    let e2 = spec_u32_to_le_bytes(p.y);
    let e3 = spec_u32_to_le_bytes(p.z);
    lemma_chunk_at_concat(b, pos, e1 + e2, e3);
    lemma_chunk_at_concat(b, pos, e1, e2);
    lemma_dec_u32_enc(b, pos, p.x);
    lemma_dec_u32_enc(b, pos + 4, p.y);
    lemma_dec_u32_enc(b, pos + 8, p.z);
}

/// Decoding reads back every point that encoding wrote, ending right after
/// the last one.
proof fn lemma_dec_points_cat_enc(b: Seq<u8>, pos: int, pts: Seq<Point>)
    requires
        chunk_at(b, pos, enc_points_cat(pts)),
    ensures
        dec_points_cat(b, pos, pts.len()) == Ok::<(Seq<Point>, int), DecodeError>(
            (pts, pos + enc_points_cat(pts).len()),
        ),
    decreases pts.len(),
{
    lemma_auto_spec_u32_to_from_le_bytes();
    if pts.len() == 0 {
        assert(pts =~= Seq::<Point>::empty());
    } else {
        let head = enc_point(pts[0]);
        let tail = enc_points_cat(pts.drop_first());
        assert(enc_points_cat(pts) == head + tail);
        lemma_chunk_at_concat(b, pos, head, tail);
        lemma_dec_point_enc(b, pos, pts[0]);
        assert(head.len() == 12);
        lemma_dec_points_cat_enc(b, pos + 12, pts.drop_first());
        assert(seq![pts[0]] + pts.drop_first() =~= pts);
    }
}

/// Decoding reads back the point list that encoding wrote, provided its
/// count fits the 64-bit count field.
proof fn lemma_dec_point_list_enc(b: Seq<u8>, pos: int, pts: Seq<Point>)
    requires
        chunk_at(b, pos, enc_point_list(pts)),
        pts.len() <= u64::MAX,
    ensures
        dec_point_list(b, pos) == Ok::<(Seq<Point>, int), DecodeError>(
            (pts, pos + enc_point_list(pts).len()),
        ),
{
    lemma_auto_spec_u64_to_from_le_bytes();
    let head = spec_u64_to_le_bytes(pts.len() as u64);
    let tail = enc_points_cat(pts);
    lemma_chunk_at_concat(b, pos, head, tail);
    lemma_dec_u64_enc(b, pos, pts.len() as u64);
    lemma_dec_points_cat_enc(b, pos + 8, pts);
}

/// A drawing's point counts fit the 64-bit count fields of the encoding.
pub open spec fn drawing_bounded(d: DrawingView) -> bool {
    &&& d.source_points.len() <= u64::MAX
    &&& d.target_points.len() <= u64::MAX
}

/// Decoding reads back the drawing record that encoding wrote.
proof fn lemma_dec_drawing_enc(b: Seq<u8>, pos: int, d: DrawingView)
    requires
        chunk_at(b, pos, enc_drawing(d)),
        drawing_bounded(d),
    ensures
        dec_drawing(b, pos) == Ok::<(DrawingView, int), DecodeError>(
            (d, pos + enc_drawing(d).len()),
        ),
{
    lemma_auto_spec_u32_to_from_le_bytes();
    let e1 = enc_settings(d.source_settings);
    let e2 = enc_settings(d.target_settings);
    let e3 = enc_point_list(d.source_points);
    let e4 = enc_point_list(d.target_points);
    let e5 = spec_u32_to_le_bytes(d.layer);
    lemma_chunk_at_concat(b, pos, e1 + e2 + e3 + e4, e5);
    lemma_chunk_at_concat(b, pos, e1 + e2 + e3, e4);
    lemma_chunk_at_concat(b, pos, e1 + e2, e3);
    lemma_chunk_at_concat(b, pos, e1, e2);
    lemma_dec_settings_enc(b, pos, d.source_settings);
    lemma_dec_settings_enc(b, pos + e1.len(), d.target_settings);
    lemma_dec_point_list_enc(b, pos + e1.len() + e2.len(), d.source_points);
    lemma_dec_point_list_enc(b, pos + e1.len() + e2.len() + e3.len(), d.target_points);
    lemma_dec_u32_enc(b, pos + e1.len() + e2.len() + e3.len() + e4.len(), d.layer);
}

/// Decoding reads back every drawing that encoding wrote, ending right after
/// the last one.
proof fn lemma_dec_drawings_cat_enc(b: Seq<u8>, pos: int, ds: Seq<DrawingView>)
    requires
        chunk_at(b, pos, enc_drawings_cat(ds)),
        forall|i: int| 0 <= i < ds.len() ==> #[trigger] drawing_bounded(ds[i]),
    ensures
        dec_drawings_cat(b, pos, ds.len()) == Ok::<(Seq<DrawingView>, int), DecodeError>(
            (ds, pos + enc_drawings_cat(ds).len()),
        ),
    decreases ds.len(),
{
    if ds.len() == 0 {
        assert(ds =~= Seq::<DrawingView>::empty());
    } else {
        let head = enc_drawing(ds[0]);
        let tail = enc_drawings_cat(ds.drop_first());
        assert(enc_drawings_cat(ds) == head + tail);
        lemma_chunk_at_concat(b, pos, head, tail);
        assert(drawing_bounded(ds[0]));
        lemma_dec_drawing_enc(b, pos, ds[0]);
        assert(forall|i: int|
            0 <= i < ds.drop_first().len() ==> #[trigger] drawing_bounded(ds.drop_first()[i]));
        lemma_dec_drawings_cat_enc(b, pos + head.len(), ds.drop_first());
        assert(seq![ds[0]] + ds.drop_first() =~= ds);
    }
}

/// The round trip: decoding the encoding of any project gives back exactly
/// that project, field for field, whenever its counts fit the 64-bit count
/// fields (every in-memory project satisfies that).
pub proof fn lemma_round_trip(ds: Seq<DrawingView>)
    requires
        ds.len() <= u64::MAX,
        forall|i: int| 0 <= i < ds.len() ==> #[trigger] drawing_bounded(ds[i]),
    ensures
        dec_project(enc_project(ds)) == Ok::<Seq<DrawingView>, DecodeError>(ds),
{
    lemma_auto_spec_u32_to_from_le_bytes();
    lemma_auto_spec_u64_to_from_le_bytes();
    let b = enc_project(ds);
    let e1 = magic();
    let e2 = spec_u32_to_le_bytes(FORMAT_VERSION);
    let e3 = spec_u64_to_le_bytes(ds.len() as u64);
    let e4 = enc_drawings_cat(ds);
    assert(b.subrange(0, b.len() as int) =~= b);
    assert(chunk_at(b, 0, e1 + e2 + e3 + e4));
    lemma_chunk_at_concat(b, 0, e1 + e2 + e3, e4);
    lemma_chunk_at_concat(b, 0, e1 + e2, e3);
    lemma_chunk_at_concat(b, 0, e1, e2);
    assert(b.subrange(0, 4) == magic());
    lemma_dec_u32_enc(b, 4, FORMAT_VERSION);
    lemma_dec_u64_enc(b, 8, ds.len() as u64);
    lemma_dec_drawings_cat_enc(b, 16, ds);
    assert(b.len() == 16 + e4.len());
}

/// Appends the four little-endian bytes of one 32-bit word.
fn write_u32(out: &mut Vec<u8>, x: u32)
    ensures
        final(out)@ == old(out)@ + spec_u32_to_le_bytes(x),
{
    proof {
        lemma_auto_spec_u32_to_from_le_bytes();
    }
    let b = u32_to_le_bytes(x);
    out.push(b[0]);
    out.push(b[1]);
    out.push(b[2]);
    out.push(b[3]);
    proof {
        assert(out@ =~= old(out)@ + spec_u32_to_le_bytes(x));
    }
}

/// Appends the eight little-endian bytes of one 64-bit word.
fn write_u64(out: &mut Vec<u8>, x: u64)
    ensures
        final(out)@ == old(out)@ + spec_u64_to_le_bytes(x),
{
    proof {
        lemma_auto_spec_u64_to_from_le_bytes();
    }
    let b = u64_to_le_bytes(x);
    let mut i: usize = 0;
    while i < 8
        invariant
            b@ == spec_u64_to_le_bytes(x),
            b@.len() == 8,
            i <= 8,
            out@ =~= old(out)@ + b@.subrange(0, i as int),
        decreases 8 - i,
    {
        out.push(b[i]);
        i = i + 1;
    }
    proof {
        assert(out@ =~= old(out)@ + spec_u64_to_le_bytes(x));
    }
}

/// Appends the encoding of one appearance record.
fn write_settings(out: &mut Vec<u8>, s: &PointsSettings)
    ensures
        final(out)@ == old(out)@ + enc_settings(*s),
{
    write_u32(out, s.color.red);
    write_u32(out, s.color.green);
    write_u32(out, s.color.blue);
    write_u32(out, s.color.alpha);
    write_u32(out, s.radius);
    proof {
        assert(out@ =~= old(out)@ + enc_settings(*s));
    }
}

/// Appends the encoding of one point.
fn write_point(out: &mut Vec<u8>, p: Point)
    ensures
        final(out)@ == old(out)@ + enc_point(p),
{
    write_u32(out, p.x);
    write_u32(out, p.y);
    write_u32(out, p.z);
    proof {
        assert(out@ =~= old(out)@ + enc_point(p));
    }
}

/// Appends the encoding of one point list: count, then points.
fn write_point_list(out: &mut Vec<u8>, pts: &Points)
    ensures
        final(out)@ == old(out)@ + enc_point_list(pts@),
{
    let ghost start = old(out)@;
    write_u64(out, pts.0.len() as u64);
    let mut i: usize = 0;
    while i < pts.0.len()
        invariant
            i <= pts@.len(),
            out@ == start + spec_u64_to_le_bytes(pts@.len() as u64) + enc_points_cat(
                pts@.take(i as int),
            ),
        decreases pts@.len() - i,
    {
        let ghost before = pts@.take(i as int);
        write_point(out, pts.0[i]);
        proof {
            lemma_enc_points_cat_push(before, pts@[i as int]);
            assert(pts@.take(i as int + 1) =~= before.push(pts@[i as int]));
        }
        i = i + 1;
    }
    proof {
        assert(pts@.take(pts@.len() as int) =~= pts@);
        assert(out@ =~= start + enc_point_list(pts@));
    }
}

/// Appends the encoding of one drawing record.
fn write_drawing(out: &mut Vec<u8>, d: &Drawing)
    ensures
        final(out)@ == old(out)@ + enc_drawing(d@),
{
    write_settings(out, &d.source_settings);
    write_settings(out, &d.target_settings);
    write_point_list(out, &d.source_points);
    write_point_list(out, &d.target_points);
    write_u32(out, d.layer);
    proof {
        assert(out@ =~= old(out)@ + enc_drawing(d@));
    }
}

/// Reads one 32-bit word, advancing `pos`; on failure `pos` is unchanged.
fn read_u32(bytes: &Vec<u8>, pos: &mut usize) -> (r: Result<u32, DecodeError>)
    requires
        *old(pos) <= bytes@.len(),
    ensures
        *final(pos) <= bytes@.len(),
        match r {
            Ok(x) => dec_u32(bytes@, *old(pos) as int) == Ok::<(u32, int), DecodeError>(
                (x, *final(pos) as int),
            ),
            Err(e) => dec_u32(bytes@, *old(pos) as int) == Err::<(u32, int), DecodeError>(e)
                && *final(pos) == *old(pos),
        },
{
    if bytes.len() - *pos >= 4 {
        let s = slice_subrange(bytes.as_slice(), *pos, *pos + 4);
        let x = u32_from_le_bytes(s);
        *pos = *pos + 4;
        Ok(x)
    } else {
        Err(DecodeError::Truncated)
    }
}

/// Reads one 64-bit word, advancing `pos`; on failure `pos` is unchanged.
fn read_u64(bytes: &Vec<u8>, pos: &mut usize) -> (r: Result<u64, DecodeError>)
    requires
        *old(pos) <= bytes@.len(),
    ensures
        *final(pos) <= bytes@.len(),
        match r {
            Ok(x) => dec_u64(bytes@, *old(pos) as int) == Ok::<(u64, int), DecodeError>(
                (x, *final(pos) as int),
            ),
            Err(e) => dec_u64(bytes@, *old(pos) as int) == Err::<(u64, int), DecodeError>(e)
                && *final(pos) == *old(pos),
        },
{
    if bytes.len() - *pos >= 8 {
        let s = slice_subrange(bytes.as_slice(), *pos, *pos + 8);
        let x = u64_from_le_bytes(s);
        *pos = *pos + 8;
        Ok(x)
    } else {
        Err(DecodeError::Truncated)
    }
}

/// Reads one appearance record, advancing `pos`.
fn read_settings(bytes: &Vec<u8>, pos: &mut usize) -> (r: Result<PointsSettings, DecodeError>)
    requires
        *old(pos) <= bytes@.len(),
    ensures
        *final(pos) <= bytes@.len(),
        match r {
            Ok(s) => dec_settings(bytes@, *old(pos) as int) == Ok::<
                (PointsSettings, int),
                DecodeError,
            >((s, *final(pos) as int)),
            Err(e) => dec_settings(bytes@, *old(pos) as int) == Err::<
                (PointsSettings, int),
                DecodeError,
            >(e),
        },
{
    let red = match read_u32(bytes, pos) {
        Ok(x) => x,
        Err(e) => {
            return Err(e);
        },
    };
    let green = match read_u32(bytes, pos) {
        Ok(x) => x,
        Err(e) => {
            return Err(e);
        },
    };
    let blue = match read_u32(bytes, pos) {
        Ok(x) => x,
        Err(e) => {
            return Err(e);
        },
    };
    let alpha = match read_u32(bytes, pos) {
        Ok(x) => x,
        Err(e) => {
            return Err(e);
        },
    };
    let radius = match read_u32(bytes, pos) {
        Ok(x) => x,
        Err(e) => {
            return Err(e);
        },
    };
    Ok(PointsSettings { color: Color { red, green, blue, alpha }, radius })
}

/// Reads one point, advancing `pos`.
fn read_point(bytes: &Vec<u8>, pos: &mut usize) -> (r: Result<Point, DecodeError>)
    requires
        *old(pos) <= bytes@.len(),
    ensures
        *final(pos) <= bytes@.len(),
        match r {
            Ok(p) => dec_point(bytes@, *old(pos) as int) == Ok::<(Point, int), DecodeError>(
                (p, *final(pos) as int),
            ),
            Err(e) => dec_point(bytes@, *old(pos) as int) == Err::<(Point, int), DecodeError>(e),
        },
{
    let x = match read_u32(bytes, pos) {
        Ok(v) => v,
        Err(e) => {
            return Err(e);
        },
    };
    let y = match read_u32(bytes, pos) {
        Ok(v) => v,
        Err(e) => {
            return Err(e);
        },
    };
    let z = match read_u32(bytes, pos) {
        Ok(v) => v,
        Err(e) => {
            return Err(e);
        },
    };
    Ok(Point { x, y, z })
}

/// Reads one point list (count, then points), advancing `pos`.
fn read_point_list(bytes: &Vec<u8>, pos: &mut usize) -> (r: Result<Points, DecodeError>)
    requires
        *old(pos) <= bytes@.len(),
    ensures
        *final(pos) <= bytes@.len(),
        match r {
            Ok(pts) => dec_point_list(bytes@, *old(pos) as int) == Ok::<
                (Seq<Point>, int),
                DecodeError,
            >((pts@, *final(pos) as int)),
            Err(e) => dec_point_list(bytes@, *old(pos) as int) == Err::<
                (Seq<Point>, int),
                DecodeError,
            >(e),
        },
{
    let count = match read_u64(bytes, pos) {
        Ok(c) => c,
        Err(e) => {
            return Err(e);
        },
    };
    let ghost start = *pos as int;
    let mut acc: Vec<Point> = Vec::new();
    let mut i: u64 = 0;
    while i < count
        invariant
            i <= count,
            *pos <= bytes@.len(),
            acc@.len() == i,
            dec_u64(bytes@, *old(pos) as int) == Ok::<(u64, int), DecodeError>((count, start)),
            match dec_points_cat(bytes@, *pos as int, (count - i) as nat) {
                Ok(v) => dec_points_cat(bytes@, start, count as nat) == Ok::<
                    (Seq<Point>, int),
                    DecodeError,
                >((acc@ + v.0, v.1)),
                Err(e) => dec_points_cat(bytes@, start, count as nat) == Err::<
                    (Seq<Point>, int),
                    DecodeError,
                >(e),
            },
        decreases count - i,
    {
        let ghost pos_before = *pos as int;
        let ghost acc_before = acc@;
        let p = match read_point(bytes, pos) {
            Ok(p) => p,
            Err(e) => {
                return Err(e);
            },
        };
        acc.push(p);
        i = i + 1;
        proof {
            let rem = (count - i) as nat;
            match dec_points_cat(bytes@, *pos as int, rem) {
                Ok(v) => {
                    assert(dec_points_cat(bytes@, pos_before, (rem + 1) as nat) == Ok::<
                        (Seq<Point>, int),
                        DecodeError,
                    >((seq![p] + v.0, v.1)));
                    assert(acc_before + (seq![p] + v.0) =~= acc@ + v.0);
                },
                Err(_) => {},
            }
        }
    }
    proof {
        assert(acc@ + Seq::<Point>::empty() =~= acc@);
    }
    Ok(Points(acc))
}

/// Reads one drawing record, advancing `pos`.
fn read_drawing(bytes: &Vec<u8>, pos: &mut usize) -> (r: Result<Drawing, DecodeError>)
    requires
        *old(pos) <= bytes@.len(),
    ensures
        *final(pos) <= bytes@.len(),
        match r {
            Ok(d) => dec_drawing(bytes@, *old(pos) as int) == Ok::<(DrawingView, int), DecodeError>(
                (d@, *final(pos) as int),
            ),
            Err(e) => dec_drawing(bytes@, *old(pos) as int) == Err::<
                (DrawingView, int),
                DecodeError,
            >(e),
        },
{
    let source_settings = match read_settings(bytes, pos) {
        Ok(s) => s,
        Err(e) => {
            return Err(e);
        },
    };
    let target_settings = match read_settings(bytes, pos) {
        Ok(s) => s,
        Err(e) => {
            return Err(e);
        },
    };
    let source_points = match read_point_list(bytes, pos) {
        Ok(p) => p,
        Err(e) => {
            return Err(e);
        },
    };
    let target_points = match read_point_list(bytes, pos) {
        Ok(p) => p,
        Err(e) => {
            return Err(e);
        },
    };
    let layer = match read_u32(bytes, pos) {
        Ok(v) => v,
        Err(e) => {
            return Err(e);
        },
    };
    Ok(Drawing { source_settings, target_settings, source_points, target_points, layer })
}

impl Project {
    /// Decodes a project blob. Every malformed, truncated or mismatched input
    /// is rejected with the matching [`DecodeError`]; nothing panics on
    /// attacker-controlled bytes.
    pub fn deserialize(bytes: &Vec<u8>) -> (r: Result<Project, DecodeError>)
        ensures
            match r {
                Ok(p) => dec_project(bytes@) == Ok::<Seq<DrawingView>, DecodeError>(p@),
                Err(e) => dec_project(bytes@) == Err::<Seq<DrawingView>, DecodeError>(e),
            },
    {
        if bytes.len() < 4 {
            return Err(DecodeError::Truncated);
        }
        if bytes[0] != 0x54u8 || bytes[1] != 0x45u8 || bytes[2] != 0x52u8 || bytes[3] != 0x50u8 {
            proof {
                assert(bytes@.subrange(0, 4)[0] == bytes@[0]);
                assert(bytes@.subrange(0, 4)[1] == bytes@[1]);
                assert(bytes@.subrange(0, 4)[2] == bytes@[2]);
                assert(bytes@.subrange(0, 4)[3] == bytes@[3]);
            }
            return Err(DecodeError::BadMagic);
        }
        proof {
            assert(bytes@.subrange(0, 4) =~= magic());
        }
        let mut pos: usize = 4;
        let version = match read_u32(bytes, &mut pos) {
            Ok(v) => v,
            Err(e) => {
                return Err(e);
            },
        };
        if version != FORMAT_VERSION {
            return Err(DecodeError::UnsupportedVersion);
        }
        let count = match read_u64(bytes, &mut pos) {
            Ok(c) => c,
            Err(e) => {
                return Err(e);
            },
        };
        let ghost start = pos as int;
        let mut acc: Vec<Drawing> = Vec::new();
        let mut i: u64 = 0;
        while i < count
            invariant
                i <= count,
                pos <= bytes@.len(),
                acc@.len() == i,
                bytes@.len() >= 4,
                bytes@.subrange(0, 4) == magic(),
                dec_u32(bytes@, 4) == Ok::<(u32, int), DecodeError>((FORMAT_VERSION, 8)),
                dec_u64(bytes@, 8) == Ok::<(u64, int), DecodeError>((count, start)),
                match dec_drawings_cat(bytes@, pos as int, (count - i) as nat) {
                    Ok(v) => dec_drawings_cat(bytes@, start, count as nat) == Ok::<
                        (Seq<DrawingView>, int),
                        DecodeError,
                    >((acc@.map_values(|d: Drawing| d@) + v.0, v.1)),
                    Err(e) => dec_drawings_cat(bytes@, start, count as nat) == Err::<
                        (Seq<DrawingView>, int),
                        DecodeError,
                    >(e),
                },
            decreases count - i,
        {
            let ghost pos_before = pos as int;
            let ghost acc_before = acc@.map_values(|d: Drawing| d@);
            let d = match read_drawing(bytes, &mut pos) {
                Ok(d) => d,
                Err(e) => {
                    return Err(e);
                },
            };
            acc.push(d);
            i = i + 1;
            proof {
                let rem = (count - i) as nat;
                assert(acc@.map_values(|dd: Drawing| dd@) =~= acc_before.push(d@));
                match dec_drawings_cat(bytes@, pos as int, rem) {
                    Ok(v) => {
                        assert(dec_drawings_cat(bytes@, pos_before, (rem + 1) as nat) == Ok::<
                            (Seq<DrawingView>, int),
                            DecodeError,
                        >((seq![d@] + v.0, v.1)));
                        assert(acc_before + (seq![d@] + v.0) =~= acc_before.push(d@) + v.0);
                    },
                    Err(_) => {},
                }
            }
        }
        proof {
            assert(acc@.map_values(|d: Drawing| d@) + Seq::<DrawingView>::empty() =~= acc@.map_values(
                |d: Drawing| d@,
            ));
        }
        if pos != bytes.len() {
            return Err(DecodeError::TrailingData);
        }
        Ok(Project { drawings: acc })
    }

    /// Encodes the project as one binary blob. Encoding is a pure function of
    /// the project value, so identical projects always give identical bytes.
    pub fn serialize(&self) -> (r: Vec<u8>)
        ensures
            r@ == enc_project(self@),
    {
        let mut out: Vec<u8> = Vec::new();
        out.push(0x54u8);
        out.push(0x45u8);
        out.push(0x52u8);
        out.push(0x50u8);
        proof {
            assert(out@ =~= magic());
        }
        write_u32(&mut out, FORMAT_VERSION);
        write_u64(&mut out, self.drawings.len() as u64);
        let ghost header = magic() + spec_u32_to_le_bytes(FORMAT_VERSION) + spec_u64_to_le_bytes(
            self@.len() as u64,
        );
        proof {
            assert(out@ =~= header);
        }
        let mut i: usize = 0;
        while i < self.drawings.len()
            invariant
                i <= self@.len(),
                self@.len() == self.drawings@.len(),
                self@ == self.drawings@.map_values(|d: Drawing| d@),
                header == magic() + spec_u32_to_le_bytes(FORMAT_VERSION) + spec_u64_to_le_bytes(
                    self@.len() as u64,
                ),
                out@ == header + enc_drawings_cat(self@.take(i as int)),
            decreases self@.len() - i,
        {
            let ghost before = self@.take(i as int);
            write_drawing(&mut out, &self.drawings[i]);
            proof {
                lemma_enc_drawings_cat_push(before, self@[i as int]);
                assert(self@.take(i as int + 1) =~= before.push(self@[i as int]));
            }
            i = i + 1;
        }
        proof {
            assert(self@.take(self@.len() as int) =~= self@);
            assert(out@ =~= enc_project(self@));
        }
        out
    }
}

} // verus!
