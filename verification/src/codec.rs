//! Serialization of scene descriptions.
//!
//! A finalized scene travels as two byte payloads: the command stream and
//! the auxiliary table. Both are encoded as a stream of 32-bit words, and
//! the words as little-endian bytes. The spec-level encoders
//! (`enc_*`) and decoders (`dec_*`) are the reference semantics; the
//! executable functions are proved to match them, and the
//! `lemma_dec_enc_*` family proves that decoding an encoding always
//! reproduces the original value — the lossless round trip the boundary
//! depends on.

use vstd::prelude::*;
use vstd::bytes::{
    spec_u32_to_le_bytes, spec_u32_from_le_bytes, lemma_auto_spec_u32_to_from_le_bytes,
    u32_to_le_bytes, u32_from_le_bytes,
};
use vstd::slice::slice_subrange;
use crate::ids::{SceneId, ImageKey, FontKey};
use crate::geometry::{IntPoint, IntSize, IntRect, SideOffsets, ColorValue, TransformMatrix};
use crate::display::{
    ItemRange, ImageMask, ClipRegion, OpacityFilter, TransformSlot, MixBlendMode, ImageRendering,
    BorderStyle, RepeatMode, ExtendMode, BoxShadowClipMode, BorderSide, BorderRadius,
    NinePatchDescriptor, GradientGeometry, BorderDetails, StackingContext, Command, AuxEntry,
};

verus! {

// ---------------------------------------------------------------------------
// Scalar words.
// ---------------------------------------------------------------------------

/// The word carrying a signed 32-bit value (two's complement).
pub open spec fn word_of_i32(v: i32) -> u32 {
    if v >= 0 {
        v as u32
    } else {
        (v + 0x1_0000_0000) as u32
    }
}

/// The signed value a word carries.
pub open spec fn i32_of_word(w: u32) -> i32 {
    if w <= 0x7FFF_FFFFu32 {
        w as i32
    } else {
        (w - 0x1_0000_0000) as i32
    }
}

pub proof fn lemma_word_i32(v: i32)
    ensures
        i32_of_word(word_of_i32(v)) == v,
{
}

/// The word carrying a boolean.
pub open spec fn word_of_bool(b: bool) -> u32 {
    if b {
        1u32
    } else {
        0u32
    }
}

/// Low word of a 64-bit value.
pub open spec fn lo32(v: u64) -> u32 {
    (v & 0xFFFF_FFFFu64) as u32
}

/// High word of a 64-bit value.
pub open spec fn hi32(v: u64) -> u32 {
    (v >> 32u64) as u32
}

/// A 64-bit value reassembled from its two words.
pub open spec fn cat32(lo: u32, hi: u32) -> u64 {
    ((hi as u64) << 32u64) | (lo as u64)
}

pub proof fn lemma_u64_words(v: u64)
    ensures
        v & 0xFFFF_FFFFu64 <= 0xFFFF_FFFFu64,
        v >> 32u64 <= 0xFFFF_FFFFu64,
        cat32(lo32(v), hi32(v)) == v,
{
    assert(v & 0xFFFF_FFFFu64 <= 0xFFFF_FFFFu64) by (bit_vector);
    assert(v >> 32u64 <= 0xFFFF_FFFFu64) by (bit_vector);
    assert((((v >> 32u64) & 0xFFFF_FFFFu64) << 32u64) | (v & 0xFFFF_FFFFu64) == v)
        by (bit_vector);
    assert((v >> 32u64) & 0xFFFF_FFFFu64 == v >> 32u64) by (bit_vector);
}

fn i32_to_word(v: i32) -> (w: u32)
    ensures
        w == word_of_i32(v),
{
    if v >= 0 {
        v as u32
    } else {
        ((v as i64) + 0x1_0000_0000i64) as u32
    }
}

fn word_to_i32(w: u32) -> (v: i32)
    ensures
        v == i32_of_word(w),
{
    if w <= 0x7FFF_FFFFu32 {
        w as i32
    } else {
        ((w as i64) - 0x1_0000_0000i64) as i32
    }
}

fn u64_to_words(v: u64) -> (r: (u32, u32))
    ensures
        r.0 == lo32(v),
        r.1 == hi32(v),
{
    proof {
        lemma_u64_words(v);
    }
    ((v & 0xFFFF_FFFFu64) as u32, (v >> 32u64) as u32)
}

fn words_to_u64(lo: u32, hi: u32) -> (v: u64)
    ensures
        v == cat32(lo, hi),
{
    ((hi as u64) << 32u64) | (lo as u64)
}

} // verus!

verus! {

// ---------------------------------------------------------------------------
// Flat components: fixed-size runs of words.
// ---------------------------------------------------------------------------

pub open spec fn enc_rect(x: IntRect) -> Seq<u32> {
    seq![word_of_i32(x.x), word_of_i32(x.y), word_of_i32(x.width), word_of_i32(x.height)]
}

pub open spec fn dec_rect(w: Seq<u32>, p: int) -> Option<(IntRect, int)> {
    if 0 <= p && p + 4 <= w.len() {
        Some((
            IntRect {
                x: i32_of_word(w[p]),
                y: i32_of_word(w[p + 1]),
                width: i32_of_word(w[p + 2]),
                height: i32_of_word(w[p + 3]),
            },
            p + 4,
        ))
    } else {
        None
    }
}

pub proof fn lemma_dec_enc_rect(w: Seq<u32>, p: int, x: IntRect)
    requires
        0 <= p,
        p + 4 <= w.len(),
        w.subrange(p, p + 4) == enc_rect(x),
    ensures
        dec_rect(w, p) == Some((x, p + 4)),
{
    assert(w.subrange(p, p + 4)[0] == w[p]);
    assert(w.subrange(p, p + 4)[1] == w[p + 1]);
    assert(w.subrange(p, p + 4)[2] == w[p + 2]);
    assert(w.subrange(p, p + 4)[3] == w[p + 3]);
}

fn write_rect(out: &mut Vec<u32>, x: &IntRect)
    ensures
        final(out)@ == old(out)@ + enc_rect(*x),
{
    out.push(i32_to_word(x.x));
    out.push(i32_to_word(x.y));
    out.push(i32_to_word(x.width));
    out.push(i32_to_word(x.height));
    assert(out@ =~= old(out)@ + enc_rect(*x));
}

fn read_rect(w: &Vec<u32>, pos: usize) -> (r: Option<(IntRect, usize)>)
    requires
        pos <= w@.len(),
    ensures
        r is Some <==> dec_rect(w@, pos as int) is Some,
        r matches Some((x, p2)) ==> dec_rect(w@, pos as int) == Some((x, p2 as int)),
        r matches Some((x, p2)) ==> p2 <= w@.len(),
{
    if w.len() - pos >= 4 {
        let x = IntRect {
            x: word_to_i32(w[pos]),
            y: word_to_i32(w[pos + 1]),
            width: word_to_i32(w[pos + 2]),
            height: word_to_i32(w[pos + 3]),
        };
        Some((x, pos + 4))
    } else {
        None
    }
}

pub open spec fn enc_point(x: IntPoint) -> Seq<u32> {
    seq![word_of_i32(x.x), word_of_i32(x.y)]
}

pub open spec fn dec_point(w: Seq<u32>, p: int) -> Option<(IntPoint, int)> {
    if 0 <= p && p + 2 <= w.len() {
        Some((IntPoint { x: i32_of_word(w[p]), y: i32_of_word(w[p + 1]) }, p + 2))
    } else {
        None
    }
}

pub proof fn lemma_dec_enc_point(w: Seq<u32>, p: int, x: IntPoint)
    requires
        0 <= p,
        p + 2 <= w.len(),
        w.subrange(p, p + 2) == enc_point(x),
    ensures
        dec_point(w, p) == Some((x, p + 2)),
{
    assert(w.subrange(p, p + 2)[0] == w[p]);
    assert(w.subrange(p, p + 2)[1] == w[p + 1]);
}

fn write_point(out: &mut Vec<u32>, x: &IntPoint)
    ensures
        final(out)@ == old(out)@ + enc_point(*x),
{
    out.push(i32_to_word(x.x));
    out.push(i32_to_word(x.y));
    assert(out@ =~= old(out)@ + enc_point(*x));
}

fn read_point(w: &Vec<u32>, pos: usize) -> (r: Option<(IntPoint, usize)>)
    requires
        pos <= w@.len(),
    ensures
        r is Some <==> dec_point(w@, pos as int) is Some,
        r matches Some((x, p2)) ==> dec_point(w@, pos as int) == Some((x, p2 as int)),
        r matches Some((x, p2)) ==> p2 <= w@.len(),
{
    if w.len() - pos >= 2 {
        Some((IntPoint { x: word_to_i32(w[pos]), y: word_to_i32(w[pos + 1]) }, pos + 2))
    } else {
        None
    }
}

pub open spec fn enc_size(x: IntSize) -> Seq<u32> {
    seq![word_of_i32(x.width), word_of_i32(x.height)]
}

pub open spec fn dec_size(w: Seq<u32>, p: int) -> Option<(IntSize, int)> {
    if 0 <= p && p + 2 <= w.len() {
        Some((IntSize { width: i32_of_word(w[p]), height: i32_of_word(w[p + 1]) }, p + 2))
    } else {
        None
    }
}

pub proof fn lemma_dec_enc_size(w: Seq<u32>, p: int, x: IntSize)
    requires
        0 <= p,
        p + 2 <= w.len(),
        w.subrange(p, p + 2) == enc_size(x),
    ensures
        dec_size(w, p) == Some((x, p + 2)),
{
    assert(w.subrange(p, p + 2)[0] == w[p]);
    assert(w.subrange(p, p + 2)[1] == w[p + 1]);
}

fn write_size(out: &mut Vec<u32>, x: &IntSize)
    ensures
        final(out)@ == old(out)@ + enc_size(*x),
{
    out.push(i32_to_word(x.width));
    out.push(i32_to_word(x.height));
    assert(out@ =~= old(out)@ + enc_size(*x));
}

fn read_size(w: &Vec<u32>, pos: usize) -> (r: Option<(IntSize, usize)>)
    requires
        pos <= w@.len(),
    ensures
        r is Some <==> dec_size(w@, pos as int) is Some,
        r matches Some((x, p2)) ==> dec_size(w@, pos as int) == Some((x, p2 as int)),
        r matches Some((x, p2)) ==> p2 <= w@.len(),
{
    if w.len() - pos >= 2 {
        Some((IntSize { width: word_to_i32(w[pos]), height: word_to_i32(w[pos + 1]) }, pos + 2))
    } else {
        None
    }
}

pub open spec fn enc_offsets(x: SideOffsets) -> Seq<u32> {
    seq![word_of_i32(x.top), word_of_i32(x.right), word_of_i32(x.bottom), word_of_i32(x.left)]
}

pub open spec fn dec_offsets(w: Seq<u32>, p: int) -> Option<(SideOffsets, int)> {
    if 0 <= p && p + 4 <= w.len() {
        Some((
            SideOffsets {
                top: i32_of_word(w[p]),
                right: i32_of_word(w[p + 1]),
                bottom: i32_of_word(w[p + 2]),
                left: i32_of_word(w[p + 3]),
            },
            p + 4,
        ))
    } else {
        None
    }
}

pub proof fn lemma_dec_enc_offsets(w: Seq<u32>, p: int, x: SideOffsets)
    requires
        0 <= p,
        p + 4 <= w.len(),
        w.subrange(p, p + 4) == enc_offsets(x),
    ensures
        dec_offsets(w, p) == Some((x, p + 4)),
{
    assert(w.subrange(p, p + 4)[0] == w[p]);
    assert(w.subrange(p, p + 4)[1] == w[p + 1]);
    assert(w.subrange(p, p + 4)[2] == w[p + 2]);
    assert(w.subrange(p, p + 4)[3] == w[p + 3]);
}

fn write_offsets(out: &mut Vec<u32>, x: &SideOffsets)
    ensures
        final(out)@ == old(out)@ + enc_offsets(*x),
{
    out.push(i32_to_word(x.top));
    out.push(i32_to_word(x.right));
    out.push(i32_to_word(x.bottom));
    out.push(i32_to_word(x.left));
    assert(out@ =~= old(out)@ + enc_offsets(*x));
}

fn read_offsets(w: &Vec<u32>, pos: usize) -> (r: Option<(SideOffsets, usize)>)
    requires
        pos <= w@.len(),
    ensures
        r is Some <==> dec_offsets(w@, pos as int) is Some,
        r matches Some((x, p2)) ==> dec_offsets(w@, pos as int) == Some((x, p2 as int)),
        r matches Some((x, p2)) ==> p2 <= w@.len(),
{
    if w.len() - pos >= 4 {
        let x = SideOffsets {
            top: word_to_i32(w[pos]),
            right: word_to_i32(w[pos + 1]),
            bottom: word_to_i32(w[pos + 2]),
            left: word_to_i32(w[pos + 3]),
        };
        Some((x, pos + 4))
    } else {
        None
    }
}

pub open spec fn enc_color(x: ColorValue) -> Seq<u32> {
    seq![x.r as u32, x.g as u32, x.b as u32, x.a as u32]
}

pub open spec fn dec_color(w: Seq<u32>, p: int) -> Option<(ColorValue, int)> {
    if 0 <= p && p + 4 <= w.len() && w[p] <= 255 && w[p + 1] <= 255 && w[p + 2] <= 255 && w[p
        + 3] <= 255 {
        Some((
            ColorValue {
                r: w[p] as u8,
                g: w[p + 1] as u8,
                b: w[p + 2] as u8,
                a: w[p + 3] as u8,
            },
            p + 4,
        ))
    } else {
        None
    }
}

pub proof fn lemma_dec_enc_color(w: Seq<u32>, p: int, x: ColorValue)
    requires
        0 <= p,
        p + 4 <= w.len(),
        w.subrange(p, p + 4) == enc_color(x),
    ensures
        dec_color(w, p) == Some((x, p + 4)),
{
    assert(w.subrange(p, p + 4)[0] == w[p]);
    assert(w.subrange(p, p + 4)[1] == w[p + 1]);
    assert(w.subrange(p, p + 4)[2] == w[p + 2]);
    assert(w.subrange(p, p + 4)[3] == w[p + 3]);
}

fn write_color(out: &mut Vec<u32>, x: &ColorValue)
    ensures
        final(out)@ == old(out)@ + enc_color(*x),
{
    out.push(x.r as u32);
    out.push(x.g as u32);
    out.push(x.b as u32);
    out.push(x.a as u32);
    assert(out@ =~= old(out)@ + enc_color(*x));
}

fn read_color(w: &Vec<u32>, pos: usize) -> (r: Option<(ColorValue, usize)>)
    requires
        pos <= w@.len(),
    ensures
        r is Some <==> dec_color(w@, pos as int) is Some,
        r matches Some((x, p2)) ==> dec_color(w@, pos as int) == Some((x, p2 as int)),
        r matches Some((x, p2)) ==> p2 <= w@.len(),
{
    if w.len() - pos >= 4 {
        let r0 = w[pos];
        let g0 = w[pos + 1];
        let b0 = w[pos + 2];
        let a0 = w[pos + 3];
        if r0 <= 255 && g0 <= 255 && b0 <= 255 && a0 <= 255 {
            Some((
                ColorValue { r: r0 as u8, g: g0 as u8, b: b0 as u8, a: a0 as u8 },
                pos + 4,
            ))
        } else {
            None
        }
    } else {
        None
    }
}

pub open spec fn enc_image_key(x: ImageKey) -> Seq<u32> {
    seq![x.namespace, x.handle]
}

pub open spec fn dec_image_key(w: Seq<u32>, p: int) -> Option<(ImageKey, int)> {
    if 0 <= p && p + 2 <= w.len() {
        Some((ImageKey { namespace: w[p], handle: w[p + 1] }, p + 2))
    } else {
        None
    }
}

pub proof fn lemma_dec_enc_image_key(w: Seq<u32>, p: int, x: ImageKey)
    requires
        0 <= p,
        p + 2 <= w.len(),
        w.subrange(p, p + 2) == enc_image_key(x),
    ensures
        dec_image_key(w, p) == Some((x, p + 2)),
{
    assert(w.subrange(p, p + 2)[0] == w[p]);
    assert(w.subrange(p, p + 2)[1] == w[p + 1]);
}

fn write_image_key(out: &mut Vec<u32>, x: &ImageKey)
    ensures
        final(out)@ == old(out)@ + enc_image_key(*x),
{
    out.push(x.namespace);
    out.push(x.handle);
    assert(out@ =~= old(out)@ + enc_image_key(*x));
}

fn read_image_key(w: &Vec<u32>, pos: usize) -> (r: Option<(ImageKey, usize)>)
    requires
        pos <= w@.len(),
    ensures
        r is Some <==> dec_image_key(w@, pos as int) is Some,
        r matches Some((x, p2)) ==> dec_image_key(w@, pos as int) == Some((x, p2 as int)),
        r matches Some((x, p2)) ==> p2 <= w@.len(),
{
    if w.len() - pos >= 2 {
        Some((ImageKey { namespace: w[pos], handle: w[pos + 1] }, pos + 2))
    } else {
        None
    }
}

pub open spec fn enc_font_key(x: FontKey) -> Seq<u32> {
    seq![x.namespace, x.handle]
}

pub open spec fn dec_font_key(w: Seq<u32>, p: int) -> Option<(FontKey, int)> {
    if 0 <= p && p + 2 <= w.len() {
        Some((FontKey { namespace: w[p], handle: w[p + 1] }, p + 2))
    } else {
        None
    }
}

pub proof fn lemma_dec_enc_font_key(w: Seq<u32>, p: int, x: FontKey)
    requires
        0 <= p,
        p + 2 <= w.len(),
        w.subrange(p, p + 2) == enc_font_key(x),
    ensures
        dec_font_key(w, p) == Some((x, p + 2)),
{
    assert(w.subrange(p, p + 2)[0] == w[p]);
    assert(w.subrange(p, p + 2)[1] == w[p + 1]);
}

fn write_font_key(out: &mut Vec<u32>, x: &FontKey)
    ensures
        final(out)@ == old(out)@ + enc_font_key(*x),
{
    out.push(x.namespace);
    out.push(x.handle);
    assert(out@ =~= old(out)@ + enc_font_key(*x));
}

fn read_font_key(w: &Vec<u32>, pos: usize) -> (r: Option<(FontKey, usize)>)
    requires
        pos <= w@.len(),
    ensures
        r is Some <==> dec_font_key(w@, pos as int) is Some,
        r matches Some((x, p2)) ==> dec_font_key(w@, pos as int) == Some((x, p2 as int)),
        r matches Some((x, p2)) ==> p2 <= w@.len(),
{
    if w.len() - pos >= 2 {
        Some((FontKey { namespace: w[pos], handle: w[pos + 1] }, pos + 2))
    } else {
        None
    }
}

pub open spec fn enc_scene_id(x: SceneId) -> Seq<u32> {
    seq![x.namespace, x.handle]
}

pub open spec fn dec_scene_id(w: Seq<u32>, p: int) -> Option<(SceneId, int)> {
    if 0 <= p && p + 2 <= w.len() {
        Some((SceneId { namespace: w[p], handle: w[p + 1] }, p + 2))
    } else {
        None
    }
}

pub proof fn lemma_dec_enc_scene_id(w: Seq<u32>, p: int, x: SceneId)
    requires
        0 <= p,
        p + 2 <= w.len(),
        w.subrange(p, p + 2) == enc_scene_id(x),
    ensures
        dec_scene_id(w, p) == Some((x, p + 2)),
{
    assert(w.subrange(p, p + 2)[0] == w[p]);
    assert(w.subrange(p, p + 2)[1] == w[p + 1]);
}

fn write_scene_id(out: &mut Vec<u32>, x: &SceneId)
    ensures
        final(out)@ == old(out)@ + enc_scene_id(*x),
{
    out.push(x.namespace);
    out.push(x.handle);
    assert(out@ =~= old(out)@ + enc_scene_id(*x));
}

fn read_scene_id(w: &Vec<u32>, pos: usize) -> (r: Option<(SceneId, usize)>)
    requires
        pos <= w@.len(),
    ensures
        r is Some <==> dec_scene_id(w@, pos as int) is Some,
        r matches Some((x, p2)) ==> dec_scene_id(w@, pos as int) == Some((x, p2 as int)),
        r matches Some((x, p2)) ==> p2 <= w@.len(),
{
    if w.len() - pos >= 2 {
        Some((SceneId { namespace: w[pos], handle: w[pos + 1] }, pos + 2))
    } else {
        None
    }
}

pub open spec fn enc_range(x: ItemRange) -> Seq<u32> {
    seq![
        lo32(x.start as u64),
        hi32(x.start as u64),
        lo32(x.length as u64),
        hi32(x.length as u64),
    ]
}

pub open spec fn dec_range(w: Seq<u32>, p: int) -> Option<(ItemRange, int)> {
    if 0 <= p && p + 4 <= w.len() && cat32(w[p], w[p + 1]) <= usize::MAX && cat32(
        w[p + 2],
        w[p + 3],
    ) <= usize::MAX {
        Some((
            ItemRange {
                start: cat32(w[p], w[p + 1]) as usize,
                length: cat32(w[p + 2], w[p + 3]) as usize,
            },
            p + 4,
        ))
    } else {
        None
    }
}

pub proof fn lemma_dec_enc_range(w: Seq<u32>, p: int, x: ItemRange)
    requires
        0 <= p,
        p + 4 <= w.len(),
        w.subrange(p, p + 4) == enc_range(x),
    ensures
        dec_range(w, p) == Some((x, p + 4)),
{
    assert(w.subrange(p, p + 4)[0] == w[p]);
    assert(w.subrange(p, p + 4)[1] == w[p + 1]);
    assert(w.subrange(p, p + 4)[2] == w[p + 2]);
    assert(w.subrange(p, p + 4)[3] == w[p + 3]);
    lemma_u64_words(x.start as u64);
    lemma_u64_words(x.length as u64);
}

fn write_range(out: &mut Vec<u32>, x: &ItemRange)
    ensures
        final(out)@ == old(out)@ + enc_range(*x),
{
    let (slo, shi) = u64_to_words(x.start as u64);
    let (llo, lhi) = u64_to_words(x.length as u64);
    out.push(slo);
    out.push(shi);
    out.push(llo);
    out.push(lhi);
    assert(out@ =~= old(out)@ + enc_range(*x));
}

fn read_range(w: &Vec<u32>, pos: usize) -> (r: Option<(ItemRange, usize)>)
    requires
        pos <= w@.len(),
    ensures
        r is Some <==> dec_range(w@, pos as int) is Some,
        r matches Some((x, p2)) ==> dec_range(w@, pos as int) == Some((x, p2 as int)),
        r matches Some((x, p2)) ==> p2 <= w@.len(),
{
    if w.len() - pos >= 4 {
        let start64 = words_to_u64(w[pos], w[pos + 1]);
        let length64 = words_to_u64(w[pos + 2], w[pos + 3]);
        if start64 <= usize::MAX as u64 && length64 <= usize::MAX as u64 {
            Some((ItemRange { start: start64 as usize, length: length64 as usize }, pos + 4))
        } else {
            None
        }
    } else {
        None
    }
}

pub open spec fn enc_matrix(x: TransformMatrix) -> Seq<u32> {
    seq![
        x.m00, x.m01, x.m02, x.m03,
        x.m10, x.m11, x.m12, x.m13,
        x.m20, x.m21, x.m22, x.m23,
        x.m30, x.m31, x.m32, x.m33,
    ]
}

pub open spec fn dec_matrix(w: Seq<u32>, p: int) -> Option<(TransformMatrix, int)> {
    if 0 <= p && p + 16 <= w.len() {
        Some((
            TransformMatrix {
                m00: w[p], m01: w[p + 1], m02: w[p + 2], m03: w[p + 3],
                m10: w[p + 4], m11: w[p + 5], m12: w[p + 6], m13: w[p + 7],
                m20: w[p + 8], m21: w[p + 9], m22: w[p + 10], m23: w[p + 11],
                m30: w[p + 12], m31: w[p + 13], m32: w[p + 14], m33: w[p + 15],
            },
            p + 16,
        ))
    } else {
        None
    }
}

pub proof fn lemma_dec_enc_matrix(w: Seq<u32>, p: int, x: TransformMatrix)
    requires
        0 <= p,
        p + 16 <= w.len(),
        w.subrange(p, p + 16) == enc_matrix(x),
    ensures
        dec_matrix(w, p) == Some((x, p + 16)),
{
    assert forall|i: int| 0 <= i < 16 implies #[trigger] w.subrange(p, p + 16)[i] == w[p + i] by {}
}

fn write_matrix(out: &mut Vec<u32>, x: &TransformMatrix)
    ensures
        final(out)@ == old(out)@ + enc_matrix(*x),
{
    out.push(x.m00);
    out.push(x.m01);
    out.push(x.m02);
    out.push(x.m03);
    out.push(x.m10);
    out.push(x.m11);
    out.push(x.m12);
    out.push(x.m13);
    out.push(x.m20);
    out.push(x.m21);
    out.push(x.m22);
    out.push(x.m23);
    out.push(x.m30);
    out.push(x.m31);
    out.push(x.m32);
    out.push(x.m33);
    assert(out@ =~= old(out)@ + enc_matrix(*x));
}

fn read_matrix(w: &Vec<u32>, pos: usize) -> (r: Option<(TransformMatrix, usize)>)
    requires
        pos <= w@.len(),
    ensures
        r is Some <==> dec_matrix(w@, pos as int) is Some,
        r matches Some((x, p2)) ==> dec_matrix(w@, pos as int) == Some((x, p2 as int)),
        r matches Some((x, p2)) ==> p2 <= w@.len(),
{
    if w.len() - pos >= 16 {
        let x = TransformMatrix {
            m00: w[pos], m01: w[pos + 1], m02: w[pos + 2], m03: w[pos + 3],
            m10: w[pos + 4], m11: w[pos + 5], m12: w[pos + 6], m13: w[pos + 7],
            m20: w[pos + 8], m21: w[pos + 9], m22: w[pos + 10], m23: w[pos + 11],
            m30: w[pos + 12], m31: w[pos + 13], m32: w[pos + 14], m33: w[pos + 15],
        };
        Some((x, pos + 16))
    } else {
        None
    }
}

} // verus!

verus! {

// ---------------------------------------------------------------------------
// Enum codes.
// ---------------------------------------------------------------------------

pub open spec fn code_of_blend(x: MixBlendMode) -> u32 {
    match x {
        MixBlendMode::Normal => 0,
        MixBlendMode::Multiply => 1,
        MixBlendMode::Screen => 2,
        MixBlendMode::Overlay => 3,
        MixBlendMode::Darken => 4,
        MixBlendMode::Lighten => 5,
        MixBlendMode::ColorDodge => 6,
        MixBlendMode::ColorBurn => 7,
        MixBlendMode::HardLight => 8,
        MixBlendMode::SoftLight => 9,
        MixBlendMode::Difference => 10,
        MixBlendMode::Exclusion => 11,
        MixBlendMode::Hue => 12,
        MixBlendMode::Saturation => 13,
        MixBlendMode::Color => 14,
        MixBlendMode::Luminosity => 15,
    }
}

pub open spec fn blend_of_code(v: u32) -> Option<MixBlendMode> {
    if v == 0 {
        Some(MixBlendMode::Normal)
    } else if v == 1 {
        Some(MixBlendMode::Multiply)
    } else if v == 2 {
        Some(MixBlendMode::Screen)
    } else if v == 3 {
        Some(MixBlendMode::Overlay)
    } else if v == 4 {
        Some(MixBlendMode::Darken)
    } else if v == 5 {
        Some(MixBlendMode::Lighten)
    } else if v == 6 {
        Some(MixBlendMode::ColorDodge)
    } else if v == 7 {
        Some(MixBlendMode::ColorBurn)
    } else if v == 8 {
        Some(MixBlendMode::HardLight)
    } else if v == 9 {
        Some(MixBlendMode::SoftLight)
    } else if v == 10 {
        Some(MixBlendMode::Difference)
    } else if v == 11 {
        Some(MixBlendMode::Exclusion)
    } else if v == 12 {
        Some(MixBlendMode::Hue)
    } else if v == 13 {
        Some(MixBlendMode::Saturation)
    } else if v == 14 {
        Some(MixBlendMode::Color)
    } else if v == 15 {
        Some(MixBlendMode::Luminosity)
    } else {
        None
    }
}

fn blend_to_word(x: &MixBlendMode) -> (r: u32)
    ensures
        r == code_of_blend(*x),
{
    match x {
        MixBlendMode::Normal => 0,
        MixBlendMode::Multiply => 1,
        MixBlendMode::Screen => 2,
        MixBlendMode::Overlay => 3,
        MixBlendMode::Darken => 4,
        MixBlendMode::Lighten => 5,
        MixBlendMode::ColorDodge => 6,
        MixBlendMode::ColorBurn => 7,
        MixBlendMode::HardLight => 8,
        MixBlendMode::SoftLight => 9,
        MixBlendMode::Difference => 10,
        MixBlendMode::Exclusion => 11,
        MixBlendMode::Hue => 12,
        MixBlendMode::Saturation => 13,
        MixBlendMode::Color => 14,
        MixBlendMode::Luminosity => 15,
    }
}

fn blend_from_word(v: u32) -> (r: Option<MixBlendMode>)
    ensures
        r == blend_of_code(v),
{
    if v == 0 {
        Some(MixBlendMode::Normal)
    } else if v == 1 {
        Some(MixBlendMode::Multiply)
    } else if v == 2 {
        Some(MixBlendMode::Screen)
    } else if v == 3 {
        Some(MixBlendMode::Overlay)
    } else if v == 4 {
        Some(MixBlendMode::Darken)
    } else if v == 5 {
        Some(MixBlendMode::Lighten)
    } else if v == 6 {
        Some(MixBlendMode::ColorDodge)
    } else if v == 7 {
        Some(MixBlendMode::ColorBurn)
    } else if v == 8 {
        Some(MixBlendMode::HardLight)
    } else if v == 9 {
        Some(MixBlendMode::SoftLight)
    } else if v == 10 {
        Some(MixBlendMode::Difference)
    } else if v == 11 {
        Some(MixBlendMode::Exclusion)
    } else if v == 12 {
        Some(MixBlendMode::Hue)
    } else if v == 13 {
        Some(MixBlendMode::Saturation)
    } else if v == 14 {
        Some(MixBlendMode::Color)
    } else if v == 15 {
        Some(MixBlendMode::Luminosity)
    } else {
        None
    }
}

pub open spec fn code_of_rendering(x: ImageRendering) -> u32 {
    match x {
        ImageRendering::Auto => 0,
        ImageRendering::CrispEdges => 1,
        ImageRendering::Pixelated => 2,
    }
}

pub open spec fn rendering_of_code(v: u32) -> Option<ImageRendering> {
    if v == 0 {
        Some(ImageRendering::Auto)
    } else if v == 1 {
        Some(ImageRendering::CrispEdges)
    } else if v == 2 {
        Some(ImageRendering::Pixelated)
    } else {
        None
    }
}

fn rendering_to_word(x: &ImageRendering) -> (r: u32)
    ensures
        r == code_of_rendering(*x),
{
    match x {
        ImageRendering::Auto => 0,
        ImageRendering::CrispEdges => 1,
        ImageRendering::Pixelated => 2,
    }
}

fn rendering_from_word(v: u32) -> (r: Option<ImageRendering>)
    ensures
        r == rendering_of_code(v),
{
    if v == 0 {
        Some(ImageRendering::Auto)
    } else if v == 1 {
        Some(ImageRendering::CrispEdges)
    } else if v == 2 {
        Some(ImageRendering::Pixelated)
    } else {
        None
    }
}

pub open spec fn code_of_border_style(x: BorderStyle) -> u32 {
    match x {
        BorderStyle::NoBorder => 0,
        BorderStyle::Solid => 1,
        BorderStyle::Double => 2,
        BorderStyle::Dotted => 3,
        BorderStyle::Dashed => 4,
        BorderStyle::Hidden => 5,
        BorderStyle::Groove => 6,
        BorderStyle::Ridge => 7,
        BorderStyle::Inset => 8,
        BorderStyle::Outset => 9,
    }
}

pub open spec fn border_style_of_code(v: u32) -> Option<BorderStyle> {
    if v == 0 {
        Some(BorderStyle::NoBorder)
    } else if v == 1 {
        Some(BorderStyle::Solid)
    } else if v == 2 {
        Some(BorderStyle::Double)
    } else if v == 3 {
        Some(BorderStyle::Dotted)
    } else if v == 4 {
        Some(BorderStyle::Dashed)
    } else if v == 5 {
        Some(BorderStyle::Hidden)
    } else if v == 6 {
        Some(BorderStyle::Groove)
    } else if v == 7 {
        Some(BorderStyle::Ridge)
    } else if v == 8 {
        Some(BorderStyle::Inset)
    } else if v == 9 {
        Some(BorderStyle::Outset)
    } else {
        None
    }
}

fn border_style_to_word(x: &BorderStyle) -> (r: u32)
    ensures
        r == code_of_border_style(*x),
{
    match x {
        BorderStyle::NoBorder => 0,
        BorderStyle::Solid => 1,
        BorderStyle::Double => 2,
        BorderStyle::Dotted => 3,
        BorderStyle::Dashed => 4,
        BorderStyle::Hidden => 5,
        BorderStyle::Groove => 6,
        BorderStyle::Ridge => 7,
        BorderStyle::Inset => 8,
        BorderStyle::Outset => 9,
    }
}

fn border_style_from_word(v: u32) -> (r: Option<BorderStyle>)
    ensures
        r == border_style_of_code(v),
{
    if v == 0 {
        Some(BorderStyle::NoBorder)
    } else if v == 1 {
        Some(BorderStyle::Solid)
    } else if v == 2 {
        Some(BorderStyle::Double)
    } else if v == 3 {
        Some(BorderStyle::Dotted)
    } else if v == 4 {
        Some(BorderStyle::Dashed)
    } else if v == 5 {
        Some(BorderStyle::Hidden)
    } else if v == 6 {
        Some(BorderStyle::Groove)
    } else if v == 7 {
        Some(BorderStyle::Ridge)
    } else if v == 8 {
        Some(BorderStyle::Inset)
    } else if v == 9 {
        Some(BorderStyle::Outset)
    } else {
        None
    }
}

pub open spec fn code_of_repeat(x: RepeatMode) -> u32 {
    match x {
        RepeatMode::Stretch => 0,
        RepeatMode::Repeat => 1,
        RepeatMode::Round => 2,
        RepeatMode::Space => 3,
    }
}

pub open spec fn repeat_of_code(v: u32) -> Option<RepeatMode> {
    if v == 0 {
        Some(RepeatMode::Stretch)
    } else if v == 1 {
        Some(RepeatMode::Repeat)
    } else if v == 2 {
        Some(RepeatMode::Round)
    } else if v == 3 {
        Some(RepeatMode::Space)
    } else {
        None
    }
}

fn repeat_to_word(x: &RepeatMode) -> (r: u32)
    ensures
        r == code_of_repeat(*x),
{
    match x {
        RepeatMode::Stretch => 0,
        RepeatMode::Repeat => 1,
        RepeatMode::Round => 2,
        RepeatMode::Space => 3,
    }
}

fn repeat_from_word(v: u32) -> (r: Option<RepeatMode>)
    ensures
        r == repeat_of_code(v),
{
    if v == 0 {
        Some(RepeatMode::Stretch)
    } else if v == 1 {
        Some(RepeatMode::Repeat)
    } else if v == 2 {
        Some(RepeatMode::Round)
    } else if v == 3 {
        Some(RepeatMode::Space)
    } else {
        None
    }
}

pub open spec fn code_of_extend(x: ExtendMode) -> u32 {
    match x {
        ExtendMode::Clamp => 0,
        ExtendMode::Repeat => 1,
    }
}

pub open spec fn extend_of_code(v: u32) -> Option<ExtendMode> {
    if v == 0 {
        Some(ExtendMode::Clamp)
    } else if v == 1 {
        Some(ExtendMode::Repeat)
    } else {
        None
    }
}

fn extend_to_word(x: &ExtendMode) -> (r: u32)
    ensures
        r == code_of_extend(*x),
{
    match x {
        ExtendMode::Clamp => 0,
        ExtendMode::Repeat => 1,
    }
}

fn extend_from_word(v: u32) -> (r: Option<ExtendMode>)
    ensures
        r == extend_of_code(v),
{
    if v == 0 {
        Some(ExtendMode::Clamp)
    } else if v == 1 {
        Some(ExtendMode::Repeat)
    } else {
        None
    }
}

pub open spec fn code_of_shadow_mode(x: BoxShadowClipMode) -> u32 {
    match x {
        BoxShadowClipMode::NoClip => 0,
        BoxShadowClipMode::Outset => 1,
        BoxShadowClipMode::Inset => 2,
    }
}

pub open spec fn shadow_mode_of_code(v: u32) -> Option<BoxShadowClipMode> {
    if v == 0 {
        Some(BoxShadowClipMode::NoClip)
    } else if v == 1 {
        Some(BoxShadowClipMode::Outset)
    } else if v == 2 {
        Some(BoxShadowClipMode::Inset)
    } else {
        None
    }
}

fn shadow_mode_to_word(x: &BoxShadowClipMode) -> (r: u32)
    ensures
        r == code_of_shadow_mode(*x),
{
    match x {
        BoxShadowClipMode::NoClip => 0,
        BoxShadowClipMode::Outset => 1,
        BoxShadowClipMode::Inset => 2,
    }
}

fn shadow_mode_from_word(v: u32) -> (r: Option<BoxShadowClipMode>)
    ensures
        r == shadow_mode_of_code(v),
{
    if v == 0 {
        Some(BoxShadowClipMode::NoClip)
    } else if v == 1 {
        Some(BoxShadowClipMode::Outset)
    } else if v == 2 {
        Some(BoxShadowClipMode::Inset)
    } else {
        None
    }
}

// ---------------------------------------------------------------------------
// Splitting a run of words that is a concatenation.
// ---------------------------------------------------------------------------

/// If the words at `p` hold `s1 + s2`, they hold `s1` and then `s2`.
pub proof fn lemma_split_concat<T>(w: Seq<T>, p: int, s1: Seq<T>, s2: Seq<T>)
    requires
        0 <= p,
        p + s1.len() + s2.len() <= w.len(),
        w.subrange(p, p + s1.len() + s2.len()) == s1 + s2,
    ensures
        w.subrange(p, p + s1.len() as int) == s1,
        w.subrange(p + s1.len() as int, p + s1.len() + s2.len()) == s2,
{
    let l1 = s1.len() as int;
    let l2 = s2.len() as int;
    assert forall|i: int| 0 <= i < l1 implies #[trigger] w.subrange(p, p + l1)[i] == s1[i] by {
        assert(w.subrange(p, p + l1 + l2)[i] == (s1 + s2)[i]);
        assert(w.subrange(p, p + l1)[i] == w[p + i]);
        assert(w.subrange(p, p + l1 + l2)[i] == w[p + i]);
    }
    assert(w.subrange(p, p + l1) =~= s1);
    assert forall|i: int| 0 <= i < l2 implies #[trigger] w.subrange(p + l1, p + l1 + l2)[i]
        == s2[i] by {
        assert(w.subrange(p, p + l1 + l2)[l1 + i] == (s1 + s2)[l1 + i]);
        assert(w.subrange(p + l1, p + l1 + l2)[i] == w[p + l1 + i]);
        assert(w.subrange(p, p + l1 + l2)[l1 + i] == w[p + l1 + i]);
    }
    assert(w.subrange(p + l1, p + l1 + l2) =~= s2);
}

} // verus!

verus! {

// ---------------------------------------------------------------------------
// Paint components.
// ---------------------------------------------------------------------------

pub open spec fn enc_side(x: BorderSide) -> Seq<u32> {
    seq![
        x.color.r as u32,
        x.color.g as u32,
        x.color.b as u32,
        x.color.a as u32,
        code_of_border_style(x.style),
    ]
}

pub open spec fn dec_side(w: Seq<u32>, p: int) -> Option<(BorderSide, int)> {
    if 0 <= p && p + 5 <= w.len() && w[p] <= 255 && w[p + 1] <= 255 && w[p + 2] <= 255 && w[p
        + 3] <= 255 {
        match border_style_of_code(w[p + 4]) {
            Some(style) => Some((
                BorderSide {
                    color: ColorValue {
                        r: w[p] as u8,
                        g: w[p + 1] as u8,
                        b: w[p + 2] as u8,
                        a: w[p + 3] as u8,
                    },
                    style,
                },
                p + 5,
            )),
            None => None,
        }
    } else {
        None
    }
}

pub proof fn lemma_dec_enc_side(w: Seq<u32>, p: int, x: BorderSide)
    requires
        0 <= p,
        p + 5 <= w.len(),
        w.subrange(p, p + 5) == enc_side(x),
    ensures
        dec_side(w, p) == Some((x, p + 5)),
{
    assert(w.subrange(p, p + 5)[0] == w[p]);
    assert(w.subrange(p, p + 5)[1] == w[p + 1]);
    assert(w.subrange(p, p + 5)[2] == w[p + 2]);
    assert(w.subrange(p, p + 5)[3] == w[p + 3]);
    assert(w.subrange(p, p + 5)[4] == w[p + 4]);
}

fn write_side(out: &mut Vec<u32>, x: &BorderSide)
    ensures
        final(out)@ == old(out)@ + enc_side(*x),
{
    out.push(x.color.r as u32);
    out.push(x.color.g as u32);
    out.push(x.color.b as u32);
    out.push(x.color.a as u32);
    out.push(border_style_to_word(&x.style));
    assert(out@ =~= old(out)@ + enc_side(*x));
}

fn read_side(w: &Vec<u32>, pos: usize) -> (r: Option<(BorderSide, usize)>)
    requires
        pos <= w@.len(),
    ensures
        r is Some <==> dec_side(w@, pos as int) is Some,
        r matches Some((x, p2)) ==> dec_side(w@, pos as int) == Some((x, p2 as int)),
        r matches Some((x, p2)) ==> p2 <= w@.len(),
{
    if w.len() - pos >= 5 {
        let r0 = w[pos];
        let g0 = w[pos + 1];
        let b0 = w[pos + 2];
        let a0 = w[pos + 3];
        if r0 <= 255 && g0 <= 255 && b0 <= 255 && a0 <= 255 {
            match border_style_from_word(w[pos + 4]) {
                Some(style) => Some((
                    BorderSide {
                        color: ColorValue { r: r0 as u8, g: g0 as u8, b: b0 as u8, a: a0 as u8 },
                        style,
                    },
                    pos + 5,
                )),
                None => None,
            }
        } else {
            None
        }
    } else {
        None
    }
}

pub open spec fn enc_radius(x: BorderRadius) -> Seq<u32> {
    seq![
        word_of_i32(x.top_left.width),
        word_of_i32(x.top_left.height),
        word_of_i32(x.top_right.width),
        word_of_i32(x.top_right.height),
        word_of_i32(x.bottom_left.width),
        word_of_i32(x.bottom_left.height),
        word_of_i32(x.bottom_right.width),
        word_of_i32(x.bottom_right.height),
    ]
}

pub open spec fn dec_radius(w: Seq<u32>, p: int) -> Option<(BorderRadius, int)> {
    if 0 <= p && p + 8 <= w.len() {
        Some((
            BorderRadius {
                top_left: IntSize { width: i32_of_word(w[p]), height: i32_of_word(w[p + 1]) },
                top_right: IntSize {
                    width: i32_of_word(w[p + 2]),
                    height: i32_of_word(w[p + 3]),
                },
                bottom_left: IntSize {
                    width: i32_of_word(w[p + 4]),
                    height: i32_of_word(w[p + 5]),
                },
                bottom_right: IntSize {
                    width: i32_of_word(w[p + 6]),
                    height: i32_of_word(w[p + 7]),
                },
            },
            p + 8,
        ))
    } else {
        None
    }
}

pub proof fn lemma_dec_enc_radius(w: Seq<u32>, p: int, x: BorderRadius)
    requires
        0 <= p,
        p + 8 <= w.len(),
        w.subrange(p, p + 8) == enc_radius(x),
    ensures
        dec_radius(w, p) == Some((x, p + 8)),
{
    assert forall|i: int| 0 <= i < 8 implies #[trigger] w.subrange(p, p + 8)[i] == w[p + i] by {}
}

fn write_radius(out: &mut Vec<u32>, x: &BorderRadius)
    ensures
        final(out)@ == old(out)@ + enc_radius(*x),
{
    out.push(i32_to_word(x.top_left.width));
    out.push(i32_to_word(x.top_left.height));
    out.push(i32_to_word(x.top_right.width));
    out.push(i32_to_word(x.top_right.height));
    out.push(i32_to_word(x.bottom_left.width));
    out.push(i32_to_word(x.bottom_left.height));
    out.push(i32_to_word(x.bottom_right.width));
    out.push(i32_to_word(x.bottom_right.height));
    assert(out@ =~= old(out)@ + enc_radius(*x));
}

fn read_radius(w: &Vec<u32>, pos: usize) -> (r: Option<(BorderRadius, usize)>)
    requires
        pos <= w@.len(),
    ensures
        r is Some <==> dec_radius(w@, pos as int) is Some,
        r matches Some((x, p2)) ==> dec_radius(w@, pos as int) == Some((x, p2 as int)),
        r matches Some((x, p2)) ==> p2 <= w@.len(),
{
    if w.len() - pos >= 8 {
        let x = BorderRadius {
            top_left: IntSize { width: word_to_i32(w[pos]), height: word_to_i32(w[pos + 1]) },
            top_right: IntSize {
                width: word_to_i32(w[pos + 2]),
                height: word_to_i32(w[pos + 3]),
            },
            bottom_left: IntSize {
                width: word_to_i32(w[pos + 4]),
                height: word_to_i32(w[pos + 5]),
            },
            bottom_right: IntSize {
                width: word_to_i32(w[pos + 6]),
                height: word_to_i32(w[pos + 7]),
            },
        };
        Some((x, pos + 8))
    } else {
        None
    }
}

pub open spec fn enc_ninepatch(x: NinePatchDescriptor) -> Seq<u32> {
    seq![
        x.width,
        x.height,
        word_of_i32(x.slice.top),
        word_of_i32(x.slice.right),
        word_of_i32(x.slice.bottom),
        word_of_i32(x.slice.left),
    ]
}

pub open spec fn dec_ninepatch(w: Seq<u32>, p: int) -> Option<(NinePatchDescriptor, int)> {
    if 0 <= p && p + 6 <= w.len() {
        Some((
            NinePatchDescriptor {
                width: w[p],
                height: w[p + 1],
                slice: SideOffsets {
                    top: i32_of_word(w[p + 2]),
                    right: i32_of_word(w[p + 3]),
                    bottom: i32_of_word(w[p + 4]),
                    left: i32_of_word(w[p + 5]),
                },
            },
            p + 6,
        ))
    } else {
        None
    }
}

pub proof fn lemma_dec_enc_ninepatch(w: Seq<u32>, p: int, x: NinePatchDescriptor)
    requires
        0 <= p,
        p + 6 <= w.len(),
        w.subrange(p, p + 6) == enc_ninepatch(x),
    ensures
        dec_ninepatch(w, p) == Some((x, p + 6)),
{
    assert forall|i: int| 0 <= i < 6 implies #[trigger] w.subrange(p, p + 6)[i] == w[p + i] by {}
}

fn write_ninepatch(out: &mut Vec<u32>, x: &NinePatchDescriptor)
    ensures
        final(out)@ == old(out)@ + enc_ninepatch(*x),
{
    out.push(x.width);
    out.push(x.height);
    out.push(i32_to_word(x.slice.top));
    out.push(i32_to_word(x.slice.right));
    out.push(i32_to_word(x.slice.bottom));
    out.push(i32_to_word(x.slice.left));
    assert(out@ =~= old(out)@ + enc_ninepatch(*x));
}

fn read_ninepatch(w: &Vec<u32>, pos: usize) -> (r: Option<(NinePatchDescriptor, usize)>)
    requires
        pos <= w@.len(),
    ensures
        r is Some <==> dec_ninepatch(w@, pos as int) is Some,
        r matches Some((x, p2)) ==> dec_ninepatch(w@, pos as int) == Some((x, p2 as int)),
        r matches Some((x, p2)) ==> p2 <= w@.len(),
{
    if w.len() - pos >= 6 {
        let x = NinePatchDescriptor {
            width: w[pos],
            height: w[pos + 1],
            slice: SideOffsets {
                top: word_to_i32(w[pos + 2]),
                right: word_to_i32(w[pos + 3]),
                bottom: word_to_i32(w[pos + 4]),
                left: word_to_i32(w[pos + 5]),
            },
        };
        Some((x, pos + 6))
    } else {
        None
    }
}

// ---------------------------------------------------------------------------
// Clip regions: the serialized form is a presence flag plus a dummy mask;
// the dummy words are never read back when the flag is clear.
// ---------------------------------------------------------------------------

pub open spec fn enc_mask_slot(mask: Option<ImageMask>) -> Seq<u32> {
    match mask {
        Some(m) => seq![
            1u32,
            m.image.namespace,
            m.image.handle,
            word_of_i32(m.rect.x),
            word_of_i32(m.rect.y),
            word_of_i32(m.rect.width),
            word_of_i32(m.rect.height),
            word_of_bool(m.repeat),
        ],
        None => seq![0u32, 0u32, 0u32, 0u32, 0u32, 0u32, 0u32, 0u32],
    }
}

pub open spec fn enc_clip(c: ClipRegion) -> Seq<u32> {
    enc_rect(c.main) + enc_range(c.complex) + enc_mask_slot(c.mask)
}

pub open spec fn dec_clip(w: Seq<u32>, p: int) -> Option<(ClipRegion, int)> {
    match dec_rect(w, p) {
        None => None,
        Some((main, p1)) => match dec_range(w, p1) {
            None => None,
            Some((complex, p2)) => {
                if p2 + 8 <= w.len() {
                    if w[p2] == 0 {
                        Some((ClipRegion { main, complex, mask: None }, p2 + 8))
                    } else if w[p2] == 1 && w[p2 + 7] <= 1 {
                        Some((
                            ClipRegion {
                                main,
                                complex,
                                mask: Some(
                                    ImageMask {
                                        image: ImageKey {
                                            namespace: w[p2 + 1],
                                            handle: w[p2 + 2],
                                        },
                                        rect: IntRect {
                                            x: i32_of_word(w[p2 + 3]),
                                            y: i32_of_word(w[p2 + 4]),
                                            width: i32_of_word(w[p2 + 5]),
                                            height: i32_of_word(w[p2 + 6]),
                                        },
                                        repeat: w[p2 + 7] == 1,
                                    },
                                ),
                            },
                            p2 + 8,
                        ))
                    } else {
                        None
                    }
                } else {
                    None
                }
            },
        },
    }
}

pub proof fn lemma_dec_enc_clip(w: Seq<u32>, p: int, x: ClipRegion)
    requires
        0 <= p,
        p + 16 <= w.len(),
        w.subrange(p, p + 16) == enc_clip(x),
    ensures
        dec_clip(w, p) == Some((x, p + 16)),
{
    let a = enc_rect(x.main);
    let b = enc_range(x.complex);
    let c = enc_mask_slot(x.mask);
    assert(w.subrange(p, p + 16) =~= (a + b) + c);
    lemma_split_concat(w, p, a + b, c);
    lemma_split_concat(w, p, a, b);
    lemma_dec_enc_rect(w, p, x.main);
    lemma_dec_enc_range(w, p + 4, x.complex);
    let p2 = p + 8;
    assert forall|i: int| 0 <= i < 8 implies #[trigger] w.subrange(p2, p2 + 8)[i] == w[p2
        + i] by {}
    match x.mask {
        Some(m) => {
            assert(w[p2] == 1);
            assert(w[p2 + 7] == word_of_bool(m.repeat));
        },
        None => {
            assert(w[p2] == 0);
        },
    }
}

fn write_clip(out: &mut Vec<u32>, x: &ClipRegion)
    ensures
        final(out)@ == old(out)@ + enc_clip(*x),
{
    write_rect(out, &x.main);
    write_range(out, &x.complex);
    match &x.mask {
        Some(m) => {
            out.push(1u32);
            out.push(m.image.namespace);
            out.push(m.image.handle);
            out.push(i32_to_word(m.rect.x));
            out.push(i32_to_word(m.rect.y));
            out.push(i32_to_word(m.rect.width));
            out.push(i32_to_word(m.rect.height));
            out.push(if m.repeat {
                1u32
            } else {
                0u32
            });
        },
        None => {
            out.push(0u32);
            out.push(0u32);
            out.push(0u32);
            out.push(0u32);
            out.push(0u32);
            out.push(0u32);
            out.push(0u32);
            out.push(0u32);
        },
    }
    assert(out@ =~= old(out)@ + enc_clip(*x));
}

fn read_clip(w: &Vec<u32>, pos: usize) -> (r: Option<(ClipRegion, usize)>)
    requires
        pos <= w@.len(),
    ensures
        r is Some <==> dec_clip(w@, pos as int) is Some,
        r matches Some((x, p2)) ==> dec_clip(w@, pos as int) == Some((x, p2 as int)),
        r matches Some((x, p2)) ==> p2 <= w@.len(),
{
    let main = match read_rect(w, pos) {
        Some(v) => v,
        None => {
            return None;
        },
    };
    let complex = match read_range(w, main.1) {
        Some(v) => v,
        None => {
            return None;
        },
    };
    let p2 = complex.1;
    if w.len() - p2 >= 8 {
        let flag = w[p2];
        if flag == 0 {
            Some((ClipRegion { main: main.0, complex: complex.0, mask: None }, p2 + 8))
        } else if flag == 1 && w[p2 + 7] <= 1 {
            let mask = ImageMask {
                image: ImageKey { namespace: w[p2 + 1], handle: w[p2 + 2] },
                rect: IntRect {
                    x: word_to_i32(w[p2 + 3]),
                    y: word_to_i32(w[p2 + 4]),
                    width: word_to_i32(w[p2 + 5]),
                    height: word_to_i32(w[p2 + 6]),
                },
                repeat: w[p2 + 7] == 1,
            };
            Some((ClipRegion { main: main.0, complex: complex.0, mask: Some(mask) }, p2 + 8))
        } else {
            None
        }
    } else {
        None
    }
}

} // verus!

verus! {

// ---------------------------------------------------------------------------
// Animatable property slots and gradient geometry.
// ---------------------------------------------------------------------------

pub open spec fn enc_opacity(x: OpacityFilter) -> Seq<u32> {
    match x {
        OpacityFilter::Opaque => seq![0u32, 0u32, 0u32],
        OpacityFilter::Literal(v) => seq![1u32, word_of_i32(v), 0u32],
        OpacityFilter::Binding(k) => seq![2u32, lo32(k), hi32(k)],
    }
}

pub open spec fn dec_opacity(w: Seq<u32>, p: int) -> Option<(OpacityFilter, int)> {
    if 0 <= p && p + 3 <= w.len() {
        if w[p] == 0 {
            Some((OpacityFilter::Opaque, p + 3))
        } else if w[p] == 1 {
            Some((OpacityFilter::Literal(i32_of_word(w[p + 1])), p + 3))
        } else if w[p] == 2 {
            Some((OpacityFilter::Binding(cat32(w[p + 1], w[p + 2])), p + 3))
        } else {
            None
        }
    } else {
        None
    }
}

pub proof fn lemma_dec_enc_opacity(w: Seq<u32>, p: int, x: OpacityFilter)
    requires
        0 <= p,
        p + 3 <= w.len(),
        w.subrange(p, p + 3) == enc_opacity(x),
    ensures
        dec_opacity(w, p) == Some((x, p + 3)),
{
    assert(w.subrange(p, p + 3)[0] == w[p]);
    assert(w.subrange(p, p + 3)[1] == w[p + 1]);
    assert(w.subrange(p, p + 3)[2] == w[p + 2]);
    if let OpacityFilter::Binding(k) = x {
        lemma_u64_words(k);
    }
}

fn write_opacity(out: &mut Vec<u32>, x: &OpacityFilter)
    ensures
        final(out)@ == old(out)@ + enc_opacity(*x),
{
    match x {
        OpacityFilter::Opaque => {
            out.push(0u32);
            out.push(0u32);
            out.push(0u32);
        },
        OpacityFilter::Literal(v) => {
            out.push(1u32);
            out.push(i32_to_word(*v));
            out.push(0u32);
        },
        OpacityFilter::Binding(k) => {
            let (lo, hi) = u64_to_words(*k);
            out.push(2u32);
            out.push(lo);
            out.push(hi);
        },
    }
    assert(out@ =~= old(out)@ + enc_opacity(*x));
}

fn read_opacity(w: &Vec<u32>, pos: usize) -> (r: Option<(OpacityFilter, usize)>)
    requires
        pos <= w@.len(),
    ensures
        r is Some <==> dec_opacity(w@, pos as int) is Some,
        r matches Some((x, p2)) ==> dec_opacity(w@, pos as int) == Some((x, p2 as int)),
        r matches Some((x, p2)) ==> p2 <= w@.len(),
{
    if w.len() - pos >= 3 {
        let tag = w[pos];
        if tag == 0 {
            Some((OpacityFilter::Opaque, pos + 3))
        } else if tag == 1 {
            Some((OpacityFilter::Literal(word_to_i32(w[pos + 1])), pos + 3))
        } else if tag == 2 {
            Some((OpacityFilter::Binding(words_to_u64(w[pos + 1], w[pos + 2])), pos + 3))
        } else {
            None
        }
    } else {
        None
    }
}

pub open spec fn enc_transform(x: TransformSlot) -> Seq<u32> {
    match x {
        TransformSlot::Identity => seq![0u32],
        TransformSlot::Literal(m) => seq![1u32] + enc_matrix(m),
        TransformSlot::Binding(k) => seq![2u32, lo32(k), hi32(k)],
    }
}

pub open spec fn dec_transform(w: Seq<u32>, p: int) -> Option<(TransformSlot, int)> {
    if 0 <= p && p + 1 <= w.len() {
        if w[p] == 0 {
            Some((TransformSlot::Identity, p + 1))
        } else if w[p] == 1 {
            match dec_matrix(w, p + 1) {
                Some((m, p2)) => Some((TransformSlot::Literal(m), p2)),
                None => None,
            }
        } else if w[p] == 2 {
            if p + 3 <= w.len() {
                Some((TransformSlot::Binding(cat32(w[p + 1], w[p + 2])), p + 3))
            } else {
                None
            }
        } else {
            None
        }
    } else {
        None
    }
}

pub proof fn lemma_dec_enc_transform(w: Seq<u32>, p: int, x: TransformSlot)
    requires
        0 <= p,
        p + enc_transform(x).len() <= w.len(),
        w.subrange(p, p + enc_transform(x).len()) == enc_transform(x),
    ensures
        dec_transform(w, p) == Some((x, p + enc_transform(x).len())),
{
    match x {
        TransformSlot::Identity => {
            assert(w.subrange(p, p + 1)[0] == w[p]);
        },
        TransformSlot::Literal(m) => {
            assert(w.subrange(p, p + 17) =~= seq![1u32] + enc_matrix(m));
            lemma_split_concat(w, p, seq![1u32], enc_matrix(m));
            assert(w.subrange(p, p + 1)[0] == w[p]);
            lemma_dec_enc_matrix(w, p + 1, m);
        },
        TransformSlot::Binding(k) => {
            assert(w.subrange(p, p + 3)[0] == w[p]);
            assert(w.subrange(p, p + 3)[1] == w[p + 1]);
            assert(w.subrange(p, p + 3)[2] == w[p + 2]);
            lemma_u64_words(k);
        },
    }
}

fn write_transform(out: &mut Vec<u32>, x: &TransformSlot)
    ensures
        final(out)@ == old(out)@ + enc_transform(*x),
{
    match x {
        TransformSlot::Identity => {
            out.push(0u32);
        },
        TransformSlot::Literal(m) => {
            out.push(1u32);
            write_matrix(out, m);
        },
        TransformSlot::Binding(k) => {
            let (lo, hi) = u64_to_words(*k);
            out.push(2u32);
            out.push(lo);
            out.push(hi);
        },
    }
    assert(out@ =~= old(out)@ + enc_transform(*x));
}

fn read_transform(w: &Vec<u32>, pos: usize) -> (r: Option<(TransformSlot, usize)>)
    requires
        pos <= w@.len(),
    ensures
        r is Some <==> dec_transform(w@, pos as int) is Some,
        r matches Some((x, p2)) ==> dec_transform(w@, pos as int) == Some((x, p2 as int)),
        r matches Some((x, p2)) ==> p2 <= w@.len(),
{
    if w.len() - pos >= 1 {
        let tag = w[pos];
        if tag == 0 {
            Some((TransformSlot::Identity, pos + 1))
        } else if tag == 1 {
            match read_matrix(w, pos + 1) {
                Some((m, p2)) => Some((TransformSlot::Literal(m), p2)),
                None => None,
            }
        } else if tag == 2 {
            if w.len() - pos >= 3 {
                Some((TransformSlot::Binding(words_to_u64(w[pos + 1], w[pos + 2])), pos + 3))
            } else {
                None
            }
        } else {
            None
        }
    } else {
        None
    }
}

pub open spec fn enc_geometry(x: GradientGeometry) -> Seq<u32> {
    match x {
        GradientGeometry::Linear { start, end } => seq![
            0u32,
            word_of_i32(start.x),
            word_of_i32(start.y),
            word_of_i32(end.x),
            word_of_i32(end.y),
        ],
        GradientGeometry::Radial { center, radius } => seq![
            1u32,
            word_of_i32(center.x),
            word_of_i32(center.y),
            word_of_i32(radius.width),
            word_of_i32(radius.height),
        ],
    }
}

pub open spec fn dec_geometry(w: Seq<u32>, p: int) -> Option<(GradientGeometry, int)> {
    if 0 <= p && p + 5 <= w.len() {
        if w[p] == 0 {
            Some((
                GradientGeometry::Linear {
                    start: IntPoint { x: i32_of_word(w[p + 1]), y: i32_of_word(w[p + 2]) },
                    end: IntPoint { x: i32_of_word(w[p + 3]), y: i32_of_word(w[p + 4]) },
                },
                p + 5,
            ))
        } else if w[p] == 1 {
            Some((
                GradientGeometry::Radial {
                    center: IntPoint { x: i32_of_word(w[p + 1]), y: i32_of_word(w[p + 2]) },
                    radius: IntSize {
                        width: i32_of_word(w[p + 3]),
                        height: i32_of_word(w[p + 4]),
                    },
                },
                p + 5,
            ))
        } else {
            None
        }
    } else {
        None
    }
}

pub proof fn lemma_dec_enc_geometry(w: Seq<u32>, p: int, x: GradientGeometry)
    requires
        0 <= p,
        p + 5 <= w.len(),
        w.subrange(p, p + 5) == enc_geometry(x),
    ensures
        dec_geometry(w, p) == Some((x, p + 5)),
{
    assert forall|i: int| 0 <= i < 5 implies #[trigger] w.subrange(p, p + 5)[i] == w[p + i] by {}
}

fn write_geometry(out: &mut Vec<u32>, x: &GradientGeometry)
    ensures
        final(out)@ == old(out)@ + enc_geometry(*x),
{
    match x {
        GradientGeometry::Linear { start, end } => {
            out.push(0u32);
            out.push(i32_to_word(start.x));
            out.push(i32_to_word(start.y));
            out.push(i32_to_word(end.x));
            out.push(i32_to_word(end.y));
        },
        GradientGeometry::Radial { center, radius } => {
            out.push(1u32);
            out.push(i32_to_word(center.x));
            out.push(i32_to_word(center.y));
            out.push(i32_to_word(radius.width));
            out.push(i32_to_word(radius.height));
        },
    }
    assert(out@ =~= old(out)@ + enc_geometry(*x));
}

fn read_geometry(w: &Vec<u32>, pos: usize) -> (r: Option<(GradientGeometry, usize)>)
    requires
        pos <= w@.len(),
    ensures
        r is Some <==> dec_geometry(w@, pos as int) is Some,
        r matches Some((x, p2)) ==> dec_geometry(w@, pos as int) == Some((x, p2 as int)),
        r matches Some((x, p2)) ==> p2 <= w@.len(),
{
    if w.len() - pos >= 5 {
        let tag = w[pos];
        if tag == 0 {
            Some((
                GradientGeometry::Linear {
                    start: IntPoint { x: word_to_i32(w[pos + 1]), y: word_to_i32(w[pos + 2]) },
                    end: IntPoint { x: word_to_i32(w[pos + 3]), y: word_to_i32(w[pos + 4]) },
                },
                pos + 5,
            ))
        } else if tag == 1 {
            Some((
                GradientGeometry::Radial {
                    center: IntPoint { x: word_to_i32(w[pos + 1]), y: word_to_i32(w[pos + 2]) },
                    radius: IntSize {
                        width: word_to_i32(w[pos + 3]),
                        height: word_to_i32(w[pos + 4]),
                    },
                },
                pos + 5,
            ))
        } else {
            None
        }
    } else {
        None
    }
}

} // verus!

verus! {

// ---------------------------------------------------------------------------
// Border details and stacking contexts.
// ---------------------------------------------------------------------------

pub open spec fn enc_details(x: BorderDetails) -> Seq<u32> {
    match x {
        BorderDetails::Normal { top, right, bottom, left, radius } => seq![0u32] + enc_side(top)
            + enc_side(right) + enc_side(bottom) + enc_side(left) + enc_radius(radius),
        BorderDetails::Image { image, patch, outset, repeat_horizontal, repeat_vertical } => seq![
            1u32,
        ] + enc_image_key(image) + enc_ninepatch(patch) + enc_offsets(outset) + seq![
            code_of_repeat(repeat_horizontal),
            code_of_repeat(repeat_vertical),
        ],
        BorderDetails::Gradient { geometry, stops, extend_mode, outset } => seq![2u32]
            + enc_geometry(geometry) + enc_range(stops) + seq![code_of_extend(extend_mode)]
            + enc_offsets(outset),
    }
}

pub open spec fn dec_details(w: Seq<u32>, p: int) -> Option<(BorderDetails, int)> {
    if 0 <= p && p + 1 <= w.len() {
        if w[p] == 0 {
            match dec_side(w, p + 1) {
                None => None,
                Some((top, p1)) => match dec_side(w, p1) {
                    None => None,
                    Some((right, p2)) => match dec_side(w, p2) {
                        None => None,
                        Some((bottom, p3)) => match dec_side(w, p3) {
                            None => None,
                            Some((left, p4)) => match dec_radius(w, p4) {
                                None => None,
                                Some((radius, p5)) => Some((
                                    BorderDetails::Normal { top, right, bottom, left, radius },
                                    p5,
                                )),
                            },
                        },
                    },
                },
            }
        } else if w[p] == 1 {
            match dec_image_key(w, p + 1) {
                None => None,
                Some((image, p1)) => match dec_ninepatch(w, p1) {
                    None => None,
                    Some((patch, p2)) => match dec_offsets(w, p2) {
                        None => None,
                        Some((outset, p3)) => if p3 + 2 <= w.len() {
                            match (repeat_of_code(w[p3]), repeat_of_code(w[p3 + 1])) {
                                (Some(rh), Some(rv)) => Some((
                                    BorderDetails::Image {
                                        image,
                                        patch,
                                        outset,
                                        repeat_horizontal: rh,
                                        repeat_vertical: rv,
                                    },
                                    p3 + 2,
                                )),
                                _ => None,
                            }
                        } else {
                            None
                        },
                    },
                },
            }
        } else if w[p] == 2 {
            match dec_geometry(w, p + 1) {
                None => None,
                Some((geometry, p1)) => match dec_range(w, p1) {
                    None => None,
                    Some((stops, p2)) => if p2 + 1 <= w.len() {
                        match extend_of_code(w[p2]) {
                            None => None,
                            Some(extend_mode) => match dec_offsets(w, p2 + 1) {
                                None => None,
                                Some((outset, p3)) => Some((
                                    BorderDetails::Gradient {
                                        geometry,
                                        stops,
                                        extend_mode,
                                        outset,
                                    },
                                    p3,
                                )),
                            },
                        }
                    } else {
                        None
                    },
                },
            }
        } else {
            None
        }
    } else {
        None
    }
}

#[verifier::rlimit(60)]
pub proof fn lemma_dec_enc_details(w: Seq<u32>, p: int, x: BorderDetails)
    requires
        0 <= p,
        p + enc_details(x).len() <= w.len(),
        w.subrange(p, p + enc_details(x).len()) == enc_details(x),
    ensures
        dec_details(w, p) == Some((x, p + enc_details(x).len())),
{
    match x {
        BorderDetails::Normal { top, right, bottom, left, radius } => {
            let t = seq![0u32];
            let a = enc_side(top);
            let b = enc_side(right);
            let c = enc_side(bottom);
            let d = enc_side(left);
            let e = enc_radius(radius);
            assert(w.subrange(p, p + 29) =~= t + (a + (b + (c + (d + e)))));
            lemma_split_concat(w, p, t, a + (b + (c + (d + e))));
            assert(w.subrange(p, p + 1)[0] == w[p]);
            lemma_split_concat(w, p + 1, a, b + (c + (d + e)));
            lemma_dec_enc_side(w, p + 1, top);
            lemma_split_concat(w, p + 6, b, c + (d + e));
            lemma_dec_enc_side(w, p + 6, right);
            lemma_split_concat(w, p + 11, c, d + e);
            lemma_dec_enc_side(w, p + 11, bottom);
            lemma_split_concat(w, p + 16, d, e);
            lemma_dec_enc_side(w, p + 16, left);
            lemma_dec_enc_radius(w, p + 21, radius);
        },
        BorderDetails::Image { image, patch, outset, repeat_horizontal, repeat_vertical } => {
            let t = seq![1u32];
            let a = enc_image_key(image);
            let b = enc_ninepatch(patch);
            let c = enc_offsets(outset);
            let d = seq![code_of_repeat(repeat_horizontal), code_of_repeat(repeat_vertical)];
            assert(w.subrange(p, p + 15) =~= t + (a + (b + (c + d))));
            lemma_split_concat(w, p, t, a + (b + (c + d)));
            assert(w.subrange(p, p + 1)[0] == w[p]);
            lemma_split_concat(w, p + 1, a, b + (c + d));
            lemma_dec_enc_image_key(w, p + 1, image);
            lemma_split_concat(w, p + 3, b, c + d);
            lemma_dec_enc_ninepatch(w, p + 3, patch);
            lemma_split_concat(w, p + 9, c, d);
            lemma_dec_enc_offsets(w, p + 9, outset);
            assert(w.subrange(p + 13, p + 15)[0] == w[p + 13]);
            assert(w.subrange(p + 13, p + 15)[1] == w[p + 14]);
        },
        BorderDetails::Gradient { geometry, stops, extend_mode, outset } => {
            let t = seq![2u32];
            let a = enc_geometry(geometry);
            let b = enc_range(stops);
            let c = seq![code_of_extend(extend_mode)];
            let d = enc_offsets(outset);
            assert(w.subrange(p, p + 15) =~= t + (a + (b + (c + d))));
            lemma_split_concat(w, p, t, a + (b + (c + d)));
            assert(w.subrange(p, p + 1)[0] == w[p]);
            lemma_split_concat(w, p + 1, a, b + (c + d));
            lemma_dec_enc_geometry(w, p + 1, geometry);
            lemma_split_concat(w, p + 6, b, c + d);
            lemma_dec_enc_range(w, p + 6, stops);
            lemma_split_concat(w, p + 10, c, d);
            assert(w.subrange(p + 10, p + 11)[0] == w[p + 10]);
            lemma_dec_enc_offsets(w, p + 11, outset);
        },
    }
}

fn write_details(out: &mut Vec<u32>, x: &BorderDetails)
    ensures
        final(out)@ == old(out)@ + enc_details(*x),
{
    match x {
        BorderDetails::Normal { top, right, bottom, left, radius } => {
            out.push(0u32);
            write_side(out, top);
            write_side(out, right);
            write_side(out, bottom);
            write_side(out, left);
            write_radius(out, radius);
        },
        BorderDetails::Image { image, patch, outset, repeat_horizontal, repeat_vertical } => {
            out.push(1u32);
            write_image_key(out, image);
            write_ninepatch(out, patch);
            write_offsets(out, outset);
            out.push(repeat_to_word(repeat_horizontal));
            out.push(repeat_to_word(repeat_vertical));
        },
        BorderDetails::Gradient { geometry, stops, extend_mode, outset } => {
            out.push(2u32);
            write_geometry(out, geometry);
            write_range(out, stops);
            out.push(extend_to_word(extend_mode));
            write_offsets(out, outset);
        },
    }
    assert(out@ =~= old(out)@ + enc_details(*x));
}

fn read_details(w: &Vec<u32>, pos: usize) -> (r: Option<(BorderDetails, usize)>)
    requires
        pos <= w@.len(),
    ensures
        r is Some <==> dec_details(w@, pos as int) is Some,
        r matches Some((x, p2)) ==> dec_details(w@, pos as int) == Some((x, p2 as int)),
        r matches Some((x, p2)) ==> p2 <= w@.len(),
{
    if w.len() - pos < 1 {
        return None;
    }
    let tag = w[pos];
    if tag == 0 {
        let (top, p1) = match read_side(w, pos + 1) {
            Some(v) => v,
            None => {
                return None;
            },
        };
        let (right, p2) = match read_side(w, p1) {
            Some(v) => v,
            None => {
                return None;
            },
        };
        let (bottom, p3) = match read_side(w, p2) {
            Some(v) => v,
            None => {
                return None;
            },
        };
        let (left, p4) = match read_side(w, p3) {
            Some(v) => v,
            None => {
                return None;
            },
        };
        let (radius, p5) = match read_radius(w, p4) {
            Some(v) => v,
            None => {
                return None;
            },
        };
        Some((BorderDetails::Normal { top, right, bottom, left, radius }, p5))
    } else if tag == 1 {
        let (image, p1) = match read_image_key(w, pos + 1) {
            Some(v) => v,
            None => {
                return None;
            },
        };
        let (patch, p2) = match read_ninepatch(w, p1) {
            Some(v) => v,
            None => {
                return None;
            },
        };
        let (outset, p3) = match read_offsets(w, p2) {
            Some(v) => v,
            None => {
                return None;
            },
        };
        if w.len() - p3 < 2 {
            return None;
        }
        let rh = match repeat_from_word(w[p3]) {
            Some(v) => v,
            None => {
                return None;
            },
        };
        let rv = match repeat_from_word(w[p3 + 1]) {
            Some(v) => v,
            None => {
                return None;
            },
        };
        Some((
            BorderDetails::Image {
                image,
                patch,
                outset,
                repeat_horizontal: rh,
                repeat_vertical: rv,
            },
            p3 + 2,
        ))
    } else if tag == 2 {
        let (geometry, p1) = match read_geometry(w, pos + 1) {
            Some(v) => v,
            None => {
                return None;
            },
        };
        let (stops, p2) = match read_range(w, p1) {
            Some(v) => v,
            None => {
                return None;
            },
        };
        if w.len() - p2 < 1 {
            return None;
        }
        let extend_mode = match extend_from_word(w[p2]) {
            Some(v) => v,
            None => {
                return None;
            },
        };
        let (outset, p3) = match read_offsets(w, p2 + 1) {
            Some(v) => v,
            None => {
                return None;
            },
        };
        Some((BorderDetails::Gradient { geometry, stops, extend_mode, outset }, p3))
    } else {
        None
    }
}

pub open spec fn enc_sc(x: StackingContext) -> Seq<u32> {
    enc_rect(x.bounds) + seq![word_of_i32(x.z_index)] + enc_transform(x.transform) + seq![
        code_of_blend(x.blend_mode),
    ] + enc_opacity(x.opacity)
}

pub open spec fn dec_sc(w: Seq<u32>, p: int) -> Option<(StackingContext, int)> {
    match dec_rect(w, p) {
        None => None,
        Some((bounds, p1)) => if p1 + 1 <= w.len() {
            let z_index = i32_of_word(w[p1]);
            match dec_transform(w, p1 + 1) {
                None => None,
                Some((transform, p2)) => if p2 + 1 <= w.len() {
                    match blend_of_code(w[p2]) {
                        None => None,
                        Some(blend_mode) => match dec_opacity(w, p2 + 1) {
                            None => None,
                            Some((opacity, p3)) => Some((
                                StackingContext { bounds, z_index, transform, blend_mode, opacity },
                                p3,
                            )),
                        },
                    }
                } else {
                    None
                },
            }
        } else {
            None
        },
    }
}

pub proof fn lemma_dec_enc_sc(w: Seq<u32>, p: int, x: StackingContext)
    requires
        0 <= p,
        p + enc_sc(x).len() <= w.len(),
        w.subrange(p, p + enc_sc(x).len()) == enc_sc(x),
    ensures
        dec_sc(w, p) == Some((x, p + enc_sc(x).len())),
{
    let a = enc_rect(x.bounds);
    let b = seq![word_of_i32(x.z_index)];
    let c = enc_transform(x.transform);
    let d = seq![code_of_blend(x.blend_mode)];
    let e = enc_opacity(x.opacity);
    let n = enc_sc(x).len() as int;
    let cl = c.len() as int;
    assert(w.subrange(p, p + n) =~= a + (b + (c + (d + e))));
    lemma_split_concat(w, p, a, b + (c + (d + e)));
    lemma_dec_enc_rect(w, p, x.bounds);
    lemma_split_concat(w, p + 4, b, c + (d + e));
    assert(w.subrange(p + 4, p + 5)[0] == w[p + 4]);
    lemma_split_concat(w, p + 5, c, d + e);
    lemma_dec_enc_transform(w, p + 5, x.transform);
    lemma_split_concat(w, p + 5 + cl, d, e);
    assert(w.subrange(p + 5 + cl, p + 5 + cl + 1)[0] == w[p + 5 + cl]);
    lemma_dec_enc_opacity(w, p + 6 + cl, x.opacity);
}

fn write_sc(out: &mut Vec<u32>, x: &StackingContext)
    ensures
        final(out)@ == old(out)@ + enc_sc(*x),
{
    write_rect(out, &x.bounds);
    out.push(i32_to_word(x.z_index));
    write_transform(out, &x.transform);
    out.push(blend_to_word(&x.blend_mode));
    write_opacity(out, &x.opacity);
    assert(out@ =~= old(out)@ + enc_sc(*x));
}

fn read_sc(w: &Vec<u32>, pos: usize) -> (r: Option<(StackingContext, usize)>)
    requires
        pos <= w@.len(),
    ensures
        r is Some <==> dec_sc(w@, pos as int) is Some,
        r matches Some((x, p2)) ==> dec_sc(w@, pos as int) == Some((x, p2 as int)),
        r matches Some((x, p2)) ==> p2 <= w@.len(),
{
    let (bounds, p1) = match read_rect(w, pos) {
        Some(v) => v,
        None => {
            return None;
        },
    };
    if w.len() - p1 < 1 {
        return None;
    }
    let z_index = word_to_i32(w[p1]);
    let (transform, p2) = match read_transform(w, p1 + 1) {
        Some(v) => v,
        None => {
            return None;
        },
    };
    if w.len() - p2 < 1 {
        return None;
    }
    let blend_mode = match blend_from_word(w[p2]) {
        Some(v) => v,
        None => {
            return None;
        },
    };
    let (opacity, p3) = match read_opacity(w, p2 + 1) {
        Some(v) => v,
        None => {
            return None;
        },
    };
    Some((StackingContext { bounds, z_index, transform, blend_mode, opacity }, p3))
}

} // verus!

verus! {

// ---------------------------------------------------------------------------
// Commands.
// ---------------------------------------------------------------------------

pub open spec fn enc_cmd(x: Command) -> Seq<u32> {
    match x {
        Command::PushStackingContext(sc) => seq![0u32] + enc_sc(sc),
        Command::PopStackingContext => seq![1u32],
        Command::PushClipNode { content, clip } => seq![2u32] + enc_rect(content) + enc_clip(
            clip,
        ),
        Command::PopClipNode => seq![3u32],
        Command::Rect { rect, clip, color } => seq![4u32] + enc_rect(rect) + enc_clip(clip)
            + enc_color(color),
        Command::Image { bounds, clip, stretch_size, tile_spacing, rendering, key } => seq![5u32]
            + enc_rect(bounds) + enc_clip(clip) + enc_size(stretch_size) + enc_size(tile_spacing)
            + seq![code_of_rendering(rendering)] + enc_image_key(key),
        Command::Text { bounds, clip, color, font, size, glyphs } => seq![6u32] + enc_rect(bounds)
            + enc_clip(clip) + enc_color(color) + enc_font_key(font) + seq![word_of_i32(size)]
            + enc_range(glyphs),
        Command::Border { rect, clip, widths, details } => seq![7u32] + enc_rect(rect) + enc_clip(
            clip,
        ) + enc_offsets(widths) + enc_details(details),
        Command::Gradient { rect, clip, geometry, stops, extend_mode, tile_size, tile_spacing } =>
            seq![8u32] + enc_rect(rect) + enc_clip(clip) + enc_geometry(geometry) + enc_range(stops)
            + seq![code_of_extend(extend_mode)] + enc_size(tile_size) + enc_size(tile_spacing),
        Command::BoxShadow {
            rect,
            clip,
            box_bounds,
            offset,
            color,
            blur_radius,
            spread_radius,
            border_radius,
            clip_mode,
        } => seq![9u32] + enc_rect(rect) + enc_clip(clip) + enc_rect(box_bounds) + enc_point(
            offset,
        ) + enc_color(color) + seq![
            word_of_i32(blur_radius),
            word_of_i32(spread_radius),
            word_of_i32(border_radius),
            code_of_shadow_mode(clip_mode),
        ],
        Command::Iframe { rect, clip, pipeline } => seq![10u32] + enc_rect(rect) + enc_clip(clip)
            + enc_scene_id(pipeline),
    }
}

pub open spec fn dec_cmd(w: Seq<u32>, p: int) -> Option<(Command, int)> {
    if 0 <= p && p + 1 <= w.len() {
        let tag = w[p];
        if tag == 0 {
            match dec_sc(w, p + 1) {
                None => None,
                Some((sc, p1)) => Some((Command::PushStackingContext(sc), p1)),
            }
        } else if tag == 1 {
            Some((Command::PopStackingContext, p + 1))
        } else if tag == 2 {
            match dec_rect(w, p + 1) {
                None => None,
                Some((content, p1)) => match dec_clip(w, p1) {
                    None => None,
                    Some((clip, p2)) => Some((Command::PushClipNode { content, clip }, p2)),
                },
            }
        } else if tag == 3 {
            Some((Command::PopClipNode, p + 1))
        } else if tag == 4 {
            match dec_rect(w, p + 1) {
                None => None,
                Some((rect, p1)) => match dec_clip(w, p1) {
                    None => None,
                    Some((clip, p2)) => match dec_color(w, p2) {
                        None => None,
                        Some((color, p3)) => Some((Command::Rect { rect, clip, color }, p3)),
                    },
                },
            }
        } else if tag == 5 {
            match dec_rect(w, p + 1) {
                None => None,
                Some((bounds, p1)) => match dec_clip(w, p1) {
                    None => None,
                    Some((clip, p2)) => match dec_size(w, p2) {
                        None => None,
                        Some((stretch_size, p3)) => match dec_size(w, p3) {
                            None => None,
                            Some((tile_spacing, p4)) => if p4 + 1 <= w.len() {
                                match rendering_of_code(w[p4]) {
                                    None => None,
                                    Some(rendering) => match dec_image_key(w, p4 + 1) {
                                        None => None,
                                        Some((key, p5)) => Some((
                                            Command::Image {
                                                bounds,
                                                clip,
                                                stretch_size,
                                                tile_spacing,
                                                rendering,
                                                key,
                                            },
                                            p5,
                                        )),
                                    },
                                }
                            } else {
                                None
                            },
                        },
                    },
                },
            }
        } else if tag == 6 {
            match dec_rect(w, p + 1) {
                None => None,
                Some((bounds, p1)) => match dec_clip(w, p1) {
                    None => None,
                    Some((clip, p2)) => match dec_color(w, p2) {
                        None => None,
                        Some((color, p3)) => match dec_font_key(w, p3) {
                            None => None,
                            Some((font, p4)) => if p4 + 1 <= w.len() {
                                match dec_range(w, p4 + 1) {
                                    None => None,
                                    Some((glyphs, p5)) => Some((
                                        Command::Text {
                                            bounds,
                                            clip,
                                            color,
                                            font,
                                            size: i32_of_word(w[p4]),
                                            glyphs,
                                        },
                                        p5,
                                    )),
                                }
                            } else {
                                None
                            },
                        },
                    },
                },
            }
        } else if tag == 7 {
            match dec_rect(w, p + 1) {
                None => None,
                Some((rect, p1)) => match dec_clip(w, p1) {
                    None => None,
                    Some((clip, p2)) => match dec_offsets(w, p2) {
                        None => None,
                        Some((widths, p3)) => match dec_details(w, p3) {
                            None => None,
                            Some((details, p4)) => Some((
                                Command::Border { rect, clip, widths, details },
                                p4,
                            )),
                        },
                    },
                },
            }
        } else if tag == 8 {
            match dec_rect(w, p + 1) {
                None => None,
                Some((rect, p1)) => match dec_clip(w, p1) {
                    None => None,
                    Some((clip, p2)) => match dec_geometry(w, p2) {
                        None => None,
                        Some((geometry, p3)) => match dec_range(w, p3) {
                            None => None,
                            Some((stops, p4)) => if p4 + 1 <= w.len() {
                                match extend_of_code(w[p4]) {
                                    None => None,
                                    Some(extend_mode) => match dec_size(w, p4 + 1) {
                                        None => None,
                                        Some((tile_size, p5)) => match dec_size(w, p5) {
                                            None => None,
                                            Some((tile_spacing, p6)) => Some((
                                                Command::Gradient {
                                                    rect,
                                                    clip,
                                                    geometry,
                                                    stops,
                                                    extend_mode,
                                                    tile_size,
                                                    tile_spacing,
                                                },
                                                p6,
                                            )),
                                        },
                                    },
                                }
                            } else {
                                None
                            },
                        },
                    },
                },
            }
        } else if tag == 9 {
            match dec_rect(w, p + 1) {
                None => None,
                Some((rect, p1)) => match dec_clip(w, p1) {
                    None => None,
                    Some((clip, p2)) => match dec_rect(w, p2) {
                        None => None,
                        Some((box_bounds, p3)) => match dec_point(w, p3) {
                            None => None,
                            Some((offset, p4)) => match dec_color(w, p4) {
                                None => None,
                                Some((color, p5)) => if p5 + 4 <= w.len() {
                                    match shadow_mode_of_code(w[p5 + 3]) {
                                        None => None,
                                        Some(clip_mode) => Some((
                                            Command::BoxShadow {
                                                rect,
                                                clip,
                                                box_bounds,
                                                offset,
                                                color,
                                                blur_radius: i32_of_word(w[p5]),
                                                spread_radius: i32_of_word(w[p5 + 1]),
                                                border_radius: i32_of_word(w[p5 + 2]),
                                                clip_mode,
                                            },
                                            p5 + 4,
                                        )),
                                    }
                                } else {
                                    None
                                },
                            },
                        },
                    },
                },
            }
        } else if tag == 10 {
            match dec_rect(w, p + 1) {
                None => None,
                Some((rect, p1)) => match dec_clip(w, p1) {
                    None => None,
                    Some((clip, p2)) => match dec_scene_id(w, p2) {
                        None => None,
                        Some((pipeline, p3)) => Some((
                            Command::Iframe { rect, clip, pipeline },
                            p3,
                        )),
                    },
                },
            }
        } else {
            None
        }
    } else {
        None
    }
}

} // verus!

verus! {

proof fn lemma_dec_enc_cmd_image(
    w: Seq<u32>,
    p: int,
    bounds: IntRect,
    clip: ClipRegion,
    stretch_size: IntSize,
    tile_spacing: IntSize,
    rendering: ImageRendering,
    key: ImageKey,
)
    requires
        0 <= p,
        p + 28 <= w.len(),
        w.subrange(p, p + 28) == enc_cmd(
            Command::Image { bounds, clip, stretch_size, tile_spacing, rendering, key },
        ),
    ensures
        dec_cmd(w, p) == Some((
            Command::Image { bounds, clip, stretch_size, tile_spacing, rendering, key },
            p + 28,
        )),
{
    let a = enc_rect(bounds);
    let b = enc_clip(clip);
    let c = enc_size(stretch_size);
    let d = enc_size(tile_spacing);
    let e = seq![code_of_rendering(rendering)];
    let f = enc_image_key(key);
    assert(w.subrange(p, p + 28) =~= seq![5u32] + (a + (b + (c + (d + (e + f))))));
    lemma_split_concat(w, p, seq![5u32], a + (b + (c + (d + (e + f)))));
    assert(w.subrange(p, p + 1)[0] == w[p]);
    lemma_split_concat(w, p + 1, a, b + (c + (d + (e + f))));
    lemma_dec_enc_rect(w, p + 1, bounds);
    lemma_split_concat(w, p + 5, b, c + (d + (e + f)));
    lemma_dec_enc_clip(w, p + 5, clip);
    lemma_split_concat(w, p + 21, c, d + (e + f));
    lemma_dec_enc_size(w, p + 21, stretch_size);
    lemma_split_concat(w, p + 23, d, e + f);
    lemma_dec_enc_size(w, p + 23, tile_spacing);
    lemma_split_concat(w, p + 25, e, f);
    assert(w.subrange(p + 25, p + 26)[0] == w[p + 25]);
    lemma_dec_enc_image_key(w, p + 26, key);
}

proof fn lemma_dec_enc_cmd_text(
    w: Seq<u32>,
    p: int,
    bounds: IntRect,
    clip: ClipRegion,
    color: ColorValue,
    font: FontKey,
    size: i32,
    glyphs: ItemRange,
)
    requires
        0 <= p,
        p + 32 <= w.len(),
        w.subrange(p, p + 32) == enc_cmd(
            Command::Text { bounds, clip, color, font, size, glyphs },
        ),
    ensures
        dec_cmd(w, p) == Some((
            Command::Text { bounds, clip, color, font, size, glyphs },
            p + 32,
        )),
{
    let a = enc_rect(bounds);
    let b = enc_clip(clip);
    let c = enc_color(color);
    let d = enc_font_key(font);
    let e = seq![word_of_i32(size)];
    let f = enc_range(glyphs);
    assert(w.subrange(p, p + 32) =~= seq![6u32] + (a + (b + (c + (d + (e + f))))));
    lemma_split_concat(w, p, seq![6u32], a + (b + (c + (d + (e + f)))));
    assert(w.subrange(p, p + 1)[0] == w[p]);
    lemma_split_concat(w, p + 1, a, b + (c + (d + (e + f))));
    lemma_dec_enc_rect(w, p + 1, bounds);
    lemma_split_concat(w, p + 5, b, c + (d + (e + f)));
    lemma_dec_enc_clip(w, p + 5, clip);
    lemma_split_concat(w, p + 21, c, d + (e + f));
    lemma_dec_enc_color(w, p + 21, color);
    lemma_split_concat(w, p + 25, d, e + f);
    lemma_dec_enc_font_key(w, p + 25, font);
    lemma_split_concat(w, p + 27, e, f);
    assert(w.subrange(p + 27, p + 28)[0] == w[p + 27]);
    lemma_dec_enc_range(w, p + 28, glyphs);
}

#[verifier::rlimit(100)]
#[verifier::spinoff_prover]
proof fn lemma_dec_enc_cmd_border(
    w: Seq<u32>,
    p: int,
    rect: IntRect,
    clip: ClipRegion,
    widths: SideOffsets,
    details: BorderDetails,
)
    requires
        0 <= p,
        p + 25 + enc_details(details).len() <= w.len(),
        w.subrange(p, p + 25 + enc_details(details).len()) == enc_cmd(
            Command::Border { rect, clip, widths, details },
        ),
    ensures
        dec_cmd(w, p) == Some((
            Command::Border { rect, clip, widths, details },
            p + 25 + enc_details(details).len(),
        )),
{
    let a = enc_rect(rect);
    let b = enc_clip(clip);
    let c = enc_offsets(widths);
    let d = enc_details(details);
    let n = 25 + d.len() as int;
    assert(w.subrange(p, p + n) =~= seq![7u32] + (a + (b + (c + d))));
    lemma_split_concat(w, p, seq![7u32], a + (b + (c + d)));
    assert(w.subrange(p, p + 1)[0] == w[p]);
    lemma_split_concat(w, p + 1, a, b + (c + d));
    lemma_dec_enc_rect(w, p + 1, rect);
    lemma_split_concat(w, p + 5, b, c + d);
    lemma_dec_enc_clip(w, p + 5, clip);
    lemma_split_concat(w, p + 21, c, d);
    lemma_dec_enc_offsets(w, p + 21, widths);
    lemma_dec_enc_details(w, p + 25, details);
}

proof fn lemma_dec_enc_cmd_gradient(
    w: Seq<u32>,
    p: int,
    rect: IntRect,
    clip: ClipRegion,
    geometry: GradientGeometry,
    stops: ItemRange,
    extend_mode: ExtendMode,
    tile_size: IntSize,
    tile_spacing: IntSize,
)
    requires
        0 <= p,
        p + 35 <= w.len(),
        w.subrange(p, p + 35) == enc_cmd(
            Command::Gradient { rect, clip, geometry, stops, extend_mode, tile_size, tile_spacing },
        ),
    ensures
        dec_cmd(w, p) == Some((
            Command::Gradient { rect, clip, geometry, stops, extend_mode, tile_size, tile_spacing },
            p + 35,
        )),
{
    let a = enc_rect(rect);
    let b = enc_clip(clip);
    let c = enc_geometry(geometry);
    let d = enc_range(stops);
    let e = seq![code_of_extend(extend_mode)];
    let f = enc_size(tile_size);
    let g = enc_size(tile_spacing);
    assert(w.subrange(p, p + 35) =~= seq![8u32] + (a + (b + (c + (d + (e + (f + g)))))));
    lemma_split_concat(w, p, seq![8u32], a + (b + (c + (d + (e + (f + g))))));
    assert(w.subrange(p, p + 1)[0] == w[p]);
    lemma_split_concat(w, p + 1, a, b + (c + (d + (e + (f + g)))));
    lemma_dec_enc_rect(w, p + 1, rect);
    lemma_split_concat(w, p + 5, b, c + (d + (e + (f + g))));
    lemma_dec_enc_clip(w, p + 5, clip);
    lemma_split_concat(w, p + 21, c, d + (e + (f + g)));
    lemma_dec_enc_geometry(w, p + 21, geometry);
    lemma_split_concat(w, p + 26, d, e + (f + g));
    lemma_dec_enc_range(w, p + 26, stops);
    lemma_split_concat(w, p + 30, e, f + g);
    assert(w.subrange(p + 30, p + 31)[0] == w[p + 30]);
    lemma_split_concat(w, p + 31, f, g);
    lemma_dec_enc_size(w, p + 31, tile_size);
    lemma_dec_enc_size(w, p + 33, tile_spacing);
}

#[verifier::rlimit(100)]
#[verifier::spinoff_prover]
proof fn lemma_dec_enc_cmd_box_shadow(
    w: Seq<u32>,
    p: int,
    rect: IntRect,
    clip: ClipRegion,
    box_bounds: IntRect,
    offset: IntPoint,
    color: ColorValue,
    blur_radius: i32,
    spread_radius: i32,
    border_radius: i32,
    clip_mode: BoxShadowClipMode,
)
    requires
        0 <= p,
        p + 35 <= w.len(),
        w.subrange(p, p + 35) == enc_cmd(
            Command::BoxShadow {
                rect,
                clip,
                box_bounds,
                offset,
                color,
                blur_radius,
                spread_radius,
                border_radius,
                clip_mode,
            },
        ),
    ensures
        dec_cmd(w, p) == Some((
            Command::BoxShadow {
                rect,
                clip,
                box_bounds,
                offset,
                color,
                blur_radius,
                spread_radius,
                border_radius,
                clip_mode,
            },
            p + 35,
        )),
{
    let a = enc_rect(rect);
    let b = enc_clip(clip);
    let c = enc_rect(box_bounds);
    let d = enc_point(offset);
    let e = enc_color(color);
    let f = seq![
        word_of_i32(blur_radius),
        word_of_i32(spread_radius),
        word_of_i32(border_radius),
        code_of_shadow_mode(clip_mode),
    ];
    assert(w.subrange(p, p + 35) =~= seq![9u32] + (a + (b + (c + (d + (e + f))))));
    lemma_split_concat(w, p, seq![9u32], a + (b + (c + (d + (e + f)))));
    assert(w.subrange(p, p + 1)[0] == w[p]);
    lemma_split_concat(w, p + 1, a, b + (c + (d + (e + f))));
    lemma_dec_enc_rect(w, p + 1, rect);
    lemma_split_concat(w, p + 5, b, c + (d + (e + f)));
    lemma_dec_enc_clip(w, p + 5, clip);
    lemma_split_concat(w, p + 21, c, d + (e + f));
    lemma_dec_enc_rect(w, p + 21, box_bounds);
    lemma_split_concat(w, p + 25, d, e + f);
    lemma_dec_enc_point(w, p + 25, offset);
    lemma_split_concat(w, p + 27, e, f);
    lemma_dec_enc_color(w, p + 27, color);
    assert(w.subrange(p + 31, p + 35)[0] == w[p + 31]);
    assert(w.subrange(p + 31, p + 35)[1] == w[p + 32]);
    assert(w.subrange(p + 31, p + 35)[2] == w[p + 33]);
    assert(w.subrange(p + 31, p + 35)[3] == w[p + 34]);
}

proof fn lemma_dec_enc_cmd_push_sc(w: Seq<u32>, p: int, sc: StackingContext)
    requires
        0 <= p,
        p + 1 + enc_sc(sc).len() <= w.len(),
        w.subrange(p, p + 1 + enc_sc(sc).len()) == enc_cmd(Command::PushStackingContext(sc)),
    ensures
        dec_cmd(w, p) == Some((Command::PushStackingContext(sc), p + 1 + enc_sc(sc).len())),
{
    let a = enc_sc(sc);
    let n = 1 + a.len() as int;
    assert(w.subrange(p, p + n) =~= seq![0u32] + a);
    lemma_split_concat(w, p, seq![0u32], a);
    assert(w.subrange(p, p + 1)[0] == w[p]);
    lemma_dec_enc_sc(w, p + 1, sc);
}

proof fn lemma_dec_enc_cmd_push_clip(w: Seq<u32>, p: int, content: IntRect, clip: ClipRegion)
    requires
        0 <= p,
        p + 21 <= w.len(),
        w.subrange(p, p + 21) == enc_cmd(Command::PushClipNode { content, clip }),
    ensures
        dec_cmd(w, p) == Some((Command::PushClipNode { content, clip }, p + 21)),
{
    let a = enc_rect(content);
    let b = enc_clip(clip);
    assert(w.subrange(p, p + 21) =~= seq![2u32] + (a + b));
    lemma_split_concat(w, p, seq![2u32], a + b);
    assert(w.subrange(p, p + 1)[0] == w[p]);
    lemma_split_concat(w, p + 1, a, b);
    lemma_dec_enc_rect(w, p + 1, content);
    lemma_dec_enc_clip(w, p + 5, clip);
}

proof fn lemma_dec_enc_cmd_rect(
    w: Seq<u32>,
    p: int,
    rect: IntRect,
    clip: ClipRegion,
    color: ColorValue,
)
    requires
        0 <= p,
        p + 25 <= w.len(),
        w.subrange(p, p + 25) == enc_cmd(Command::Rect { rect, clip, color }),
    ensures
        dec_cmd(w, p) == Some((Command::Rect { rect, clip, color }, p + 25)),
{
    let a = enc_rect(rect);
    let b = enc_clip(clip);
    let c = enc_color(color);
    assert(w.subrange(p, p + 25) =~= seq![4u32] + (a + (b + c)));
    lemma_split_concat(w, p, seq![4u32], a + (b + c));
    assert(w.subrange(p, p + 1)[0] == w[p]);
    lemma_split_concat(w, p + 1, a, b + c);
    lemma_dec_enc_rect(w, p + 1, rect);
    lemma_split_concat(w, p + 5, b, c);
    lemma_dec_enc_clip(w, p + 5, clip);
    lemma_dec_enc_color(w, p + 21, color);
}

proof fn lemma_dec_enc_cmd_iframe(
    w: Seq<u32>,
    p: int,
    rect: IntRect,
    clip: ClipRegion,
    pipeline: SceneId,
)
    requires
        0 <= p,
        p + 23 <= w.len(),
        w.subrange(p, p + 23) == enc_cmd(Command::Iframe { rect, clip, pipeline }),
    ensures
        dec_cmd(w, p) == Some((Command::Iframe { rect, clip, pipeline }, p + 23)),
{
    let a = enc_rect(rect);
    let b = enc_clip(clip);
    let c = enc_scene_id(pipeline);
    assert(w.subrange(p, p + 23) =~= seq![10u32] + (a + (b + c)));
    lemma_split_concat(w, p, seq![10u32], a + (b + c));
    assert(w.subrange(p, p + 1)[0] == w[p]);
    lemma_split_concat(w, p + 1, a, b + c);
    lemma_dec_enc_rect(w, p + 1, rect);
    lemma_split_concat(w, p + 5, b, c);
    lemma_dec_enc_clip(w, p + 5, clip);
    lemma_dec_enc_scene_id(w, p + 21, pipeline);
}

#[verifier::rlimit(100)]
#[verifier::spinoff_prover]
pub proof fn lemma_dec_enc_cmd(w: Seq<u32>, p: int, x: Command)
    requires
        0 <= p,
        p + enc_cmd(x).len() <= w.len(),
        w.subrange(p, p + enc_cmd(x).len()) == enc_cmd(x),
    ensures
        dec_cmd(w, p) == Some((x, p + enc_cmd(x).len())),
{
    match x {
        Command::PushStackingContext(sc) => {
            lemma_dec_enc_cmd_push_sc(w, p, sc);
        },
        Command::PopStackingContext => {
            assert(w.subrange(p, p + 1)[0] == w[p]);
        },
        Command::PushClipNode { content, clip } => {
            lemma_dec_enc_cmd_push_clip(w, p, content, clip);
        },
        Command::PopClipNode => {
            assert(w.subrange(p, p + 1)[0] == w[p]);
        },
        Command::Rect { rect, clip, color } => {
            lemma_dec_enc_cmd_rect(w, p, rect, clip, color);
        },
        Command::Image { bounds, clip, stretch_size, tile_spacing, rendering, key } => {
            lemma_dec_enc_cmd_image(w, p, bounds, clip, stretch_size, tile_spacing, rendering, key);
        },
        Command::Text { bounds, clip, color, font, size, glyphs } => {
            lemma_dec_enc_cmd_text(w, p, bounds, clip, color, font, size, glyphs);
        },
        Command::Border { rect, clip, widths, details } => {
            lemma_dec_enc_cmd_border(w, p, rect, clip, widths, details);
        },
        Command::Gradient { rect, clip, geometry, stops, extend_mode, tile_size, tile_spacing } => {
            lemma_dec_enc_cmd_gradient(
                w,
                p,
                rect,
                clip,
                geometry,
                stops,
                extend_mode,
                tile_size,
                tile_spacing,
            );
        },
        Command::BoxShadow {
            rect,
            clip,
            box_bounds,
            offset,
            color,
            blur_radius,
            spread_radius,
            border_radius,
            clip_mode,
        } => {
            lemma_dec_enc_cmd_box_shadow(
                w,
                p,
                rect,
                clip,
                box_bounds,
                offset,
                color,
                blur_radius,
                spread_radius,
                border_radius,
                clip_mode,
            );
        },
        Command::Iframe { rect, clip, pipeline } => {
            lemma_dec_enc_cmd_iframe(w, p, rect, clip, pipeline);
        },
    }
}

} // verus!

verus! {

#[verifier::rlimit(100)]
fn write_cmd(out: &mut Vec<u32>, x: &Command)
    ensures
        final(out)@ == old(out)@ + enc_cmd(*x),
{
    match x {
        Command::PushStackingContext(sc) => {
            out.push(0u32);
            write_sc(out, sc);
        },
        Command::PopStackingContext => {
            out.push(1u32);
        },
        Command::PushClipNode { content, clip } => {
            out.push(2u32);
            write_rect(out, content);
            write_clip(out, clip);
        },
        Command::PopClipNode => {
            out.push(3u32);
        },
        Command::Rect { rect, clip, color } => {
            out.push(4u32);
            write_rect(out, rect);
            write_clip(out, clip);
            write_color(out, color);
        },
        Command::Image { bounds, clip, stretch_size, tile_spacing, rendering, key } => {
            out.push(5u32);
            write_rect(out, bounds);
            write_clip(out, clip);
            write_size(out, stretch_size);
            write_size(out, tile_spacing);
            out.push(rendering_to_word(rendering));
            write_image_key(out, key);
        },
        Command::Text { bounds, clip, color, font, size, glyphs } => {
            out.push(6u32);
            write_rect(out, bounds);
            write_clip(out, clip);
            write_color(out, color);
            write_font_key(out, font);
            out.push(i32_to_word(*size));
            write_range(out, glyphs);
        },
        Command::Border { rect, clip, widths, details } => {
            out.push(7u32);
            write_rect(out, rect);
            write_clip(out, clip);
            write_offsets(out, widths);
            write_details(out, details);
        },
        Command::Gradient { rect, clip, geometry, stops, extend_mode, tile_size, tile_spacing } => {
            out.push(8u32);
            write_rect(out, rect);
            write_clip(out, clip);
            write_geometry(out, geometry);
            write_range(out, stops);
            out.push(extend_to_word(extend_mode));
            write_size(out, tile_size);
            write_size(out, tile_spacing);
        },
        Command::BoxShadow {
            rect,
            clip,
            box_bounds,
            offset,
            color,
            blur_radius,
            spread_radius,
            border_radius,
            clip_mode,
        } => {
            out.push(9u32);
            write_rect(out, rect);
            write_clip(out, clip);
            write_rect(out, box_bounds);
            write_point(out, offset);
            write_color(out, color);
            out.push(i32_to_word(*blur_radius));
            out.push(i32_to_word(*spread_radius));
            out.push(i32_to_word(*border_radius));
            out.push(shadow_mode_to_word(clip_mode));
        },
        Command::Iframe { rect, clip, pipeline } => {
            out.push(10u32);
            write_rect(out, rect);
            write_clip(out, clip);
            write_scene_id(out, pipeline);
        },
    }
    assert(out@ =~= old(out)@ + enc_cmd(*x));
}

#[verifier::rlimit(60)]
fn read_cmd(w: &Vec<u32>, pos: usize) -> (r: Option<(Command, usize)>)
    requires
        pos <= w@.len(),
    ensures
        r is Some <==> dec_cmd(w@, pos as int) is Some,
        r matches Some((x, p2)) ==> dec_cmd(w@, pos as int) == Some((x, p2 as int)),
        r matches Some((x, p2)) ==> p2 <= w@.len(),
{
    if w.len() - pos < 1 {
        return None;
    }
    let tag = w[pos];
    if tag == 0 {
        match read_sc(w, pos + 1) {
            Some((sc, p1)) => Some((Command::PushStackingContext(sc), p1)),
            None => None,
        }
    } else if tag == 1 {
        Some((Command::PopStackingContext, pos + 1))
    } else if tag == 2 {
        let (content, p1) = match read_rect(w, pos + 1) {
            Some(v) => v,
            None => {
                return None;
            },
        };
        let (clip, p2) = match read_clip(w, p1) {
            Some(v) => v,
            None => {
                return None;
            },
        };
        Some((Command::PushClipNode { content, clip }, p2))
    } else if tag == 3 {
        Some((Command::PopClipNode, pos + 1))
    } else if tag == 4 {
        let (rect, p1) = match read_rect(w, pos + 1) {
            Some(v) => v,
            None => {
                return None;
            },
        };
        let (clip, p2) = match read_clip(w, p1) {
            Some(v) => v,
            None => {
                return None;
            },
        };
        let (color, p3) = match read_color(w, p2) {
            Some(v) => v,
            None => {
                return None;
            },
        };
        Some((Command::Rect { rect, clip, color }, p3))
    } else if tag == 5 {
        let (bounds, p1) = match read_rect(w, pos + 1) {
            Some(v) => v,
            None => {
                return None;
            },
        };
        let (clip, p2) = match read_clip(w, p1) {
            Some(v) => v,
            None => {
                return None;
            },
        };
        let (stretch_size, p3) = match read_size(w, p2) {
            Some(v) => v,
            None => {
                return None;
            },
        };
        let (tile_spacing, p4) = match read_size(w, p3) {
            Some(v) => v,
            None => {
                return None;
            },
        };
        if w.len() - p4 < 1 {
            return None;
        }
        let rendering = match rendering_from_word(w[p4]) {
            Some(v) => v,
            None => {
                return None;
            },
        };
        let (key, p5) = match read_image_key(w, p4 + 1) {
            Some(v) => v,
            None => {
                return None;
            },
        };
        Some((Command::Image { bounds, clip, stretch_size, tile_spacing, rendering, key }, p5))
    } else if tag == 6 {
        let (bounds, p1) = match read_rect(w, pos + 1) {
            Some(v) => v,
            None => {
                return None;
            },
        };
        let (clip, p2) = match read_clip(w, p1) {
            Some(v) => v,
            None => {
                return None;
            },
        };
        let (color, p3) = match read_color(w, p2) {
            Some(v) => v,
            None => {
                return None;
            },
        };
        let (font, p4) = match read_font_key(w, p3) {
            Some(v) => v,
            None => {
                return None;
            },
        };
        if w.len() - p4 < 1 {
            return None;
        }
        let size = word_to_i32(w[p4]);
        let (glyphs, p5) = match read_range(w, p4 + 1) {
            Some(v) => v,
            None => {
                return None;
            },
        };
        Some((Command::Text { bounds, clip, color, font, size, glyphs }, p5))
    } else if tag == 7 {
        let (rect, p1) = match read_rect(w, pos + 1) {
            Some(v) => v,
            None => {
                return None;
            },
        };
        let (clip, p2) = match read_clip(w, p1) {
            Some(v) => v,
            None => {
                return None;
            },
        };
        let (widths, p3) = match read_offsets(w, p2) {
            Some(v) => v,
            None => {
                return None;
            },
        };
        let (details, p4) = match read_details(w, p3) {
            Some(v) => v,
            None => {
                return None;
            },
        };
        Some((Command::Border { rect, clip, widths, details }, p4))
    } else if tag == 8 {
        let (rect, p1) = match read_rect(w, pos + 1) {
            Some(v) => v,
            None => {
                return None;
            },
        };
        let (clip, p2) = match read_clip(w, p1) {
            Some(v) => v,
            None => {
                return None;
            },
        };
        let (geometry, p3) = match read_geometry(w, p2) {
            Some(v) => v,
            None => {
                return None;
            },
        };
        let (stops, p4) = match read_range(w, p3) {
            Some(v) => v,
            None => {
                return None;
            },
        };
        if w.len() - p4 < 1 {
            return None;
        }
        let extend_mode = match extend_from_word(w[p4]) {
            Some(v) => v,
            None => {
                return None;
            },
        };
        let (tile_size, p5) = match read_size(w, p4 + 1) {
            Some(v) => v,
            None => {
                return None;
            },
        };
        let (tile_spacing, p6) = match read_size(w, p5) {
            Some(v) => v,
            None => {
                return None;
            },
        };
        Some((
            Command::Gradient { rect, clip, geometry, stops, extend_mode, tile_size, tile_spacing },
            p6,
        ))
    } else if tag == 9 {
        let (rect, p1) = match read_rect(w, pos + 1) {
            Some(v) => v,
            None => {
                return None;
            },
        };
        let (clip, p2) = match read_clip(w, p1) {
            Some(v) => v,
            None => {
                return None;
            },
        };
        let (box_bounds, p3) = match read_rect(w, p2) {
            Some(v) => v,
            None => {
                return None;
            },
        };
        let (offset, p4) = match read_point(w, p3) {
            Some(v) => v,
            None => {
                return None;
            },
        };
        let (color, p5) = match read_color(w, p4) {
            Some(v) => v,
            None => {
                return None;
            },
        };
        if w.len() - p5 < 4 {
            return None;
        }
        let clip_mode = match shadow_mode_from_word(w[p5 + 3]) {
            Some(v) => v,
            None => {
                return None;
            },
        };
        Some((
            Command::BoxShadow {
                rect,
                clip,
                box_bounds,
                offset,
                color,
                blur_radius: word_to_i32(w[p5]),
                spread_radius: word_to_i32(w[p5 + 1]),
                border_radius: word_to_i32(w[p5 + 2]),
                clip_mode,
            },
            p5 + 4,
        ))
    } else if tag == 10 {
        let (rect, p1) = match read_rect(w, pos + 1) {
            Some(v) => v,
            None => {
                return None;
            },
        };
        let (clip, p2) = match read_clip(w, p1) {
            Some(v) => v,
            None => {
                return None;
            },
        };
        let (pipeline, p3) = match read_scene_id(w, p2) {
            Some(v) => v,
            None => {
                return None;
            },
        };
        Some((Command::Iframe { rect, clip, pipeline }, p3))
    } else {
        None
    }
}

} // verus!

verus! {

// ---------------------------------------------------------------------------
// Auxiliary table entries.
// ---------------------------------------------------------------------------

pub open spec fn enc_aux(x: AuxEntry) -> Seq<u32> {
    match x {
        AuxEntry::ComplexClip { rect, radius } => seq![0u32] + enc_rect(rect) + enc_radius(radius),
        AuxEntry::GradientStop { offset, color } => seq![1u32, word_of_i32(offset)] + enc_color(
            color,
        ),
        AuxEntry::Glyph { index, x, y } => seq![2u32, index, word_of_i32(x), word_of_i32(y)],
    }
}

pub open spec fn dec_aux(w: Seq<u32>, p: int) -> Option<(AuxEntry, int)> {
    if 0 <= p && p + 1 <= w.len() {
        let tag = w[p];
        if tag == 0 {
            match dec_rect(w, p + 1) {
                None => None,
                Some((rect, p1)) => match dec_radius(w, p1) {
                    None => None,
                    Some((radius, p2)) => Some((AuxEntry::ComplexClip { rect, radius }, p2)),
                },
            }
        } else if tag == 1 {
            if p + 2 <= w.len() {
                match dec_color(w, p + 2) {
                    None => None,
                    Some((color, p1)) => Some((
                        AuxEntry::GradientStop { offset: i32_of_word(w[p + 1]), color },
                        p1,
                    )),
                }
            } else {
                None
            }
        } else if tag == 2 {
            if p + 4 <= w.len() {
                Some((
                    AuxEntry::Glyph {
                        index: w[p + 1],
                        x: i32_of_word(w[p + 2]),
                        y: i32_of_word(w[p + 3]),
                    },
                    p + 4,
                ))
            } else {
                None
            }
        } else {
            None
        }
    } else {
        None
    }
}

pub proof fn lemma_dec_enc_aux(w: Seq<u32>, p: int, x: AuxEntry)
    requires
        0 <= p,
        p + enc_aux(x).len() <= w.len(),
        w.subrange(p, p + enc_aux(x).len()) == enc_aux(x),
    ensures
        dec_aux(w, p) == Some((x, p + enc_aux(x).len())),
{
    match x {
        AuxEntry::ComplexClip { rect, radius } => {
            let a = enc_rect(rect);
            let b = enc_radius(radius);
            assert(w.subrange(p, p + 13) =~= seq![0u32] + (a + b));
            lemma_split_concat(w, p, seq![0u32], a + b);
            assert(w.subrange(p, p + 1)[0] == w[p]);
            lemma_split_concat(w, p + 1, a, b);
            lemma_dec_enc_rect(w, p + 1, rect);
            lemma_dec_enc_radius(w, p + 5, radius);
        },
        AuxEntry::GradientStop { offset, color } => {
            let t = seq![1u32, word_of_i32(offset)];
            let b = enc_color(color);
            assert(w.subrange(p, p + 6) =~= t + b);
            lemma_split_concat(w, p, t, b);
            assert(w.subrange(p, p + 2)[0] == w[p]);
            assert(w.subrange(p, p + 2)[1] == w[p + 1]);
            lemma_dec_enc_color(w, p + 2, color);
        },
        AuxEntry::Glyph { index, x: gx, y: gy } => {
            assert(w.subrange(p, p + 4)[0] == w[p]);
            assert(w.subrange(p, p + 4)[1] == w[p + 1]);
            assert(w.subrange(p, p + 4)[2] == w[p + 2]);
            assert(w.subrange(p, p + 4)[3] == w[p + 3]);
        },
    }
}

fn write_aux(out: &mut Vec<u32>, x: &AuxEntry)
    ensures
        final(out)@ == old(out)@ + enc_aux(*x),
{
    match x {
        AuxEntry::ComplexClip { rect, radius } => {
            out.push(0u32);
            write_rect(out, rect);
            write_radius(out, radius);
        },
        AuxEntry::GradientStop { offset, color } => {
            out.push(1u32);
            out.push(i32_to_word(*offset));
            write_color(out, color);
        },
        AuxEntry::Glyph { index, x: gx, y: gy } => {
            out.push(2u32);
            out.push(*index);
            out.push(i32_to_word(*gx));
            out.push(i32_to_word(*gy));
        },
    }
    assert(out@ =~= old(out)@ + enc_aux(*x));
}

fn read_aux(w: &Vec<u32>, pos: usize) -> (r: Option<(AuxEntry, usize)>)
    requires
        pos <= w@.len(),
    ensures
        r is Some <==> dec_aux(w@, pos as int) is Some,
        r matches Some((x, p2)) ==> dec_aux(w@, pos as int) == Some((x, p2 as int)),
        r matches Some((x, p2)) ==> p2 <= w@.len(),
{
    if w.len() - pos < 1 {
        return None;
    }
    let tag = w[pos];
    if tag == 0 {
        let (rect, p1) = match read_rect(w, pos + 1) {
            Some(v) => v,
            None => {
                return None;
            },
        };
        let (radius, p2) = match read_radius(w, p1) {
            Some(v) => v,
            None => {
                return None;
            },
        };
        Some((AuxEntry::ComplexClip { rect, radius }, p2))
    } else if tag == 1 {
        if w.len() - pos < 2 {
            return None;
        }
        let offset = word_to_i32(w[pos + 1]);
        let (color, p1) = match read_color(w, pos + 2) {
            Some(v) => v,
            None => {
                return None;
            },
        };
        Some((AuxEntry::GradientStop { offset, color }, p1))
    } else if tag == 2 {
        if w.len() - pos < 4 {
            return None;
        }
        Some((
            AuxEntry::Glyph {
                index: w[pos + 1],
                x: word_to_i32(w[pos + 2]),
                y: word_to_i32(w[pos + 3]),
            },
            pos + 4,
        ))
    } else {
        None
    }
}

} // verus!

verus! {

// ---------------------------------------------------------------------------
// Sequences of commands and auxiliary entries.
// ---------------------------------------------------------------------------

/// The word stream of a whole command sequence.
pub open spec fn cmds_words(cs: Seq<Command>) -> Seq<u32>
    decreases cs.len(),
{
    if cs.len() == 0 {
        Seq::empty()
    } else {
        enc_cmd(cs[0]) + cmds_words(cs.subrange(1, cs.len() as int))
    }
}

/// The word stream of a whole auxiliary table.
pub open spec fn aux_words(es: Seq<AuxEntry>) -> Seq<u32>
    decreases es.len(),
{
    if es.len() == 0 {
        Seq::empty()
    } else {
        enc_aux(es[0]) + aux_words(es.subrange(1, es.len() as int))
    }
}

pub proof fn lemma_cmds_words_push(cs: Seq<Command>, c: Command)
    ensures
        cmds_words(cs.push(c)) == cmds_words(cs) + enc_cmd(c),
    decreases cs.len(),
{
    let csc = cs.push(c);
    assert(csc.len() == cs.len() + 1);
    assert(csc[0 as int] == if cs.len() == 0 { c } else { cs[0 as int] });
    if cs.len() == 0 {
        assert(csc.subrange(1, 1) =~= Seq::<Command>::empty());
        assert(cmds_words(csc) == enc_cmd(c) + cmds_words(Seq::<Command>::empty()));
        assert(cmds_words(csc) =~= cmds_words(cs) + enc_cmd(c));
    } else {
        let tail = cs.subrange(1, cs.len() as int);
        assert(csc.subrange(1, cs.len() as int + 1) =~= tail.push(c));
        lemma_cmds_words_push(tail, c);
        assert(cmds_words(csc) == enc_cmd(cs[0 as int]) + cmds_words(tail.push(c)));
        assert(cmds_words(csc) =~= cmds_words(cs) + enc_cmd(c));
    }
}

pub proof fn lemma_aux_words_push(es: Seq<AuxEntry>, e: AuxEntry)
    ensures
        aux_words(es.push(e)) == aux_words(es) + enc_aux(e),
    decreases es.len(),
{
    let ese = es.push(e);
    assert(ese.len() == es.len() + 1);
    assert(ese[0 as int] == if es.len() == 0 { e } else { es[0 as int] });
    if es.len() == 0 {
        assert(ese.subrange(1, 1) =~= Seq::<AuxEntry>::empty());
        assert(aux_words(ese) == enc_aux(e) + aux_words(Seq::<AuxEntry>::empty()));
        assert(aux_words(ese) =~= aux_words(es) + enc_aux(e));
    } else {
        let tail = es.subrange(1, es.len() as int);
        assert(ese.subrange(1, es.len() as int + 1) =~= tail.push(e));
        lemma_aux_words_push(tail, e);
        assert(aux_words(ese) == enc_aux(es[0 as int]) + aux_words(tail.push(e)));
        assert(aux_words(ese) =~= aux_words(es) + enc_aux(e));
    }
}

/// Decoding of `n` consecutive commands.
pub open spec fn dec_cmds(w: Seq<u32>, p: int, n: nat) -> Option<(Seq<Command>, int)>
    decreases n,
{
    if n == 0 {
        Some((Seq::empty(), p))
    } else {
        match dec_cmd(w, p) {
            None => None,
            Some((c, p2)) => match dec_cmds(w, p2, (n - 1) as nat) {
                None => None,
                Some((cs, p3)) => Some((seq![c] + cs, p3)),
            },
        }
    }
}

/// Decoding of `n` consecutive auxiliary entries.
pub open spec fn dec_aux_seq(w: Seq<u32>, p: int, n: nat) -> Option<(Seq<AuxEntry>, int)>
    decreases n,
{
    if n == 0 {
        Some((Seq::empty(), p))
    } else {
        match dec_aux(w, p) {
            None => None,
            Some((e, p2)) => match dec_aux_seq(w, p2, (n - 1) as nat) {
                None => None,
                Some((es, p3)) => Some((seq![e] + es, p3)),
            },
        }
    }
}

pub proof fn lemma_dec_enc_cmds(w: Seq<u32>, p: int, cs: Seq<Command>)
    requires
        0 <= p,
        p + cmds_words(cs).len() <= w.len(),
        w.subrange(p, p + cmds_words(cs).len()) == cmds_words(cs),
    ensures
        dec_cmds(w, p, cs.len()) == Some((cs, p + cmds_words(cs).len())),
    decreases cs.len(),
{
    if cs.len() == 0 {
        assert(cs =~= Seq::<Command>::empty());
    } else {
        let head = enc_cmd(cs[0]);
        let tail = cs.subrange(1, cs.len() as int);
        lemma_split_concat(w, p, head, cmds_words(tail));
        lemma_dec_enc_cmd(w, p, cs[0]);
        lemma_dec_enc_cmds(w, p + head.len(), tail);
        assert(seq![cs[0]] + tail =~= cs);
    }
}

pub proof fn lemma_dec_enc_aux_seq(w: Seq<u32>, p: int, es: Seq<AuxEntry>)
    requires
        0 <= p,
        p + aux_words(es).len() <= w.len(),
        w.subrange(p, p + aux_words(es).len()) == aux_words(es),
    ensures
        dec_aux_seq(w, p, es.len()) == Some((es, p + aux_words(es).len())),
    decreases es.len(),
{
    if es.len() == 0 {
        assert(es =~= Seq::<AuxEntry>::empty());
    } else {
        let head = enc_aux(es[0]);
        let tail = es.subrange(1, es.len() as int);
        lemma_split_concat(w, p, head, aux_words(tail));
        lemma_dec_enc_aux(w, p, es[0]);
        lemma_dec_enc_aux_seq(w, p + head.len(), tail);
        assert(seq![es[0]] + tail =~= es);
    }
}

pub open spec fn dec_cmds_with_prefix(
    prefix: Seq<Command>,
    r: Option<(Seq<Command>, int)>,
) -> Option<(Seq<Command>, int)> {
    match r {
        None => None,
        Some((cs, p)) => Some((prefix + cs, p)),
    }
}

pub open spec fn dec_aux_with_prefix(
    prefix: Seq<AuxEntry>,
    r: Option<(Seq<AuxEntry>, int)>,
) -> Option<(Seq<AuxEntry>, int)> {
    match r {
        None => None,
        Some((es, p)) => Some((prefix + es, p)),
    }
}

fn read_cmds(w: &Vec<u32>, count: usize) -> (r: Option<(Vec<Command>, usize)>)
    ensures
        r is Some <==> dec_cmds(w@, 0, count as nat) is Some,
        r matches Some((v, pend)) ==> dec_cmds(w@, 0, count as nat) == Some((v@, pend as int)),
{
    let mut acc: Vec<Command> = Vec::new();
    let mut pos: usize = 0;
    let mut i: usize = 0;
    while i < count
        invariant
            i <= count,
            pos <= w@.len(),
            dec_cmds(w@, 0, count as nat) == dec_cmds_with_prefix(
                acc@,
                dec_cmds(w@, pos as int, (count - i) as nat),
            ),
        decreases count - i,
    {
        match read_cmd(w, pos) {
            None => {
                return None;
            },
            Some((c, p2)) => {
                proof {
                    let k = (count - i) as nat;
                    let tail = dec_cmds(w@, p2 as int, (k - 1) as nat);
                    match tail {
                        None => {},
                        Some((cs, p3)) => {
                            assert(acc@ + (seq![c] + cs) =~= acc@.push(c) + cs);
                        },
                    }
                }
                acc.push(c);
                pos = p2;
                i = i + 1;
            },
        }
    }
    proof {
        assert(acc@ + Seq::<Command>::empty() =~= acc@);
    }
    Some((acc, pos))
}

fn read_aux_entries(w: &Vec<u32>, count: usize) -> (r: Option<(Vec<AuxEntry>, usize)>)
    ensures
        r is Some <==> dec_aux_seq(w@, 0, count as nat) is Some,
        r matches Some((v, pend)) ==> dec_aux_seq(w@, 0, count as nat) == Some((
            v@,
            pend as int,
        )),
{
    let mut acc: Vec<AuxEntry> = Vec::new();
    let mut pos: usize = 0;
    let mut i: usize = 0;
    while i < count
        invariant
            i <= count,
            pos <= w@.len(),
            dec_aux_seq(w@, 0, count as nat) == dec_aux_with_prefix(
                acc@,
                dec_aux_seq(w@, pos as int, (count - i) as nat),
            ),
        decreases count - i,
    {
        match read_aux(w, pos) {
            None => {
                return None;
            },
            Some((e, p2)) => {
                proof {
                    let k = (count - i) as nat;
                    let tail = dec_aux_seq(w@, p2 as int, (k - 1) as nat);
                    match tail {
                        None => {},
                        Some((es, p3)) => {
                            assert(acc@ + (seq![e] + es) =~= acc@.push(e) + es);
                        },
                    }
                }
                acc.push(e);
                pos = p2;
                i = i + 1;
            },
        }
    }
    proof {
        assert(acc@ + Seq::<AuxEntry>::empty() =~= acc@);
    }
    Some((acc, pos))
}

} // verus!

verus! {

// ---------------------------------------------------------------------------
// Words to little-endian bytes and back.
// ---------------------------------------------------------------------------

/// The little-endian byte stream of a word stream.
pub open spec fn words_bytes(ws: Seq<u32>) -> Seq<u8>
    decreases ws.len(),
{
    if ws.len() == 0 {
        Seq::empty()
    } else {
        spec_u32_to_le_bytes(ws[0]) + words_bytes(ws.subrange(1, ws.len() as int))
    }
}

/// The word stream a byte stream holds, when its length is a whole number
/// of words.
pub open spec fn bytes_words(b: Seq<u8>) -> Option<Seq<u32>>
    decreases b.len(),
{
    if b.len() == 0 {
        Some(Seq::empty())
    } else if b.len() < 4 {
        None
    } else {
        match bytes_words(b.subrange(4, b.len() as int)) {
            None => None,
            Some(ws) => Some(seq![spec_u32_from_le_bytes(b.subrange(0, 4))] + ws),
        }
    }
}

pub proof fn lemma_words_bytes_len(ws: Seq<u32>)
    ensures
        words_bytes(ws).len() == 4 * ws.len(),
    decreases ws.len(),
{
    lemma_auto_spec_u32_to_from_le_bytes();
    if ws.len() > 0 {
        lemma_words_bytes_len(ws.subrange(1, ws.len() as int));
    }
}

pub proof fn lemma_words_bytes_push(ws: Seq<u32>, x: u32)
    ensures
        words_bytes(ws.push(x)) == words_bytes(ws) + spec_u32_to_le_bytes(x),
    decreases ws.len(),
{
    let wsx = ws.push(x);
    assert(wsx[0 as int] == if ws.len() == 0 { x } else { ws[0 as int] });
    if ws.len() == 0 {
        assert(wsx.subrange(1, 1) =~= Seq::<u32>::empty());
        assert(words_bytes(wsx) == spec_u32_to_le_bytes(x) + words_bytes(Seq::<u32>::empty()));
        assert(words_bytes(wsx) =~= words_bytes(ws) + spec_u32_to_le_bytes(x));
    } else {
        let tail = ws.subrange(1, ws.len() as int);
        assert(wsx.subrange(1, ws.len() as int + 1) =~= tail.push(x));
        lemma_words_bytes_push(tail, x);
        assert(words_bytes(wsx) == spec_u32_to_le_bytes(ws[0 as int]) + words_bytes(
            tail.push(x),
        ));
        assert(words_bytes(wsx) =~= words_bytes(ws) + spec_u32_to_le_bytes(x));
    }
}

/// Decoding the bytes of a word stream gives back exactly that stream.
pub proof fn lemma_bytes_words_of_words(ws: Seq<u32>)
    ensures
        bytes_words(words_bytes(ws)) == Some(ws),
    decreases ws.len(),
{
    lemma_auto_spec_u32_to_from_le_bytes();
    let b = words_bytes(ws);
    lemma_words_bytes_len(ws);
    if ws.len() == 0 {
        assert(ws =~= Seq::<u32>::empty());
    } else {
        let head = spec_u32_to_le_bytes(ws[0]);
        let tail = ws.subrange(1, ws.len() as int);
        lemma_words_bytes_len(tail);
        assert(b == head + words_bytes(tail));
        assert(b.subrange(0, b.len() as int) =~= b);
        lemma_split_concat(b, 0, head, words_bytes(tail));
        assert(b.subrange(0, 4) == head);
        assert(b.subrange(4, b.len() as int) == words_bytes(tail)) by {
            assert(b.subrange(4, 4 + words_bytes(tail).len() as int) =~= b.subrange(
                4,
                b.len() as int,
            ));
        }
        lemma_bytes_words_of_words(tail);
        assert(spec_u32_from_le_bytes(head) == ws[0]);
        assert(seq![ws[0]] + tail =~= ws);
    }
}

/// A byte stream of whole words decodes to one word for each four bytes.
pub proof fn lemma_bytes_words_index(b: Seq<u8>)
    requires
        b.len() % 4 == 0,
    ensures
        bytes_words(b) is Some,
        bytes_words(b) matches Some(w) ==> w.len() == b.len() / 4 && forall|j: int|
            0 <= j < w.len() ==> #[trigger] w[j] == spec_u32_from_le_bytes(
                b.subrange(4 * j, 4 * j + 4),
            ),
    decreases b.len(),
{
    if b.len() == 0 {
    } else {
        assert(b.len() >= 4);
        let tail = b.subrange(4, b.len() as int);
        assert(tail.len() % 4 == 0);
        lemma_bytes_words_index(tail);
        let wt = bytes_words(tail)->Some_0;
        let w = bytes_words(b)->Some_0;
        assert(w == seq![spec_u32_from_le_bytes(b.subrange(0, 4))] + wt);
        assert forall|j: int| 0 <= j < w.len() implies #[trigger] w[j]
            == spec_u32_from_le_bytes(b.subrange(4 * j, 4 * j + 4)) by {
            if j == 0 {
            } else {
                assert(w[j] == wt[j - 1]);
                assert(wt[j - 1] == spec_u32_from_le_bytes(
                    tail.subrange(4 * (j - 1), 4 * (j - 1) + 4),
                ));
                assert(tail.subrange(4 * (j - 1), 4 * (j - 1) + 4) =~= b.subrange(
                    4 * j,
                    4 * j + 4,
                ));
            }
        }
    }
}

/// A byte stream whose length is not a whole number of words never decodes.
pub proof fn lemma_bytes_words_ragged(b: Seq<u8>)
    requires
        b.len() % 4 != 0,
    ensures
        bytes_words(b) is None,
    decreases b.len(),
{
    if b.len() < 4 {
    } else {
        let tail = b.subrange(4, b.len() as int);
        assert(tail.len() % 4 != 0);
        lemma_bytes_words_ragged(tail);
    }
}

fn words_to_bytes(ws: &Vec<u32>) -> (out: Vec<u8>)
    ensures
        out@ == words_bytes(ws@),
{
    let mut out: Vec<u8> = Vec::new();
    let mut i: usize = 0;
    while i < ws.len()
        invariant
            i <= ws@.len(),
            out@ == words_bytes(ws@.subrange(0, i as int)),
        decreases ws@.len() - i,
    {
        let mut bs = u32_to_le_bytes(ws[i]);
        out.append(&mut bs);
        proof {
            lemma_words_bytes_push(ws@.subrange(0, i as int), ws@[i as int]);
            assert(ws@.subrange(0, i as int).push(ws@[i as int]) =~= ws@.subrange(
                0,
                i as int + 1,
            ));
        }
        i = i + 1;
    }
    proof {
        assert(ws@.subrange(0, ws@.len() as int) =~= ws@);
    }
    out
}

fn bytes_to_words(b: &Vec<u8>) -> (r: Option<Vec<u32>>)
    ensures
        r is Some <==> bytes_words(b@) is Some,
        r matches Some(v) ==> bytes_words(b@) == Some(v@),
{
    if b.len() % 4 != 0 {
        proof {
            lemma_bytes_words_ragged(b@);
        }
        return None;
    }
    proof {
        lemma_bytes_words_index(b@);
        vstd::arithmetic::div_mod::lemma_fundamental_div_mod(b@.len() as int, 4);
    }
    let n = b.len() / 4;
    let mut out: Vec<u32> = Vec::new();
    let mut i: usize = 0;
    while i < n
        invariant
            i <= n,
            b@.len() == 4 * n,
            4 * n <= usize::MAX,
            b@.len() % 4 == 0,
            bytes_words(b@) matches Some(allw) && out@ == allw.subrange(0, i as int)
                && allw.len() == n,
        decreases n - i,
    {
        proof {
            lemma_bytes_words_index(b@);
        }
        proof {
            assert(4 * (i as int) + 4 <= b@.len());
        }
        let piece = slice_subrange(b.as_slice(), 4 * i, 4 * i + 4);
        let word = u32_from_le_bytes(piece);
        out.push(word);
        proof {
            let allw = bytes_words(b@)->Some_0;
            assert(allw[i as int] == spec_u32_from_le_bytes(
                b@.subrange(4 * (i as int), 4 * (i as int) + 4),
            ));
            assert(allw.subrange(0, i as int).push(allw[i as int]) =~= allw.subrange(
                0,
                i as int + 1,
            ));
        }
        i = i + 1;
    }
    proof {
        let allw = bytes_words(b@)->Some_0;
        assert(allw.subrange(0, allw.len() as int) =~= allw);
    }
    Some(out)
}

// ---------------------------------------------------------------------------
// Whole payloads.
// ---------------------------------------------------------------------------

/// The byte payload of a command stream.
pub open spec fn cmds_payload(cs: Seq<Command>) -> Seq<u8> {
    words_bytes(cmds_words(cs))
}

/// The byte payload of an auxiliary table.
pub open spec fn aux_payload(es: Seq<AuxEntry>) -> Seq<u8> {
    words_bytes(aux_words(es))
}

/// Decoding a command payload of `n` commands; the payload must be consumed
/// exactly.
pub open spec fn decode_cmds_payload(b: Seq<u8>, n: nat) -> Option<Seq<Command>> {
    match bytes_words(b) {
        None => None,
        Some(ws) => match dec_cmds(ws, 0, n) {
            None => None,
            Some((cs, p)) => if p == ws.len() {
                Some(cs)
            } else {
                None
            },
        },
    }
}

/// Decoding an auxiliary payload of `n` entries.
pub open spec fn decode_aux_payload(b: Seq<u8>, n: nat) -> Option<Seq<AuxEntry>> {
    match bytes_words(b) {
        None => None,
        Some(ws) => match dec_aux_seq(ws, 0, n) {
            None => None,
            Some((es, p)) => if p == ws.len() {
                Some(es)
            } else {
                None
            },
        },
    }
}

/// The round trip for command payloads: decoding an encoding reproduces the
/// original command sequence exactly.
pub proof fn lemma_cmds_payload_round_trip(cs: Seq<Command>)
    ensures
        decode_cmds_payload(cmds_payload(cs), cs.len()) == Some(cs),
{
    lemma_bytes_words_of_words(cmds_words(cs));
    let ws = cmds_words(cs);
    assert(ws.subrange(0, ws.len() as int) =~= ws);
    lemma_dec_enc_cmds(ws, 0, cs);
}

/// The round trip for auxiliary payloads.
pub proof fn lemma_aux_payload_round_trip(es: Seq<AuxEntry>)
    ensures
        decode_aux_payload(aux_payload(es), es.len()) == Some(es),
{
    lemma_bytes_words_of_words(aux_words(es));
    let ws = aux_words(es);
    assert(ws.subrange(0, ws.len() as int) =~= ws);
    lemma_dec_enc_aux_seq(ws, 0, es);
}

/// Encode a command stream into its byte payload.
pub fn encode_cmds_payload(cs: &Vec<Command>) -> (out: Vec<u8>)
    ensures
        out@ == cmds_payload(cs@),
{
    let mut ws: Vec<u32> = Vec::new();
    let mut i: usize = 0;
    while i < cs.len()
        invariant
            i <= cs@.len(),
            ws@ == cmds_words(cs@.subrange(0, i as int)),
        decreases cs@.len() - i,
    {
        let c = cs[i];
        write_cmd(&mut ws, &c);
        proof {
            lemma_cmds_words_push(cs@.subrange(0, i as int), cs@[i as int]);
            assert(cs@.subrange(0, i as int).push(cs@[i as int]) =~= cs@.subrange(
                0,
                i as int + 1,
            ));
        }
        i = i + 1;
    }
    proof {
        assert(cs@.subrange(0, cs@.len() as int) =~= cs@);
    }
    words_to_bytes(&ws)
}

/// Encode an auxiliary table into its byte payload.
pub fn encode_aux_payload(es: &Vec<AuxEntry>) -> (out: Vec<u8>)
    ensures
        out@ == aux_payload(es@),
{
    let mut ws: Vec<u32> = Vec::new();
    let mut i: usize = 0;
    while i < es.len()
        invariant
            i <= es@.len(),
            ws@ == aux_words(es@.subrange(0, i as int)),
        decreases es@.len() - i,
    {
        let e = es[i];
        write_aux(&mut ws, &e);
        proof {
            lemma_aux_words_push(es@.subrange(0, i as int), es@[i as int]);
            assert(es@.subrange(0, i as int).push(es@[i as int]) =~= es@.subrange(
                0,
                i as int + 1,
            ));
        }
        i = i + 1;
    }
    proof {
        assert(es@.subrange(0, es@.len() as int) =~= es@);
    }
    words_to_bytes(&ws)
}

/// Decode a command payload holding exactly `count` commands.
pub fn decode_cmds_bytes(b: &Vec<u8>, count: usize) -> (r: Option<Vec<Command>>)
    ensures
        r is Some <==> decode_cmds_payload(b@, count as nat) is Some,
        r matches Some(v) ==> decode_cmds_payload(b@, count as nat) == Some(v@),
{
    let ws = match bytes_to_words(b) {
        Some(v) => v,
        None => {
            return None;
        },
    };
    let (cmds, pend) = match read_cmds(&ws, count) {
        Some(v) => v,
        None => {
            return None;
        },
    };
    if pend == ws.len() {
        Some(cmds)
    } else {
        None
    }
}

/// Decode an auxiliary payload holding exactly `count` entries.
pub fn decode_aux_bytes(b: &Vec<u8>, count: usize) -> (r: Option<Vec<AuxEntry>>)
    ensures
        r is Some <==> decode_aux_payload(b@, count as nat) is Some,
        r matches Some(v) ==> decode_aux_payload(b@, count as nat) == Some(v@),
{
    let ws = match bytes_to_words(b) {
        Some(v) => v,
        None => {
            return None;
        },
    };
    let (entries, pend) = match read_aux_entries(&ws, count) {
        Some(v) => v,
        None => {
            return None;
        },
    };
    if pend == ws.len() {
        Some(entries)
    } else {
        None
    }
}

} // verus!
