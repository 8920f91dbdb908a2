//! The scene description: an ordered command stream plus an auxiliary table
//! of variable-length data (complex clips, gradient stops, glyphs) that
//! commands reference by index range, never by pointer.

use vstd::prelude::*;
use crate::ids::{SceneId, ImageKey, FontKey};
use crate::geometry::{IntPoint, IntSize, IntRect, SideOffsets, ColorValue, TransformMatrix};

verus! {

/// An index range `{start, length}` into the auxiliary table.
#[derive(Clone, Copy, PartialEq, Eq, Structural, Debug)]
pub struct ItemRange {
    pub start: usize,
    pub length: usize,
}

impl ItemRange {
    pub fn empty() -> (r: ItemRange)
        ensures
            r == (ItemRange { start: 0, length: 0 }),
    {
        ItemRange { start: 0, length: 0 }
    }

    /// True when the range lies within an auxiliary table of `aux_len`
    /// entries.
    pub open spec fn in_bounds(self, aux_len: nat) -> bool {
        self.start + self.length <= aux_len
    }
}

/// An image used as a clip mask.
#[derive(Clone, Copy, PartialEq, Eq, Structural, Debug)]
pub struct ImageMask {
    pub image: ImageKey,
    pub rect: IntRect,
    pub repeat: bool,
}

/// A clip region: a main rectangle, a range of complex (rounded) clips in
/// the auxiliary table, and an optional image mask. The mask is a proper
/// option here; only the serialized form uses a presence flag plus a dummy
/// value, and the dummy is never read back when the flag is clear.
#[derive(Clone, Copy, PartialEq, Eq, Structural, Debug)]
pub struct ClipRegion {
    pub main: IntRect,
    pub complex: ItemRange,
    pub mask: Option<ImageMask>,
}

/// The opacity filter of a stacking context: absent (fully opaque), a
/// literal fixed-point value, or a binding key.
#[derive(Clone, Copy, PartialEq, Eq, Structural, Debug)]
pub enum OpacityFilter {
    Opaque,
    Literal(i32),
    Binding(u64),
}

/// The transform of a stacking context: identity, a literal matrix, or a
/// binding key resolved per frame.
#[derive(Clone, Copy, PartialEq, Eq, Structural, Debug)]
pub enum TransformSlot {
    Identity,
    Literal(TransformMatrix),
    Binding(u64),
}

#[derive(Clone, Copy, PartialEq, Eq, Structural, Debug)]
pub enum MixBlendMode {
    Normal,
    Multiply,
    Screen,
    Overlay,
    Darken,
    Lighten,
    ColorDodge,
    ColorBurn,
    HardLight,
    SoftLight,
    Difference,
    Exclusion,
    Hue,
    Saturation,
    Color,
    Luminosity,
}

#[derive(Clone, Copy, PartialEq, Eq, Structural, Debug)]
pub enum ImageRendering {
    Auto,
    CrispEdges,
    Pixelated,
}

#[derive(Clone, Copy, PartialEq, Eq, Structural, Debug)]
pub enum BorderStyle {
    NoBorder,
    Solid,
    Double,
    Dotted,
    Dashed,
    Hidden,
    Groove,
    Ridge,
    Inset,
    Outset,
}

#[derive(Clone, Copy, PartialEq, Eq, Structural, Debug)]
pub enum RepeatMode {
    Stretch,
    Repeat,
    Round,
    Space,
}

#[derive(Clone, Copy, PartialEq, Eq, Structural, Debug)]
pub enum ExtendMode {
    Clamp,
    Repeat,
}

#[derive(Clone, Copy, PartialEq, Eq, Structural, Debug)]
pub enum BoxShadowClipMode {
    NoClip,
    Outset,
    Inset,
}

/// One edge of a normal border.
#[derive(Clone, Copy, PartialEq, Eq, Structural, Debug)]
pub struct BorderSide {
    pub color: ColorValue,
    pub style: BorderStyle,
}

/// Corner radii of a border or complex clip.
#[derive(Clone, Copy, PartialEq, Eq, Structural, Debug)]
pub struct BorderRadius {
    pub top_left: IntSize,
    pub top_right: IntSize,
    pub bottom_left: IntSize,
    pub bottom_right: IntSize,
}

impl BorderRadius {
    pub fn zero() -> (r: BorderRadius)
        ensures
            r == (BorderRadius {
                top_left: IntSize { width: 0, height: 0 },
                top_right: IntSize { width: 0, height: 0 },
                bottom_left: IntSize { width: 0, height: 0 },
                bottom_right: IntSize { width: 0, height: 0 },
            }),
    {
        BorderRadius {
            top_left: IntSize { width: 0, height: 0 },
            top_right: IntSize { width: 0, height: 0 },
            bottom_left: IntSize { width: 0, height: 0 },
            bottom_right: IntSize { width: 0, height: 0 },
        }
    }
}

/// Slicing description for a nine-patch border image.
#[derive(Clone, Copy, PartialEq, Eq, Structural, Debug)]
pub struct NinePatchDescriptor {
    pub width: u32,
    pub height: u32,
    pub slice: SideOffsets,
}

/// The geometry of a gradient: linear between two points, or radial around
/// a center.
#[derive(Clone, Copy, PartialEq, Eq, Structural, Debug)]
pub enum GradientGeometry {
    Linear { start: IntPoint, end: IntPoint },
    Radial { center: IntPoint, radius: IntSize },
}

/// What a border is drawn with.
#[derive(Clone, Copy, PartialEq, Eq, Structural, Debug)]
pub enum BorderDetails {
    Normal {
        top: BorderSide,
        right: BorderSide,
        bottom: BorderSide,
        left: BorderSide,
        radius: BorderRadius,
    },
    Image {
        image: ImageKey,
        patch: NinePatchDescriptor,
        outset: SideOffsets,
        repeat_horizontal: RepeatMode,
        repeat_vertical: RepeatMode,
    },
    Gradient {
        geometry: GradientGeometry,
        stops: ItemRange,
        extend_mode: ExtendMode,
        outset: SideOffsets,
    },
}

/// The parameters of a grouping (stacking context) command.
#[derive(Clone, Copy, PartialEq, Eq, Structural, Debug)]
pub struct StackingContext {
    pub bounds: IntRect,
    pub z_index: i32,
    pub transform: TransformSlot,
    pub blend_mode: MixBlendMode,
    pub opacity: OpacityFilter,
}

/// One draw or grouping command of a scene description.
#[derive(Clone, Copy, PartialEq, Eq, Structural, Debug)]
pub enum Command {
    PushStackingContext(StackingContext),
    PopStackingContext,
    PushClipNode { content: IntRect, clip: ClipRegion },
    PopClipNode,
    Rect { rect: IntRect, clip: ClipRegion, color: ColorValue },
    Image {
        bounds: IntRect,
        clip: ClipRegion,
        stretch_size: IntSize,
        tile_spacing: IntSize,
        rendering: ImageRendering,
        key: ImageKey,
    },
    Text {
        bounds: IntRect,
        clip: ClipRegion,
        color: ColorValue,
        font: FontKey,
        size: i32,
        glyphs: ItemRange,
    },
    Border { rect: IntRect, clip: ClipRegion, widths: SideOffsets, details: BorderDetails },
    Gradient {
        rect: IntRect,
        clip: ClipRegion,
        geometry: GradientGeometry,
        stops: ItemRange,
        extend_mode: ExtendMode,
        tile_size: IntSize,
        tile_spacing: IntSize,
    },
    BoxShadow {
        rect: IntRect,
        clip: ClipRegion,
        box_bounds: IntRect,
        offset: IntPoint,
        color: ColorValue,
        blur_radius: i32,
        spread_radius: i32,
        border_radius: i32,
        clip_mode: BoxShadowClipMode,
    },
    Iframe { rect: IntRect, clip: ClipRegion, pipeline: SceneId },
}

/// One entry of the auxiliary table.
#[derive(Clone, Copy, PartialEq, Eq, Structural, Debug)]
pub enum AuxEntry {
    ComplexClip { rect: IntRect, radius: BorderRadius },
    GradientStop { offset: i32, color: ColorValue },
    Glyph { index: u32, x: i32, y: i32 },
}

// ---------------------------------------------------------------------------
// Structural spec functions over command sequences.
// ---------------------------------------------------------------------------

/// How a command changes the stacking-context nesting depth.
pub open spec fn sc_delta(c: Command) -> int {
    match c {
        Command::PushStackingContext(..) => 1,
        Command::PopStackingContext => -1,
        _ => 0,
    }
}

/// How a command changes the clip-node nesting depth.
pub open spec fn clip_delta(c: Command) -> int {
    match c {
        Command::PushClipNode { .. } => 1,
        Command::PopClipNode => -1,
        _ => 0,
    }
}

/// Net stacking-context depth of a command sequence.
pub open spec fn sc_balance(cs: Seq<Command>) -> int
    decreases cs.len(),
{
    if cs.len() == 0 {
        0
    } else {
        sc_balance(cs.drop_last()) + sc_delta(cs.last())
    }
}

/// Net clip-node depth of a command sequence.
pub open spec fn clip_balance(cs: Seq<Command>) -> int
    decreases cs.len(),
{
    if cs.len() == 0 {
        0
    } else {
        clip_balance(cs.drop_last()) + clip_delta(cs.last())
    }
}

/// Every prefix closes no more stacking contexts and clip nodes than it
/// opened.
pub open spec fn prefixes_nonneg(cs: Seq<Command>) -> bool {
    forall|i: int| 0 <= i <= cs.len() ==> #[trigger] sc_balance(cs.subrange(0, i)) >= 0
        && clip_balance(cs.subrange(0, i)) >= 0
}

/// A well-nested fragment: balanced overall, and no prefix pops more than
/// was pushed.
pub open spec fn well_nested(cs: Seq<Command>) -> bool {
    sc_balance(cs) == 0 && clip_balance(cs) == 0 && prefixes_nonneg(cs)
}

/// The auxiliary ranges a single command references all lie within an
/// auxiliary table of `aux_len` entries.
pub open spec fn cmd_ranges_valid(c: Command, aux_len: nat) -> bool {
    match c {
        Command::PushStackingContext(..) => true,
        Command::PopStackingContext => true,
        Command::PushClipNode { clip, .. } => clip.complex.in_bounds(aux_len),
        Command::PopClipNode => true,
        Command::Rect { clip, .. } => clip.complex.in_bounds(aux_len),
        Command::Image { clip, .. } => clip.complex.in_bounds(aux_len),
        Command::Text { clip, glyphs, .. } => clip.complex.in_bounds(aux_len)
            && glyphs.in_bounds(aux_len),
        Command::Border { clip, details, .. } => clip.complex.in_bounds(aux_len)
            && (details matches BorderDetails::Gradient { stops, .. } ==> stops.in_bounds(
            aux_len,
        )),
        Command::Gradient { clip, stops, .. } => clip.complex.in_bounds(aux_len)
            && stops.in_bounds(aux_len),
        Command::BoxShadow { clip, .. } => clip.complex.in_bounds(aux_len),
        Command::Iframe { clip, .. } => clip.complex.in_bounds(aux_len),
    }
}

/// Every command's ranges lie within an auxiliary table of `aux_len`
/// entries.
pub open spec fn cmds_ranges_valid(cs: Seq<Command>, aux_len: nat) -> bool {
    forall|i: int| 0 <= i < cs.len() ==> #[trigger] cmd_ranges_valid(cs[i], aux_len)
}

/// True for grouping commands that open a stacking context.
pub open spec fn is_group(c: Command) -> bool {
    c is PushStackingContext
}

/// True for leaf draw commands.
pub open spec fn is_leaf(c: Command) -> bool {
    match c {
        Command::Rect { .. } => true,
        Command::Image { .. } => true,
        Command::Text { .. } => true,
        Command::Border { .. } => true,
        Command::Gradient { .. } => true,
        Command::BoxShadow { .. } => true,
        Command::Iframe { .. } => true,
        _ => false,
    }
}

/// Number of stacking contexts opened by the sequence.
pub open spec fn group_count(cs: Seq<Command>) -> nat
    decreases cs.len(),
{
    if cs.len() == 0 {
        0
    } else {
        group_count(cs.drop_last()) + if is_group(cs.last()) {
            1nat
        } else {
            0nat
        }
    }
}

/// Number of leaf draw commands in the sequence.
pub open spec fn leaf_count(cs: Seq<Command>) -> nat
    decreases cs.len(),
{
    if cs.len() == 0 {
        0
    } else {
        leaf_count(cs.drop_last()) + if is_leaf(cs.last()) {
            1nat
        } else {
            0nat
        }
    }
}

// ---------------------------------------------------------------------------
// Small lemmas about the structural spec functions.
// ---------------------------------------------------------------------------

/// Appending a command adds its delta to the balances and its kind to the
/// counts.
pub proof fn lemma_push_structure(cs: Seq<Command>, c: Command)
    ensures
        sc_balance(cs.push(c)) == sc_balance(cs) + sc_delta(c),
        clip_balance(cs.push(c)) == clip_balance(cs) + clip_delta(c),
        group_count(cs.push(c)) == group_count(cs) + if is_group(c) { 1nat } else { 0nat },
        leaf_count(cs.push(c)) == leaf_count(cs) + if is_leaf(c) { 1nat } else { 0nat },
{
    assert(cs.push(c).drop_last() =~= cs);
    assert(cs.push(c).last() == c);
}

/// Appending preserves prefix nonnegativity as long as the new overall
/// balances stay nonnegative.
pub proof fn lemma_push_prefixes_nonneg(cs: Seq<Command>, c: Command)
    requires
        prefixes_nonneg(cs),
        sc_balance(cs) + sc_delta(c) >= 0,
        clip_balance(cs) + clip_delta(c) >= 0,
    ensures
        prefixes_nonneg(cs.push(c)),
{
    let csc = cs.push(c);
    assert forall|i: int| 0 <= i <= csc.len() implies #[trigger] sc_balance(csc.subrange(0, i))
        >= 0 && clip_balance(csc.subrange(0, i)) >= 0 by {
        if i <= cs.len() {
            assert(csc.subrange(0, i) =~= cs.subrange(0, i));
        } else {
            assert(csc.subrange(0, i) =~= csc);
            assert(csc.drop_last() =~= cs);
        }
    }
}

/// Range validity is monotone in the auxiliary table length.
pub proof fn lemma_ranges_valid_monotone(cs: Seq<Command>, n: nat, m: nat)
    requires
        cmds_ranges_valid(cs, n),
        n <= m,
    ensures
        cmds_ranges_valid(cs, m),
{
    assert forall|i: int| 0 <= i < cs.len() implies #[trigger] cmd_ranges_valid(cs[i], m) by {
        assert(cmd_ranges_valid(cs[i], n));
    }
}

/// Appending a command whose ranges are valid keeps the whole sequence
/// valid.
pub proof fn lemma_push_ranges_valid(cs: Seq<Command>, c: Command, n: nat)
    requires
        cmds_ranges_valid(cs, n),
        cmd_ranges_valid(c, n),
    ensures
        cmds_ranges_valid(cs.push(c), n),
{
    let csc = cs.push(c);
    assert forall|i: int| 0 <= i < csc.len() implies #[trigger] cmd_ranges_valid(csc[i], n) by {
        if i < cs.len() {
            assert(cmd_ranges_valid(cs[i], n));
        }
    }
}

} // verus!

verus! {

// ---------------------------------------------------------------------------
// Caller-supplied auxiliary values.
// ---------------------------------------------------------------------------

/// One positioned glyph of a text run.
#[derive(Clone, Copy, PartialEq, Eq, Structural, Debug)]
pub struct GlyphInstance {
    pub index: u32,
    pub x: i32,
    pub y: i32,
}

/// One color stop of a gradient, offset in fixed-point units.
#[derive(Clone, Copy, PartialEq, Eq, Structural, Debug)]
pub struct GradientStopValue {
    pub offset: i32,
    pub color: ColorValue,
}

/// One rounded-rectangle clip of a complex clip list.
#[derive(Clone, Copy, PartialEq, Eq, Structural, Debug)]
pub struct ComplexClipValue {
    pub rect: IntRect,
    pub radius: BorderRadius,
}

pub open spec fn glyph_entry(g: GlyphInstance) -> AuxEntry {
    AuxEntry::Glyph { index: g.index, x: g.x, y: g.y }
}

pub open spec fn stop_entry(s: GradientStopValue) -> AuxEntry {
    AuxEntry::GradientStop { offset: s.offset, color: s.color }
}

pub open spec fn complex_entry(c: ComplexClipValue) -> AuxEntry {
    AuxEntry::ComplexClip { rect: c.rect, radius: c.radius }
}

// ---------------------------------------------------------------------------
// Concatenation lemmas: splicing a fragment into a scene.
// ---------------------------------------------------------------------------

/// Balances add over concatenation.
pub proof fn lemma_balance_concat(a: Seq<Command>, b: Seq<Command>)
    ensures
        sc_balance(a + b) == sc_balance(a) + sc_balance(b),
        clip_balance(a + b) == clip_balance(a) + clip_balance(b),
    decreases b.len(),
{
    if b.len() == 0 {
        assert(a + b =~= a);
    } else {
        let ab = a + b;
        assert(ab.drop_last() =~= a + b.drop_last());
        assert(ab.last() == b.last());
        lemma_balance_concat(a, b.drop_last());
    }
}

/// A well-prefixed fragment appended to a well-prefixed scene whose
/// balances are nonnegative keeps every prefix nonnegative.
pub proof fn lemma_prefixes_concat(a: Seq<Command>, b: Seq<Command>)
    requires
        prefixes_nonneg(a),
        prefixes_nonneg(b),
        sc_balance(a) >= 0,
        clip_balance(a) >= 0,
    ensures
        prefixes_nonneg(a + b),
{
    let ab = a + b;
    assert forall|i: int| 0 <= i <= ab.len() implies #[trigger] sc_balance(ab.subrange(0, i))
        >= 0 && clip_balance(ab.subrange(0, i)) >= 0 by {
        if i <= a.len() {
            assert(ab.subrange(0, i) =~= a.subrange(0, i));
            assert(sc_balance(a.subrange(0, i)) >= 0 && clip_balance(a.subrange(0, i)) >= 0);
        } else {
            let j = i - a.len();
            assert(ab.subrange(0, i) =~= a + b.subrange(0, j));
            lemma_balance_concat(a, b.subrange(0, j));
            assert(sc_balance(b.subrange(0, j)) >= 0 && clip_balance(b.subrange(0, j)) >= 0);
        }
    }
}

/// Range validity joins over concatenation.
pub proof fn lemma_ranges_concat(a: Seq<Command>, b: Seq<Command>, n: nat)
    requires
        cmds_ranges_valid(a, n),
        cmds_ranges_valid(b, n),
    ensures
        cmds_ranges_valid(a + b, n),
{
    let ab = a + b;
    assert forall|i: int| 0 <= i < ab.len() implies #[trigger] cmd_ranges_valid(ab[i], n) by {
        if i < a.len() {
            assert(cmd_ranges_valid(a[i], n));
        } else {
            assert(ab[i] == b[i - a.len()]);
            assert(cmd_ranges_valid(b[i - a.len()], n));
        }
    }
}

// ---------------------------------------------------------------------------
// Executable structural checks.
// ---------------------------------------------------------------------------

/// Whether a range lies within an auxiliary table of `aux_len` entries.
pub fn range_in_bounds(r: &ItemRange, aux_len: usize) -> (ok: bool)
    ensures
        ok == r.in_bounds(aux_len as nat),
{
    r.length <= aux_len && r.start <= aux_len - r.length
}

/// Whether every range a command references lies within an auxiliary table
/// of `aux_len` entries.
pub fn cmd_ranges_ok(c: &Command, aux_len: usize) -> (ok: bool)
    ensures
        ok == cmd_ranges_valid(*c, aux_len as nat),
{
    match c {
        Command::PushStackingContext(..) => true,
        Command::PopStackingContext => true,
        Command::PushClipNode { clip, .. } => range_in_bounds(&clip.complex, aux_len),
        Command::PopClipNode => true,
        Command::Rect { clip, .. } => range_in_bounds(&clip.complex, aux_len),
        Command::Image { clip, .. } => range_in_bounds(&clip.complex, aux_len),
        Command::Text { clip, glyphs, .. } => range_in_bounds(&clip.complex, aux_len)
            && range_in_bounds(glyphs, aux_len),
        Command::Border { clip, details, .. } => range_in_bounds(&clip.complex, aux_len) && (
        match details {
            BorderDetails::Gradient { stops, .. } => range_in_bounds(stops, aux_len),
            _ => true,
        }),
        Command::Gradient { clip, stops, .. } => range_in_bounds(&clip.complex, aux_len)
            && range_in_bounds(stops, aux_len),
        Command::BoxShadow { clip, .. } => range_in_bounds(&clip.complex, aux_len),
        Command::Iframe { clip, .. } => range_in_bounds(&clip.complex, aux_len),
    }
}

/// Whether every command's ranges lie within an auxiliary table of
/// `aux_len` entries.
pub fn cmds_ranges_ok(cs: &Vec<Command>, aux_len: usize) -> (ok: bool)
    ensures
        ok == cmds_ranges_valid(cs@, aux_len as nat),
{
    let mut i: usize = 0;
    while i < cs.len()
        invariant
            i <= cs@.len(),
            forall|j: int| 0 <= j < i ==> #[trigger] cmd_ranges_valid(cs@[j], aux_len as nat),
        decreases cs@.len() - i,
    {
        let c = cs[i];
        if !cmd_ranges_ok(&c, aux_len) {
            return false;
        }
        i = i + 1;
    }
    true
}

/// Whether a command sequence is balanced with no prefix closing more
/// scopes than it opened.
pub fn cmds_well_nested(cs: &Vec<Command>) -> (ok: bool)
    ensures
        ok == well_nested(cs@),
{
    let n = cs.len();
    let mut sc: usize = 0;
    let mut cl: usize = 0;
    let mut i: usize = 0;
    while i < n
        invariant
            i <= n,
            n == cs@.len(),
            sc == sc_balance(cs@.subrange(0, i as int)),
            cl == clip_balance(cs@.subrange(0, i as int)),
            sc <= i,
            cl <= i,
            prefixes_nonneg(cs@.subrange(0, i as int)),
        decreases n - i,
    {
        let c = cs[i];
        let ghost pre = cs@.subrange(0, i as int);
        proof {
            lemma_push_structure(pre, cs@[i as int]);
            assert(pre.push(cs@[i as int]) =~= cs@.subrange(0, i as int + 1));
        }
        match c {
            Command::PushStackingContext(..) => {
                sc = sc + 1;
            },
            Command::PopStackingContext => {
                if sc == 0 {
                    proof {
                        assert(sc_balance(cs@.subrange(0, i as int + 1)) < 0);
                    }
                    return false;
                }
                sc = sc - 1;
            },
            Command::PushClipNode { .. } => {
                cl = cl + 1;
            },
            Command::PopClipNode => {
                if cl == 0 {
                    proof {
                        assert(clip_balance(cs@.subrange(0, i as int + 1)) < 0);
                    }
                    return false;
                }
                cl = cl - 1;
            },
            _ => {},
        }
        proof {
            lemma_push_prefixes_nonneg(pre, cs@[i as int]);
        }
        i = i + 1;
    }
    proof {
        assert(cs@.subrange(0, cs@.len() as int) =~= cs@);
    }
    sc == 0 && cl == 0
}

/// Count of grouping and leaf commands, as the finalize descriptor reports
/// them.
pub fn cmds_counts(cs: &Vec<Command>) -> (r: (usize, usize))
    ensures
        r.0 == group_count(cs@),
        r.1 == leaf_count(cs@),
{
    let mut groups: usize = 0;
    let mut leaves: usize = 0;
    let mut i: usize = 0;
    while i < cs.len()
        invariant
            i <= cs@.len(),
            groups == group_count(cs@.subrange(0, i as int)),
            leaves == leaf_count(cs@.subrange(0, i as int)),
            groups <= i,
            leaves <= i,
        decreases cs@.len() - i,
    {
        let c = cs[i];
        let ghost pre = cs@.subrange(0, i as int);
        proof {
            lemma_push_structure(pre, cs@[i as int]);
            assert(pre.push(cs@[i as int]) =~= cs@.subrange(0, i as int + 1));
        }
        match c {
            Command::PushStackingContext(..) => {
                groups = groups + 1;
            },
            Command::Rect { .. } => {
                leaves = leaves + 1;
            },
            Command::Image { .. } => {
                leaves = leaves + 1;
            },
            Command::Text { .. } => {
                leaves = leaves + 1;
            },
            Command::Border { .. } => {
                leaves = leaves + 1;
            },
            Command::Gradient { .. } => {
                leaves = leaves + 1;
            },
            Command::BoxShadow { .. } => {
                leaves = leaves + 1;
            },
            Command::Iframe { .. } => {
                leaves = leaves + 1;
            },
            _ => {},
        }
        i = i + 1;
    }
    proof {
        assert(cs@.subrange(0, cs@.len() as int) =~= cs@);
    }
    (groups, leaves)
}

} // verus!
