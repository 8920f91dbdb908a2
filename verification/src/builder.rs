//! Incremental construction of one scene's display list.
//!
//! A [`SceneBuilder`] accumulates the ordered command stream and auxiliary
//! table for one scene ("pipeline"). Its states are *Empty* and *Open*;
//! [`SceneBuilder::begin`] opens it with an implicit root context covering
//! the given size, push/pop calls must balance, and
//! [`SceneBuilder::finalize`] (valid only at depth zero) serializes the
//! scene into two `(descriptor, byte buffer)` pairs and resets the builder
//! to Empty. A previously finalized fragment can be spliced back in with
//! [`SceneBuilder::push_built_fragment`]; its auxiliary index ranges are
//! appended, never renumbered.

use vstd::prelude::*;
use crate::ids::SceneId;
use crate::geometry::{IntPoint, IntSize, IntRect, SideOffsets, ColorValue, TransformMatrix,
    UNIT_ONE};
use crate::display::{
    ItemRange, ClipRegion, ImageMask, OpacityFilter, TransformSlot, MixBlendMode, ImageRendering,
    BorderSide, BorderRadius, NinePatchDescriptor, RepeatMode, ExtendMode, BoxShadowClipMode,
    GradientGeometry, BorderDetails, StackingContext, Command, AuxEntry, GlyphInstance,
    GradientStopValue, ComplexClipValue, glyph_entry, stop_entry, complex_entry, sc_balance,
    clip_balance, sc_delta, clip_delta, prefixes_nonneg, well_nested, cmd_ranges_valid,
    cmds_ranges_valid, group_count, leaf_count, lemma_push_structure, lemma_push_prefixes_nonneg,
    lemma_push_ranges_valid, lemma_ranges_valid_monotone, lemma_balance_concat,
    lemma_prefixes_concat, lemma_ranges_concat, cmds_well_nested, cmds_ranges_ok, cmds_counts,
};
use crate::ids::{ImageKey, FontKey};
use crate::buffer::ByteBufferHandle;
use crate::codec::{
    cmds_payload, aux_payload, decode_cmds_payload, decode_aux_payload, encode_cmds_payload,
    encode_aux_payload, decode_cmds_bytes, decode_aux_bytes,
};

verus! {

/// Whether the builder currently holds an open scene.
#[derive(Clone, Copy, PartialEq, Eq, Structural, Debug)]
pub enum BuilderPhase {
    Empty,
    Open,
}

/// Why a builder operation was rejected. All of these are caller protocol
/// violations; the builder reports them fail-fast and leaves its state
/// unchanged.
#[derive(Clone, Copy, PartialEq, Eq, Structural, Debug)]
pub enum SceneError {
    /// The builder holds no open scene.
    NotOpen,
    /// `pop_stacking_context` with no matching open context.
    UnbalancedPop,
    /// `pop_clip_node` with no matching open clip node.
    UnbalancedClipPop,
    /// Finalizing while stacking contexts or clip nodes are still open.
    OpenContexts,
    /// A supplied index range lies outside the auxiliary table.
    RangeOutOfBounds,
    /// More nested scopes than the builder can count.
    NestingTooDeep,
    /// A built fragment's payload does not decode to what its descriptor
    /// promises, or is not well nested.
    MalformedFragment,
}

/// Metadata returned with a finalized command payload; enough to parse the
/// payload without any out-of-band schema.
#[derive(Clone, Copy, PartialEq, Eq, Structural, Debug)]
pub struct BuiltDisplayListDescriptor {
    pub cmd_count: usize,
    pub group_count: usize,
    pub leaf_count: usize,
    pub byte_len: usize,
}

/// Metadata returned with a finalized auxiliary payload.
#[derive(Clone, Copy, PartialEq, Eq, Structural, Debug)]
pub struct AuxiliaryListsDescriptor {
    pub entry_count: usize,
    pub byte_len: usize,
}

/// A finalized scene: the command stream and the auxiliary table, each as
/// a descriptor plus an owned byte buffer.
#[derive(Debug)]
pub struct BuiltScene {
    pub dl_descriptor: BuiltDisplayListDescriptor,
    pub dl_data: ByteBufferHandle,
    pub aux_descriptor: AuxiliaryListsDescriptor,
    pub aux_data: ByteBufferHandle,
}

/// What a finalized scene promises about the command stream and auxiliary
/// table it was built from.
pub open spec fn built_scene_matches(b: BuiltScene, cs: Seq<Command>, es: Seq<AuxEntry>) -> bool {
    &&& b.dl_data@ == cmds_payload(cs)
    &&& b.dl_descriptor.cmd_count == cs.len()
    &&& b.dl_descriptor.group_count == group_count(cs)
    &&& b.dl_descriptor.leaf_count == leaf_count(cs)
    &&& b.dl_descriptor.byte_len == cmds_payload(cs).len()
    &&& b.aux_data@ == aux_payload(es)
    &&& b.aux_descriptor.entry_count == es.len()
    &&& b.aux_descriptor.byte_len == aux_payload(es).len()
}

/// The scene builder.
pub struct SceneBuilder {
    pub pipeline_id: SceneId,
    pub phase: BuilderPhase,
    /// Number of explicitly opened stacking contexts (the implicit root is
    /// not counted).
    pub depth: usize,
    /// Number of explicitly opened clip nodes.
    pub clip_depth: usize,
    /// Depth counter fed to stacking contexts, as the boundary assigns it.
    pub z_index: i32,
    pub root_width: u32,
    pub root_height: u32,
    pub commands: Vec<Command>,
    pub aux: Vec<AuxEntry>,
}

/// The literal-or-binding opacity filter a pushed stacking context gets:
/// a missing literal means the renderer resolves the binding key per
/// frame; a literal below one becomes an opacity filter; a fully opaque
/// literal needs no filter at all.
pub open spec fn opacity_slot_of(opacity: Option<i32>, animation_id: u64) -> OpacityFilter {
    match opacity {
        Some(v) => if v < UNIT_ONE {
            OpacityFilter::Literal(v)
        } else {
            OpacityFilter::Opaque
        },
        None => OpacityFilter::Binding(animation_id),
    }
}

/// The literal-or-binding transform a pushed stacking context gets.
pub open spec fn transform_slot_of(
    transform: Option<TransformMatrix>,
    animation_id: u64,
) -> TransformSlot {
    match transform {
        Some(m) => TransformSlot::Literal(m),
        None => TransformSlot::Binding(animation_id),
    }
}

/// The z-index assigned to the next stacking context.
pub open spec fn next_z(z: i32) -> i32 {
    if z < i32::MAX {
        (z + 1) as i32
    } else {
        z
    }
}

impl SceneBuilder {
    /// Structural well-formedness: the nesting counters agree with the
    /// command stream, no prefix over-pops, and every referenced range
    /// lies within the auxiliary table.
    pub open spec fn wf(self) -> bool {
        &&& (self.phase is Empty ==> self.commands@.len() == 0 && self.aux@.len() == 0
            && self.depth == 0 && self.clip_depth == 0)
        &&& sc_balance(self.commands@) == self.depth
        &&& clip_balance(self.commands@) == self.clip_depth
        &&& prefixes_nonneg(self.commands@)
        &&& cmds_ranges_valid(self.commands@, self.aux@.len())
        &&& self.depth <= self.commands@.len()
        &&& self.clip_depth <= self.commands@.len()
    }

    /// All fields that no command-appending operation touches.
    pub open spec fn same_frame(self, other: SceneBuilder) -> bool {
        &&& self.pipeline_id == other.pipeline_id
        &&& self.phase == other.phase
        &&& self.root_width == other.root_width
        &&& self.root_height == other.root_height
    }

    /// A fresh builder for one scene, holding nothing.
    pub fn new(pipeline_id: SceneId) -> (r: SceneBuilder)
        ensures
            r.wf(),
            r.pipeline_id == pipeline_id,
            r.phase is Empty,
            r.commands@.len() == 0,
            r.aux@.len() == 0,
    {
        let r = SceneBuilder {
            pipeline_id,
            phase: BuilderPhase::Empty,
            depth: 0,
            clip_depth: 0,
            z_index: 0,
            root_width: 0,
            root_height: 0,
            commands: Vec::new(),
            aux: Vec::new(),
        };
        proof {
            assert(r.commands@.len() == 0);
            assert forall|i: int| 0 <= i <= r.commands@.len() implies #[trigger] sc_balance(
                r.commands@.subrange(0, i),
            ) >= 0 && clip_balance(r.commands@.subrange(0, i)) >= 0 by {
                assert(r.commands@.subrange(0, i) =~= Seq::<Command>::empty());
            }
        }
        r
    }

    /// Opens (or reopens) the scene: clears every accumulated command and
    /// auxiliary entry and records the size the implicit root stacking
    /// context covers.
    pub fn begin(&mut self, width: u32, height: u32)
        ensures
            final(self).wf(),
            final(self).phase is Open,
            final(self).pipeline_id == old(self).pipeline_id,
            final(self).commands@.len() == 0,
            final(self).aux@.len() == 0,
            final(self).depth == 0,
            final(self).clip_depth == 0,
            final(self).z_index == 0,
            final(self).root_width == width,
            final(self).root_height == height,
    {
        self.phase = BuilderPhase::Open;
        self.depth = 0;
        self.clip_depth = 0;
        self.z_index = 0;
        self.root_width = width;
        self.root_height = height;
        self.commands = Vec::new();
        self.aux = Vec::new();
        proof {
            assert forall|i: int| 0 <= i <= self.commands@.len() implies #[trigger] sc_balance(
                self.commands@.subrange(0, i),
            ) >= 0 && clip_balance(self.commands@.subrange(0, i)) >= 0 by {
                assert(self.commands@.subrange(0, i) =~= Seq::<Command>::empty());
            }
        }
    }

    /// Closes the implicit root scope: valid only when every explicitly
    /// pushed stacking context and clip node has been popped.
    pub fn end(&self) -> (r: Result<(), SceneError>)
        ensures
            !(self.phase is Open) ==> r == Err::<(), SceneError>(SceneError::NotOpen),
            self.phase is Open && (self.depth != 0 || self.clip_depth != 0) ==> r == Err::<
                (),
                SceneError,
            >(SceneError::OpenContexts),
            self.phase is Open && self.depth == 0 && self.clip_depth == 0 ==> r is Ok,
    {
        match self.phase {
            BuilderPhase::Empty => Err(SceneError::NotOpen),
            BuilderPhase::Open => {
                if self.depth != 0 || self.clip_depth != 0 {
                    Err(SceneError::OpenContexts)
                } else {
                    Ok(())
                }
            },
        }
    }

    /// Appends one command and maintains the nesting counters. The callers
    /// check the protocol; this helper carries the invariant.
    fn append_command(&mut self, cmd: Command)
        requires
            old(self).wf(),
            old(self).phase is Open,
            cmd_ranges_valid(cmd, old(self).aux@.len()),
            cmd is PopStackingContext ==> old(self).depth > 0,
            cmd is PopClipNode ==> old(self).clip_depth > 0,
            cmd is PushStackingContext ==> old(self).depth < usize::MAX,
            cmd matches Command::PushClipNode { .. } ==> old(self).clip_depth < usize::MAX,
        ensures
            final(self).wf(),
            final(self).commands@ == old(self).commands@.push(cmd),
            final(self).aux == old(self).aux,
            final(self).same_frame(*old(self)),
            final(self).z_index == old(self).z_index,
            final(self).depth == old(self).depth + sc_delta(cmd),
            final(self).clip_depth == old(self).clip_depth + clip_delta(cmd),
    {
        proof {
            lemma_push_structure(self.commands@, cmd);
            lemma_push_prefixes_nonneg(self.commands@, cmd);
            lemma_push_ranges_valid(self.commands@, cmd, self.aux@.len());
        }
        self.commands.push(cmd);
        match &cmd {
            Command::PushStackingContext(..) => {
                self.depth = self.depth + 1;
            },
            Command::PopStackingContext => {
                self.depth = self.depth - 1;
            },
            Command::PushClipNode { .. } => {
                self.clip_depth = self.clip_depth + 1;
            },
            Command::PopClipNode => {
                self.clip_depth = self.clip_depth - 1;
            },
            _ => {},
        }
    }

    /// Opens a stacking context. The transform and the opacity each come
    /// either as a literal value or, when absent, as the binding key
    /// `animation_id` that the renderer resolves per frame — exactly one
    /// of the two per property.
    pub fn push_stacking_context(
        &mut self,
        bounds: IntRect,
        animation_id: u64,
        opacity: Option<i32>,
        transform: Option<TransformMatrix>,
        blend_mode: MixBlendMode,
    ) -> (r: Result<(), SceneError>)
        requires
            old(self).wf(),
        ensures
            final(self).wf(),
            !(old(self).phase is Open) ==> r == Err::<(), SceneError>(SceneError::NotOpen)
                && *final(self) == *old(self),
            old(self).phase is Open && old(self).depth == usize::MAX ==> r == Err::<
                (),
                SceneError,
            >(SceneError::NestingTooDeep) && *final(self) == *old(self),
            old(self).phase is Open && old(self).depth < usize::MAX ==> r is Ok
                && final(self).commands@ == old(self).commands@.push(
                Command::PushStackingContext(
                    StackingContext {
                        bounds,
                        z_index: next_z(old(self).z_index),
                        transform: transform_slot_of(transform, animation_id),
                        blend_mode,
                        opacity: opacity_slot_of(opacity, animation_id),
                    },
                ),
            ) && final(self).aux == old(self).aux && final(self).depth == old(self).depth + 1
                && final(self).clip_depth == old(self).clip_depth && final(self).z_index == next_z(
                old(self).z_index,
            ) && final(self).same_frame(*old(self)),
    {
        match self.phase {
            BuilderPhase::Empty => Err(SceneError::NotOpen),
            BuilderPhase::Open => {
                if self.depth == usize::MAX {
                    return Err(SceneError::NestingTooDeep);
                }
                if self.z_index < i32::MAX {
                    self.z_index = self.z_index + 1;
                }
                let opacity_slot = match opacity {
                    Some(v) => if v < UNIT_ONE {
                        OpacityFilter::Literal(v)
                    } else {
                        OpacityFilter::Opaque
                    },
                    None => OpacityFilter::Binding(animation_id),
                };
                let transform_slot = match transform {
                    Some(m) => TransformSlot::Literal(m),
                    None => TransformSlot::Binding(animation_id),
                };
                let sc = StackingContext {
                    bounds,
                    z_index: self.z_index,
                    transform: transform_slot,
                    blend_mode,
                    opacity: opacity_slot,
                };
                self.append_command(Command::PushStackingContext(sc));
                Ok(())
            },
        }
    }

    /// Closes the innermost open stacking context. A pop with no matching
    /// open context is rejected, never silently ignored.
    pub fn pop_stacking_context(&mut self) -> (r: Result<(), SceneError>)
        requires
            old(self).wf(),
        ensures
            final(self).wf(),
            !(old(self).phase is Open) ==> r == Err::<(), SceneError>(SceneError::NotOpen)
                && *final(self) == *old(self),
            old(self).phase is Open && old(self).depth == 0 ==> r == Err::<(), SceneError>(
                SceneError::UnbalancedPop,
            ) && *final(self) == *old(self),
            old(self).phase is Open && old(self).depth > 0 ==> r is Ok && final(self).commands@
                == old(self).commands@.push(Command::PopStackingContext) && final(self).aux == old(
                self,
            ).aux && final(self).depth == old(self).depth - 1 && final(self).clip_depth == old(
                self,
            ).clip_depth && final(self).z_index == old(self).z_index && final(self).same_frame(
                *old(self),
            ),
    {
        match self.phase {
            BuilderPhase::Empty => Err(SceneError::NotOpen),
            BuilderPhase::Open => {
                if self.depth == 0 {
                    return Err(SceneError::UnbalancedPop);
                }
                self.append_command(Command::PopStackingContext);
                Ok(())
            },
        }
    }

    /// Opens a scroll/clip scope over `content`, clipped by `clip`.
    pub fn push_clip_node(&mut self, content: IntRect, clip: ClipRegion) -> (r: Result<
        (),
        SceneError,
    >)
        requires
            old(self).wf(),
        ensures
            final(self).wf(),
            !(old(self).phase is Open) ==> r == Err::<(), SceneError>(SceneError::NotOpen)
                && *final(self) == *old(self),
            old(self).phase is Open && !clip.complex.in_bounds(old(self).aux@.len()) ==> r
                == Err::<(), SceneError>(SceneError::RangeOutOfBounds) && *final(self) == *old(self),
            old(self).phase is Open && clip.complex.in_bounds(old(self).aux@.len()) && old(
                self,
            ).clip_depth == usize::MAX ==> r == Err::<(), SceneError>(SceneError::NestingTooDeep)
                && *final(self) == *old(self),
            old(self).phase is Open && clip.complex.in_bounds(old(self).aux@.len()) && old(
                self,
            ).clip_depth < usize::MAX ==> r is Ok && final(self).commands@ == old(
                self,
            ).commands@.push(Command::PushClipNode { content, clip }) && final(self).aux == old(
                self,
            ).aux && final(self).depth == old(self).depth && final(self).clip_depth == old(
                self,
            ).clip_depth + 1 && final(self).z_index == old(self).z_index && final(self).same_frame(
                *old(self),
            ),
    {
        match self.phase {
            BuilderPhase::Empty => Err(SceneError::NotOpen),
            BuilderPhase::Open => {
                if !crate::display::range_in_bounds(&clip.complex, self.aux.len()) {
                    return Err(SceneError::RangeOutOfBounds);
                }
                if self.clip_depth == usize::MAX {
                    return Err(SceneError::NestingTooDeep);
                }
                self.append_command(Command::PushClipNode { content, clip });
                Ok(())
            },
        }
    }

    /// Closes the innermost open clip node; rejected when none is open.
    pub fn pop_clip_node(&mut self) -> (r: Result<(), SceneError>)
        requires
            old(self).wf(),
        ensures
            final(self).wf(),
            !(old(self).phase is Open) ==> r == Err::<(), SceneError>(SceneError::NotOpen)
                && *final(self) == *old(self),
            old(self).phase is Open && old(self).clip_depth == 0 ==> r == Err::<(), SceneError>(
                SceneError::UnbalancedClipPop,
            ) && *final(self) == *old(self),
            old(self).phase is Open && old(self).clip_depth > 0 ==> r is Ok
                && final(self).commands@ == old(self).commands@.push(Command::PopClipNode)
                && final(self).aux == old(self).aux && final(self).depth == old(self).depth
                && final(self).clip_depth == old(self).clip_depth - 1 && final(self).z_index == old(
                self,
            ).z_index && final(self).same_frame(*old(self)),
    {
        match self.phase {
            BuilderPhase::Empty => Err(SceneError::NotOpen),
            BuilderPhase::Open => {
                if self.clip_depth == 0 {
                    return Err(SceneError::UnbalancedClipPop);
                }
                self.append_command(Command::PopClipNode);
                Ok(())
            },
        }
    }
}

} // verus!

verus! {

/// What every leaf-command push leaves unchanged and what it appends.
pub open spec fn leaf_push_ok(pre: SceneBuilder, post: SceneBuilder, cmd: Command) -> bool {
    &&& post.commands@ == pre.commands@.push(cmd)
    &&& post.aux == pre.aux
    &&& post.depth == pre.depth
    &&& post.clip_depth == pre.clip_depth
    &&& post.z_index == pre.z_index
    &&& post.same_frame(pre)
}

impl SceneBuilder {
    /// Appends complex clip entries to the auxiliary table.
    fn append_complex(&mut self, complex: &Vec<ComplexClipValue>) -> (start: usize)
        requires
            old(self).wf(),
            old(self).phase is Open,
        ensures
            final(self).wf(),
            final(self).phase is Open,
            final(self).aux@ == old(self).aux@ + complex@.map_values(
                |c: ComplexClipValue| complex_entry(c),
            ),
            final(self).commands == old(self).commands,
            final(self).depth == old(self).depth,
            final(self).clip_depth == old(self).clip_depth,
            final(self).z_index == old(self).z_index,
            final(self).same_frame(*old(self)),
            start == old(self).aux@.len(),
    {
        let start = self.aux.len();
        let mut i: usize = 0;
        while i < complex.len()
            invariant
                i <= complex@.len(),
                self.aux@ == old(self).aux@ + complex@.subrange(0, i as int).map_values(
                    |c: ComplexClipValue| complex_entry(c),
                ),
                self.commands == old(self).commands,
                self.depth == old(self).depth,
                self.clip_depth == old(self).clip_depth,
                self.z_index == old(self).z_index,
                self.phase == old(self).phase,
                self.pipeline_id == old(self).pipeline_id,
                self.root_width == old(self).root_width,
                self.root_height == old(self).root_height,
                old(self).wf(),
            decreases complex@.len() - i,
        {
            let c = complex[i];
            self.aux.push(AuxEntry::ComplexClip { rect: c.rect, radius: c.radius });
            proof {
                assert(complex@.subrange(0, i as int + 1).map_values(
                    |c: ComplexClipValue| complex_entry(c),
                ) =~= complex@.subrange(0, i as int).map_values(
                    |c: ComplexClipValue| complex_entry(c),
                ).push(complex_entry(complex@[i as int])));
                assert(self.aux@ =~= old(self).aux@ + complex@.subrange(0, i as int + 1).map_values(
                    |c: ComplexClipValue| complex_entry(c),
                ));
            }
            i = i + 1;
        }
        proof {
            assert(complex@.subrange(0, complex@.len() as int) =~= complex@);
            lemma_ranges_valid_monotone(self.commands@, old(self).aux@.len(), self.aux@.len());
        }
        start
    }

    /// Appends gradient stops to the auxiliary table.
    fn append_stops(&mut self, stops: &Vec<GradientStopValue>) -> (start: usize)
        requires
            old(self).wf(),
            old(self).phase is Open,
        ensures
            final(self).wf(),
            final(self).phase is Open,
            final(self).aux@ == old(self).aux@ + stops@.map_values(
                |s: GradientStopValue| stop_entry(s),
            ),
            final(self).commands == old(self).commands,
            final(self).depth == old(self).depth,
            final(self).clip_depth == old(self).clip_depth,
            final(self).z_index == old(self).z_index,
            final(self).same_frame(*old(self)),
            start == old(self).aux@.len(),
    {
        let start = self.aux.len();
        let mut i: usize = 0;
        while i < stops.len()
            invariant
                i <= stops@.len(),
                self.aux@ == old(self).aux@ + stops@.subrange(0, i as int).map_values(
                    |s: GradientStopValue| stop_entry(s),
                ),
                self.commands == old(self).commands,
                self.depth == old(self).depth,
                self.clip_depth == old(self).clip_depth,
                self.z_index == old(self).z_index,
                self.phase == old(self).phase,
                self.pipeline_id == old(self).pipeline_id,
                self.root_width == old(self).root_width,
                self.root_height == old(self).root_height,
                old(self).wf(),
            decreases stops@.len() - i,
        {
            let s = stops[i];
            self.aux.push(AuxEntry::GradientStop { offset: s.offset, color: s.color });
            proof {
                assert(stops@.subrange(0, i as int + 1).map_values(
                    |s: GradientStopValue| stop_entry(s),
                ) =~= stops@.subrange(0, i as int).map_values(
                    |s: GradientStopValue| stop_entry(s),
                ).push(stop_entry(stops@[i as int])));
                assert(self.aux@ =~= old(self).aux@ + stops@.subrange(0, i as int + 1).map_values(
                    |s: GradientStopValue| stop_entry(s),
                ));
            }
            i = i + 1;
        }
        proof {
            assert(stops@.subrange(0, stops@.len() as int) =~= stops@);
            lemma_ranges_valid_monotone(self.commands@, old(self).aux@.len(), self.aux@.len());
        }
        start
    }

    /// Appends glyphs to the auxiliary table.
    fn append_glyphs(&mut self, glyphs: &Vec<GlyphInstance>) -> (start: usize)
        requires
            old(self).wf(),
            old(self).phase is Open,
        ensures
            final(self).wf(),
            final(self).phase is Open,
            final(self).aux@ == old(self).aux@ + glyphs@.map_values(
                |g: GlyphInstance| glyph_entry(g),
            ),
            final(self).commands == old(self).commands,
            final(self).depth == old(self).depth,
            final(self).clip_depth == old(self).clip_depth,
            final(self).z_index == old(self).z_index,
            final(self).same_frame(*old(self)),
            start == old(self).aux@.len(),
    {
        let start = self.aux.len();
        let mut i: usize = 0;
        while i < glyphs.len()
            invariant
                i <= glyphs@.len(),
                self.aux@ == old(self).aux@ + glyphs@.subrange(0, i as int).map_values(
                    |g: GlyphInstance| glyph_entry(g),
                ),
                self.commands == old(self).commands,
                self.depth == old(self).depth,
                self.clip_depth == old(self).clip_depth,
                self.z_index == old(self).z_index,
                self.phase == old(self).phase,
                self.pipeline_id == old(self).pipeline_id,
                self.root_width == old(self).root_width,
                self.root_height == old(self).root_height,
                old(self).wf(),
            decreases glyphs@.len() - i,
        {
            let g = glyphs[i];
            self.aux.push(AuxEntry::Glyph { index: g.index, x: g.x, y: g.y });
            proof {
                assert(glyphs@.subrange(0, i as int + 1).map_values(
                    |g: GlyphInstance| glyph_entry(g),
                ) =~= glyphs@.subrange(0, i as int).map_values(
                    |g: GlyphInstance| glyph_entry(g),
                ).push(glyph_entry(glyphs@[i as int])));
                assert(self.aux@ =~= old(self).aux@ + glyphs@.subrange(0, i as int + 1).map_values(
                    |g: GlyphInstance| glyph_entry(g),
                ));
            }
            i = i + 1;
        }
        proof {
            assert(glyphs@.subrange(0, glyphs@.len() as int) =~= glyphs@);
            lemma_ranges_valid_monotone(self.commands@, old(self).aux@.len(), self.aux@.len());
        }
        start
    }

    /// Builds a clip region: appends the complex clips to the auxiliary
    /// table and returns a region referencing them by range, with the
    /// optional image mask carried as a proper option.
    pub fn new_clip_region(
        &mut self,
        main: IntRect,
        complex: &Vec<ComplexClipValue>,
        mask: Option<ImageMask>,
    ) -> (r: Result<ClipRegion, SceneError>)
        requires
            old(self).wf(),
        ensures
            final(self).wf(),
            !(old(self).phase is Open) ==> r == Err::<ClipRegion, SceneError>(SceneError::NotOpen)
                && *final(self) == *old(self),
            old(self).phase is Open ==> r == Ok::<ClipRegion, SceneError>(
                ClipRegion {
                    main,
                    complex: ItemRange {
                        start: old(self).aux@.len() as usize,
                        length: complex@.len() as usize,
                    },
                    mask,
                },
            ) && final(self).aux@ == old(self).aux@ + complex@.map_values(
                |c: ComplexClipValue| complex_entry(c),
            ) && final(self).commands == old(self).commands && final(self).depth == old(self).depth
                && final(self).clip_depth == old(self).clip_depth && final(self).z_index == old(
                self,
            ).z_index && final(self).same_frame(*old(self)),
    {
        match self.phase {
            BuilderPhase::Empty => Err(SceneError::NotOpen),
            BuilderPhase::Open => {
                let start = self.append_complex(complex);
                Ok(ClipRegion {
                    main,
                    complex: ItemRange { start, length: complex.len() },
                    mask,
                })
            },
        }
    }

    /// Checks that the builder is open and the clip's range is within the
    /// auxiliary table; the shared protocol prologue of every leaf push.
    fn leaf_check(&self, clip: &ClipRegion) -> (r: Result<(), SceneError>)
        ensures
            !(self.phase is Open) ==> r == Err::<(), SceneError>(SceneError::NotOpen),
            self.phase is Open && !clip.complex.in_bounds(self.aux@.len()) ==> r == Err::<
                (),
                SceneError,
            >(SceneError::RangeOutOfBounds),
            self.phase is Open && clip.complex.in_bounds(self.aux@.len()) ==> r is Ok,
    {
        match self.phase {
            BuilderPhase::Empty => Err(SceneError::NotOpen),
            BuilderPhase::Open => {
                if !crate::display::range_in_bounds(&clip.complex, self.aux.len()) {
                    Err(SceneError::RangeOutOfBounds)
                } else {
                    Ok(())
                }
            },
        }
    }

    /// Appends a solid rectangle.
    pub fn push_rect(&mut self, rect: IntRect, clip: ClipRegion, color: ColorValue) -> (r: Result<
        (),
        SceneError,
    >)
        requires
            old(self).wf(),
        ensures
            final(self).wf(),
            !(old(self).phase is Open) ==> r == Err::<(), SceneError>(SceneError::NotOpen)
                && *final(self) == *old(self),
            old(self).phase is Open && !clip.complex.in_bounds(old(self).aux@.len()) ==> r
                == Err::<(), SceneError>(SceneError::RangeOutOfBounds) && *final(self) == *old(
                self,
            ),
            old(self).phase is Open && clip.complex.in_bounds(old(self).aux@.len()) ==> r is Ok
                && leaf_push_ok(*old(self), *final(self), (Command::Rect { rect, clip, color })),
    {
        match self.leaf_check(&clip) {
            Err(e) => Err(e),
            Ok(()) => {
                self.append_command(Command::Rect { rect, clip, color });
                Ok(())
            },
        }
    }

    /// Appends an image leaf referencing a keyed image resource.
    pub fn push_image(
        &mut self,
        bounds: IntRect,
        clip: ClipRegion,
        stretch_size: IntSize,
        tile_spacing: IntSize,
        rendering: ImageRendering,
        key: ImageKey,
    ) -> (r: Result<(), SceneError>)
        requires
            old(self).wf(),
        ensures
            final(self).wf(),
            !(old(self).phase is Open) ==> r == Err::<(), SceneError>(SceneError::NotOpen)
                && *final(self) == *old(self),
            old(self).phase is Open && !clip.complex.in_bounds(old(self).aux@.len()) ==> r
                == Err::<(), SceneError>(SceneError::RangeOutOfBounds) && *final(self) == *old(
                self,
            ),
            old(self).phase is Open && clip.complex.in_bounds(old(self).aux@.len()) ==> r is Ok
                && leaf_push_ok(
                *old(self),
                *final(self),
                (Command::Image { bounds, clip, stretch_size, tile_spacing, rendering, key }),
            ),
    {
        match self.leaf_check(&clip) {
            Err(e) => Err(e),
            Ok(()) => {
                self.append_command(
                    Command::Image { bounds, clip, stretch_size, tile_spacing, rendering, key },
                );
                Ok(())
            },
        }
    }

    /// Appends a nested-scene reference.
    pub fn push_iframe(&mut self, rect: IntRect, clip: ClipRegion, pipeline: SceneId) -> (r:
        Result<(), SceneError>)
        requires
            old(self).wf(),
        ensures
            final(self).wf(),
            !(old(self).phase is Open) ==> r == Err::<(), SceneError>(SceneError::NotOpen)
                && *final(self) == *old(self),
            old(self).phase is Open && !clip.complex.in_bounds(old(self).aux@.len()) ==> r
                == Err::<(), SceneError>(SceneError::RangeOutOfBounds) && *final(self) == *old(
                self,
            ),
            old(self).phase is Open && clip.complex.in_bounds(old(self).aux@.len()) ==> r is Ok
                && leaf_push_ok(*old(self), *final(self), (Command::Iframe { rect, clip, pipeline })),
    {
        match self.leaf_check(&clip) {
            Err(e) => Err(e),
            Ok(()) => {
                self.append_command(Command::Iframe { rect, clip, pipeline });
                Ok(())
            },
        }
    }

    /// Appends a box shadow.
    pub fn push_box_shadow(
        &mut self,
        rect: IntRect,
        clip: ClipRegion,
        box_bounds: IntRect,
        offset: IntPoint,
        color: ColorValue,
        blur_radius: i32,
        spread_radius: i32,
        border_radius: i32,
        clip_mode: BoxShadowClipMode,
    ) -> (r: Result<(), SceneError>)
        requires
            old(self).wf(),
        ensures
            final(self).wf(),
            !(old(self).phase is Open) ==> r == Err::<(), SceneError>(SceneError::NotOpen)
                && *final(self) == *old(self),
            old(self).phase is Open && !clip.complex.in_bounds(old(self).aux@.len()) ==> r
                == Err::<(), SceneError>(SceneError::RangeOutOfBounds) && *final(self) == *old(
                self,
            ),
            old(self).phase is Open && clip.complex.in_bounds(old(self).aux@.len()) ==> r is Ok
                && leaf_push_ok(
                *old(self),
                *final(self),
                (Command::BoxShadow {
                    rect,
                    clip,
                    box_bounds,
                    offset,
                    color,
                    blur_radius,
                    spread_radius,
                    border_radius,
                    clip_mode,
                }),
            ),
    {
        match self.leaf_check(&clip) {
            Err(e) => Err(e),
            Ok(()) => {
                self.append_command(
                    Command::BoxShadow {
                        rect,
                        clip,
                        box_bounds,
                        offset,
                        color,
                        blur_radius,
                        spread_radius,
                        border_radius,
                        clip_mode,
                    },
                );
                Ok(())
            },
        }
    }

    /// Appends a normal border drawn with per-edge sides and corner radii.
    pub fn push_border(
        &mut self,
        rect: IntRect,
        clip: ClipRegion,
        widths: SideOffsets,
        top: BorderSide,
        right: BorderSide,
        bottom: BorderSide,
        left: BorderSide,
        radius: BorderRadius,
    ) -> (r: Result<(), SceneError>)
        requires
            old(self).wf(),
        ensures
            final(self).wf(),
            !(old(self).phase is Open) ==> r == Err::<(), SceneError>(SceneError::NotOpen)
                && *final(self) == *old(self),
            old(self).phase is Open && !clip.complex.in_bounds(old(self).aux@.len()) ==> r
                == Err::<(), SceneError>(SceneError::RangeOutOfBounds) && *final(self) == *old(
                self,
            ),
            old(self).phase is Open && clip.complex.in_bounds(old(self).aux@.len()) ==> r is Ok
                && leaf_push_ok(
                *old(self),
                *final(self),
                (Command::Border {
                    rect,
                    clip,
                    widths,
                    details: BorderDetails::Normal { top, right, bottom, left, radius },
                }),
            ),
    {
        match self.leaf_check(&clip) {
            Err(e) => Err(e),
            Ok(()) => {
                self.append_command(
                    Command::Border {
                        rect,
                        clip,
                        widths,
                        details: BorderDetails::Normal { top, right, bottom, left, radius },
                    },
                );
                Ok(())
            },
        }
    }

    /// Appends a border drawn with a nine-patch image.
    pub fn push_border_image(
        &mut self,
        rect: IntRect,
        clip: ClipRegion,
        widths: SideOffsets,
        image: ImageKey,
        patch: NinePatchDescriptor,
        outset: SideOffsets,
        repeat_horizontal: RepeatMode,
        repeat_vertical: RepeatMode,
    ) -> (r: Result<(), SceneError>)
        requires
            old(self).wf(),
        ensures
            final(self).wf(),
            !(old(self).phase is Open) ==> r == Err::<(), SceneError>(SceneError::NotOpen)
                && *final(self) == *old(self),
            old(self).phase is Open && !clip.complex.in_bounds(old(self).aux@.len()) ==> r
                == Err::<(), SceneError>(SceneError::RangeOutOfBounds) && *final(self) == *old(
                self,
            ),
            old(self).phase is Open && clip.complex.in_bounds(old(self).aux@.len()) ==> r is Ok
                && leaf_push_ok(
                *old(self),
                *final(self),
                (Command::Border {
                    rect,
                    clip,
                    widths,
                    details: BorderDetails::Image {
                        image,
                        patch,
                        outset,
                        repeat_horizontal,
                        repeat_vertical,
                    },
                }),
            ),
    {
        match self.leaf_check(&clip) {
            Err(e) => Err(e),
            Ok(()) => {
                self.append_command(
                    Command::Border {
                        rect,
                        clip,
                        widths,
                        details: BorderDetails::Image {
                            image,
                            patch,
                            outset,
                            repeat_horizontal,
                            repeat_vertical,
                        },
                    },
                );
                Ok(())
            },
        }
    }
}

} // verus!

verus! {

impl SceneBuilder {
    /// Appends a text run; the glyphs go to the auxiliary table and the
    /// command references them by range. `size` is the font size in
    /// fixed-point units.
    pub fn push_text(
        &mut self,
        bounds: IntRect,
        clip: ClipRegion,
        color: ColorValue,
        font: FontKey,
        glyphs: &Vec<GlyphInstance>,
        size: i32,
    ) -> (r: Result<(), SceneError>)
        requires
            old(self).wf(),
        ensures
            final(self).wf(),
            !(old(self).phase is Open) ==> r == Err::<(), SceneError>(SceneError::NotOpen)
                && *final(self) == *old(self),
            old(self).phase is Open && !clip.complex.in_bounds(old(self).aux@.len()) ==> r
                == Err::<(), SceneError>(SceneError::RangeOutOfBounds) && *final(self) == *old(
                self,
            ),
            old(self).phase is Open && clip.complex.in_bounds(old(self).aux@.len()) ==> r is Ok
                && final(self).commands@ == old(self).commands@.push(
                Command::Text {
                    bounds,
                    clip,
                    color,
                    font,
                    size,
                    glyphs: ItemRange {
                        start: old(self).aux@.len() as usize,
                        length: glyphs@.len() as usize,
                    },
                },
            ) && final(self).aux@ == old(self).aux@ + glyphs@.map_values(
                |g: GlyphInstance| glyph_entry(g),
            ) && final(self).depth == old(self).depth && final(self).clip_depth == old(
                self,
            ).clip_depth && final(self).z_index == old(self).z_index && final(self).same_frame(
                *old(self),
            ),
    {
        match self.leaf_check(&clip) {
            Err(e) => Err(e),
            Ok(()) => {
                let start = self.append_glyphs(glyphs);
                let range = ItemRange { start, length: glyphs.len() };
                self.append_command(
                    Command::Text { bounds, clip, color, font, size, glyphs: range },
                );
                Ok(())
            },
        }
    }

    /// Appends a linear gradient; the stops go to the auxiliary table.
    pub fn push_linear_gradient(
        &mut self,
        rect: IntRect,
        clip: ClipRegion,
        start_point: IntPoint,
        end_point: IntPoint,
        stops: &Vec<GradientStopValue>,
        extend_mode: ExtendMode,
        tile_size: IntSize,
        tile_spacing: IntSize,
    ) -> (r: Result<(), SceneError>)
        requires
            old(self).wf(),
        ensures
            final(self).wf(),
            !(old(self).phase is Open) ==> r == Err::<(), SceneError>(SceneError::NotOpen)
                && *final(self) == *old(self),
            old(self).phase is Open && !clip.complex.in_bounds(old(self).aux@.len()) ==> r
                == Err::<(), SceneError>(SceneError::RangeOutOfBounds) && *final(self) == *old(
                self,
            ),
            old(self).phase is Open && clip.complex.in_bounds(old(self).aux@.len()) ==> r is Ok
                && final(self).commands@ == old(self).commands@.push(
                Command::Gradient {
                    rect,
                    clip,
                    geometry: GradientGeometry::Linear { start: start_point, end: end_point },
                    stops: ItemRange {
                        start: old(self).aux@.len() as usize,
                        length: stops@.len() as usize,
                    },
                    extend_mode,
                    tile_size,
                    tile_spacing,
                },
            ) && final(self).aux@ == old(self).aux@ + stops@.map_values(
                |s: GradientStopValue| stop_entry(s),
            ) && final(self).depth == old(self).depth && final(self).clip_depth == old(
                self,
            ).clip_depth && final(self).z_index == old(self).z_index && final(self).same_frame(
                *old(self),
            ),
    {
        match self.leaf_check(&clip) {
            Err(e) => Err(e),
            Ok(()) => {
                let start = self.append_stops(stops);
                let range = ItemRange { start, length: stops.len() };
                self.append_command(
                    Command::Gradient {
                        rect,
                        clip,
                        geometry: GradientGeometry::Linear { start: start_point, end: end_point },
                        stops: range,
                        extend_mode,
                        tile_size,
                        tile_spacing,
                    },
                );
                Ok(())
            },
        }
    }

    /// Appends a radial gradient; the stops go to the auxiliary table.
    pub fn push_radial_gradient(
        &mut self,
        rect: IntRect,
        clip: ClipRegion,
        center: IntPoint,
        radius: IntSize,
        stops: &Vec<GradientStopValue>,
        extend_mode: ExtendMode,
        tile_size: IntSize,
        tile_spacing: IntSize,
    ) -> (r: Result<(), SceneError>)
        requires
            old(self).wf(),
        ensures
            final(self).wf(),
            !(old(self).phase is Open) ==> r == Err::<(), SceneError>(SceneError::NotOpen)
                && *final(self) == *old(self),
            old(self).phase is Open && !clip.complex.in_bounds(old(self).aux@.len()) ==> r
                == Err::<(), SceneError>(SceneError::RangeOutOfBounds) && *final(self) == *old(
                self,
            ),
            old(self).phase is Open && clip.complex.in_bounds(old(self).aux@.len()) ==> r is Ok
                && final(self).commands@ == old(self).commands@.push(
                Command::Gradient {
                    rect,
                    clip,
                    geometry: GradientGeometry::Radial { center, radius },
                    stops: ItemRange {
                        start: old(self).aux@.len() as usize,
                        length: stops@.len() as usize,
                    },
                    extend_mode,
                    tile_size,
                    tile_spacing,
                },
            ) && final(self).aux@ == old(self).aux@ + stops@.map_values(
                |s: GradientStopValue| stop_entry(s),
            ) && final(self).depth == old(self).depth && final(self).clip_depth == old(
                self,
            ).clip_depth && final(self).z_index == old(self).z_index && final(self).same_frame(
                *old(self),
            ),
    {
        match self.leaf_check(&clip) {
            Err(e) => Err(e),
            Ok(()) => {
                let start = self.append_stops(stops);
                let range = ItemRange { start, length: stops.len() };
                self.append_command(
                    Command::Gradient {
                        rect,
                        clip,
                        geometry: GradientGeometry::Radial { center, radius },
                        stops: range,
                        extend_mode,
                        tile_size,
                        tile_spacing,
                    },
                );
                Ok(())
            },
        }
    }

    /// Appends a border drawn with a linear gradient.
    pub fn push_border_gradient(
        &mut self,
        rect: IntRect,
        clip: ClipRegion,
        widths: SideOffsets,
        start_point: IntPoint,
        end_point: IntPoint,
        stops: &Vec<GradientStopValue>,
        extend_mode: ExtendMode,
        outset: SideOffsets,
    ) -> (r: Result<(), SceneError>)
        requires
            old(self).wf(),
        ensures
            final(self).wf(),
            !(old(self).phase is Open) ==> r == Err::<(), SceneError>(SceneError::NotOpen)
                && *final(self) == *old(self),
            old(self).phase is Open && !clip.complex.in_bounds(old(self).aux@.len()) ==> r
                == Err::<(), SceneError>(SceneError::RangeOutOfBounds) && *final(self) == *old(
                self,
            ),
            old(self).phase is Open && clip.complex.in_bounds(old(self).aux@.len()) ==> r is Ok
                && final(self).commands@ == old(self).commands@.push(
                Command::Border {
                    rect,
                    clip,
                    widths,
                    details: BorderDetails::Gradient {
                        geometry: GradientGeometry::Linear { start: start_point, end: end_point },
                        stops: ItemRange {
                            start: old(self).aux@.len() as usize,
                            length: stops@.len() as usize,
                        },
                        extend_mode,
                        outset,
                    },
                },
            ) && final(self).aux@ == old(self).aux@ + stops@.map_values(
                |s: GradientStopValue| stop_entry(s),
            ) && final(self).depth == old(self).depth && final(self).clip_depth == old(
                self,
            ).clip_depth && final(self).z_index == old(self).z_index && final(self).same_frame(
                *old(self),
            ),
    {
        match self.leaf_check(&clip) {
            Err(e) => Err(e),
            Ok(()) => {
                let start = self.append_stops(stops);
                let range = ItemRange { start, length: stops.len() };
                self.append_command(
                    Command::Border {
                        rect,
                        clip,
                        widths,
                        details: BorderDetails::Gradient {
                            geometry: GradientGeometry::Linear {
                                start: start_point,
                                end: end_point,
                            },
                            stops: range,
                            extend_mode,
                            outset,
                        },
                    },
                );
                Ok(())
            },
        }
    }

    /// Appends a border drawn with a radial gradient.
    pub fn push_border_radial_gradient(
        &mut self,
        rect: IntRect,
        clip: ClipRegion,
        widths: SideOffsets,
        center: IntPoint,
        radius: IntSize,
        stops: &Vec<GradientStopValue>,
        extend_mode: ExtendMode,
        outset: SideOffsets,
    ) -> (r: Result<(), SceneError>)
        requires
            old(self).wf(),
        ensures
            final(self).wf(),
            !(old(self).phase is Open) ==> r == Err::<(), SceneError>(SceneError::NotOpen)
                && *final(self) == *old(self),
            old(self).phase is Open && !clip.complex.in_bounds(old(self).aux@.len()) ==> r
                == Err::<(), SceneError>(SceneError::RangeOutOfBounds) && *final(self) == *old(
                self,
            ),
            old(self).phase is Open && clip.complex.in_bounds(old(self).aux@.len()) ==> r is Ok
                && final(self).commands@ == old(self).commands@.push(
                Command::Border {
                    rect,
                    clip,
                    widths,
                    details: BorderDetails::Gradient {
                        geometry: GradientGeometry::Radial { center, radius },
                        stops: ItemRange {
                            start: old(self).aux@.len() as usize,
                            length: stops@.len() as usize,
                        },
                        extend_mode,
                        outset,
                    },
                },
            ) && final(self).aux@ == old(self).aux@ + stops@.map_values(
                |s: GradientStopValue| stop_entry(s),
            ) && final(self).depth == old(self).depth && final(self).clip_depth == old(
                self,
            ).clip_depth && final(self).z_index == old(self).z_index && final(self).same_frame(
                *old(self),
            ),
    {
        match self.leaf_check(&clip) {
            Err(e) => Err(e),
            Ok(()) => {
                let start = self.append_stops(stops);
                let range = ItemRange { start, length: stops.len() };
                self.append_command(
                    Command::Border {
                        rect,
                        clip,
                        widths,
                        details: BorderDetails::Gradient {
                            geometry: GradientGeometry::Radial { center, radius },
                            stops: range,
                            extend_mode,
                            outset,
                        },
                    },
                );
                Ok(())
            },
        }
    }
}

} // verus!

verus! {

/// What splicing a fragment demands of its two payloads: the descriptors
/// must match the byte lengths, both payloads must decode to exactly the
/// promised counts, the fragment must be well nested, its ranges must lie
/// within its own auxiliary table, and the descriptor's group and leaf
/// counts must be honest.
pub open spec fn fragment_decodes(
    dld: BuiltDisplayListDescriptor,
    dlb: Seq<u8>,
    axd: AuxiliaryListsDescriptor,
    axb: Seq<u8>,
) -> Option<(Seq<Command>, Seq<AuxEntry>)> {
    if dld.byte_len != dlb.len() || axd.byte_len != axb.len() {
        None
    } else {
        match decode_cmds_payload(dlb, dld.cmd_count as nat) {
            None => None,
            Some(cs) => match decode_aux_payload(axb, axd.entry_count as nat) {
                None => None,
                Some(es) => if well_nested(cs) && cmds_ranges_valid(cs, es.len()) && group_count(
                    cs,
                ) == dld.group_count && leaf_count(cs) == dld.leaf_count {
                    Some((cs, es))
                } else {
                    None
                },
            },
        }
    }
}

/// Round trip: the output of a finalized scene, handed back as a
/// fragment, decodes to exactly the commands and auxiliary entries the
/// scene was built from. Together with the contracts of
/// [`SceneBuilder::finalize`] (whose output satisfies
/// [`built_scene_matches`], with a well-nested command stream whose
/// ranges lie within its auxiliary table) and of
/// [`SceneBuilder::push_built_fragment`] (which appends exactly what
/// [`fragment_decodes`] yields), this says that finalizing any balanced
/// scene and splicing its own output into an open builder reproduces the
/// scene's command and auxiliary sequences unchanged.
pub proof fn lemma_fragment_round_trip(b: BuiltScene, cs: Seq<Command>, es: Seq<AuxEntry>)
    requires
        built_scene_matches(b, cs, es),
        well_nested(cs),
        cmds_ranges_valid(cs, es.len()),
    ensures
        fragment_decodes(b.dl_descriptor, b.dl_data@, b.aux_descriptor, b.aux_data@) == Some(
            (cs, es),
        ),
{
    crate::codec::lemma_cmds_payload_round_trip(cs);
    crate::codec::lemma_aux_payload_round_trip(es);
}

impl SceneBuilder {
    /// Serializes the open scene into two `(descriptor, byte buffer)`
    /// pairs — the command stream and the auxiliary table — and resets the
    /// builder to Empty. Valid only when every pushed scope was popped;
    /// a mismatched begin/end is rejected fail-fast.
    pub fn finalize(&mut self) -> (r: Result<BuiltScene, SceneError>)
        requires
            old(self).wf(),
        ensures
            final(self).wf(),
            !(old(self).phase is Open) ==> r == Err::<BuiltScene, SceneError>(SceneError::NotOpen)
                && *final(self) == *old(self),
            old(self).phase is Open && (old(self).depth != 0 || old(self).clip_depth != 0) ==> r
                == Err::<BuiltScene, SceneError>(SceneError::OpenContexts) && *final(self) == *old(
                self,
            ),
            old(self).phase is Open && old(self).depth == 0 && old(self).clip_depth == 0 ==> (
            r matches Ok(b) && built_scene_matches(b, old(self).commands@, old(self).aux@))
                && well_nested(old(self).commands@) && cmds_ranges_valid(
                old(self).commands@,
                old(self).aux@.len(),
            ) && final(self).phase is Empty && final(self).commands@.len() == 0
                && final(self).aux@.len() == 0 && final(self).pipeline_id == old(self).pipeline_id,
    {
        match self.phase {
            BuilderPhase::Empty => Err(SceneError::NotOpen),
            BuilderPhase::Open => {
                if self.depth != 0 || self.clip_depth != 0 {
                    return Err(SceneError::OpenContexts);
                }
                let dl_bytes = encode_cmds_payload(&self.commands);
                let aux_bytes = encode_aux_payload(&self.aux);
                let (groups, leaves) = cmds_counts(&self.commands);
                let dl_descriptor = BuiltDisplayListDescriptor {
                    cmd_count: self.commands.len(),
                    group_count: groups,
                    leaf_count: leaves,
                    byte_len: dl_bytes.len(),
                };
                let aux_descriptor = AuxiliaryListsDescriptor {
                    entry_count: self.aux.len(),
                    byte_len: aux_bytes.len(),
                };
                let built = BuiltScene {
                    dl_descriptor,
                    dl_data: ByteBufferHandle::from_buffer(dl_bytes),
                    aux_descriptor,
                    aux_data: ByteBufferHandle::from_buffer(aux_bytes),
                };
                self.phase = BuilderPhase::Empty;
                self.z_index = 0;
                self.commands = Vec::new();
                self.aux = Vec::new();
                proof {
                    assert forall|i: int| 0 <= i <= self.commands@.len() implies
                        #[trigger] sc_balance(self.commands@.subrange(0, i)) >= 0 && clip_balance(
                        self.commands@.subrange(0, i),
                    ) >= 0 by {
                        assert(self.commands@.subrange(0, i) =~= Seq::<Command>::empty());
                    }
                }
                Ok(built)
            },
        }
    }

    /// Splices a previously finalized fragment into the open scene: its
    /// commands and auxiliary entries are appended as they are — auxiliary
    /// index ranges are not renumbered, which is sound because fragments
    /// are always appended, never interleaved. A payload that does not
    /// decode to what its descriptors promise, or that is not well
    /// nested, is rejected with the builder unchanged.
    pub fn push_built_fragment(
        &mut self,
        dl_descriptor: BuiltDisplayListDescriptor,
        dl_data: ByteBufferHandle,
        aux_descriptor: AuxiliaryListsDescriptor,
        aux_data: ByteBufferHandle,
    ) -> (r: Result<(), SceneError>)
        requires
            old(self).wf(),
        ensures
            final(self).wf(),
            !(old(self).phase is Open) ==> r == Err::<(), SceneError>(SceneError::NotOpen)
                && *final(self) == *old(self),
            old(self).phase is Open && fragment_decodes(
                dl_descriptor,
                dl_data@,
                aux_descriptor,
                aux_data@,
            ) is None ==> r == Err::<(), SceneError>(SceneError::MalformedFragment) && *final(self)
                == *old(self),
            old(self).phase is Open ==> (fragment_decodes(
                dl_descriptor,
                dl_data@,
                aux_descriptor,
                aux_data@,
            ) matches Some((cs, es)) ==> r is Ok && final(self).commands@ == old(self).commands@
                + cs && final(self).aux@ == old(self).aux@ + es && final(self).depth == old(
                self,
            ).depth && final(self).clip_depth == old(self).clip_depth && final(self).z_index
                == old(self).z_index && final(self).same_frame(*old(self))),
    {
        match self.phase {
            BuilderPhase::Empty => Err(SceneError::NotOpen),
            BuilderPhase::Open => {
                let dl_bytes = dl_data.into_buffer();
                let aux_bytes = aux_data.into_buffer();
                if dl_descriptor.byte_len != dl_bytes.len() || aux_descriptor.byte_len
                    != aux_bytes.len() {
                    return Err(SceneError::MalformedFragment);
                }
                let mut cmds = match decode_cmds_bytes(&dl_bytes, dl_descriptor.cmd_count) {
                    Some(v) => v,
                    None => {
                        return Err(SceneError::MalformedFragment);
                    },
                };
                let mut entries = match decode_aux_bytes(&aux_bytes, aux_descriptor.entry_count) {
                    Some(v) => v,
                    None => {
                        return Err(SceneError::MalformedFragment);
                    },
                };
                if !cmds_well_nested(&cmds) {
                    return Err(SceneError::MalformedFragment);
                }
                if !cmds_ranges_ok(&cmds, entries.len()) {
                    return Err(SceneError::MalformedFragment);
                }
                let (groups, leaves) = cmds_counts(&cmds);
                if groups != dl_descriptor.group_count || leaves != dl_descriptor.leaf_count {
                    return Err(SceneError::MalformedFragment);
                }
                let ghost cs = cmds@;
                let ghost es = entries@;
                let ghost pre = self.commands@;
                let ghost pre_aux_len = self.aux@.len();
                self.commands.append(&mut cmds);
                self.aux.append(&mut entries);
                proof {
                    lemma_balance_concat(pre, cs);
                    lemma_prefixes_concat(pre, cs);
                    lemma_ranges_valid_monotone(pre, pre_aux_len, self.aux@.len());
                    lemma_ranges_valid_monotone(cs, es.len(), self.aux@.len());
                    lemma_ranges_concat(pre, cs, self.aux@.len());
                }
                Ok(())
            },
        }
    }
}

} // verus!
