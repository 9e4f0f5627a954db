//! The rendering context: a transform stack, the view-space baseline,
//! the current draw color, and a trace of draw calls.
//!
//! The context does not rasterize; it records one entry per draw call,
//! carrying the composed transform in force at that call. A backend
//! turns the trace into pixels.

use vstd::prelude::*;

use crate::transform::{
    spec_mat_identity, spec_mat_of_transform, spec_mat_mul, spec_transform_identity, AABBox, Mat3,
    Transform,
};

verus! {

/// An RGBA color.
#[derive(Debug, Clone, Copy, PartialEq, Eq, Structural)]
pub struct Palette {
    pub r: u8,
    pub g: u8,
    pub b: u8,
    pub a: u8,
}

#[allow(non_snake_case)]
impl Palette {
    pub fn RED() -> (c: Palette)
        ensures
            c == (Palette { r: 255, g: 0, b: 0, a: 255 }),
    {
        Palette { r: 255, g: 0, b: 0, a: 255 }
    }

    pub fn LIME() -> (c: Palette)
        ensures
            c == (Palette { r: 0, g: 255, b: 0, a: 255 }),
    {
        Palette { r: 0, g: 255, b: 0, a: 255 }
    }

    pub fn WHITE(alpha: u8) -> (c: Palette)
        ensures
            c == (Palette { r: 255, g: 255, b: 255, a: alpha }),
    {
        Palette { r: 255, g: 255, b: 255, a: alpha }
    }

    pub fn BLACK() -> (c: Palette)
        ensures
            c == (Palette { r: 0, g: 0, b: 0, a: 255 }),
    {
        Palette { r: 0, g: 0, b: 0, a: 255 }
    }
}

/// How a rectangle is rendered.
#[derive(Debug, Clone, Copy, PartialEq, Eq, Structural)]
pub enum RenderStyle {
    FILL,
    OUTLINE,
}

/// A recorded drawing primitive, for a backend to rasterize.
#[derive(Debug)]
pub enum PrimRec {
    /// Fill the whole target with the color.
    Clear { color: Palette },
    /// An axis-aligned rectangle in device space.
    Rect { aabb: AABBox, style: RenderStyle, color: Palette },
    /// A line of text in device space.
    Text { x: i32, y: i32, text: String, size: u32, spacing: u32, color: Palette },
    /// The performance counters of the diagnostic overlay; times in
    /// nanoseconds.
    Stats { fps: u64, ups: u64, avg_ren_time: u64, avg_up_time: u64, avg_blit_time: u64, color: Palette },
    /// The device and view coordinates of the pointer overlay.
    Coords { mx: i32, my: i32, vx: i64, vy: i64, color: Palette },
    /// Present the finished frame.
    Present,
}

/// One draw call: which node drew, under which composed transform and
/// color.
#[derive(Debug, Clone, Copy, PartialEq, Eq, Structural)]
pub struct DrawRec {
    pub id: usize,
    pub xform: Mat3,
}

/// A counter bumped by one, held at the numeric ceiling.
pub open spec fn spec_bump(c: int) -> int {
    if c < u64::MAX as int {
        c + 1
    } else {
        c
    }
}

/// The shared rendering context.
pub struct Context {
    /// Saved transforms, innermost last.
    pub stack: Vec<Mat3>,
    /// The transform in force for the next draw call.
    pub current: Mat3,
    /// The view-space baseline transform.
    pub view: Mat3,
    /// The components the view-space transform was built from.
    pub view_t: Transform,
    /// The color for the next draw call.
    pub draw_color: Palette,
    /// One entry per draw call, in call order.
    pub trace: Vec<DrawRec>,
    /// Recorded drawing primitives, in call order.
    pub prims: Vec<PrimRec>,
    /// How many times a node's composed matrix was recomputed.
    pub recomputes: u64,
}

impl Context {
    pub fn new() -> (r: Context)
        ensures
            r.stack@ == Seq::<Mat3>::empty(),
            r.current == spec_mat_identity(),
            r.view == spec_mat_identity(),
            r.trace@ == Seq::<DrawRec>::empty(),
            r.prims@ == Seq::<PrimRec>::empty(),
            r.view_t == spec_transform_identity(),
            r.recomputes == 0,
    {
        let r = Context {
            stack: Vec::new(),
            current: Mat3::identity(),
            view: Mat3::identity(),
            view_t: Transform::new(),
            draw_color: Palette::WHITE(255),
            trace: Vec::new(),
            prims: Vec::new(),
            recomputes: 0,
        };
        proof {
            assert(r.stack@ =~= Seq::<Mat3>::empty());
            assert(r.trace@ =~= Seq::<DrawRec>::empty());
            assert(r.prims@ =~= Seq::<PrimRec>::empty());
        }
        r
    }

    /// Install the view-space baseline, from its components, and make
    /// it current.
    pub fn set_view_space(&mut self, t: Transform)
        ensures
            *final(self) == (Context {
                view: spec_mat_of_transform(t),
                view_t: t,
                current: spec_mat_of_transform(t),
                ..*old(self)
            }),
    {
        let m = crate::transform::mat_of_transform(&t);
        self.view = m;
        self.view_t = t;
        self.current = m;
    }

    pub fn get_view_space(&self) -> (r: Mat3)
        ensures
            r == self.view,
    {
        self.view
    }

    /// Push the current transform; `restore` brings it back.
    pub fn save(&mut self)
        ensures
            *final(self) == (Context {
                stack: final(self).stack,
                ..*old(self)
            }),
            final(self).stack@ == old(self).stack@.push(old(self).current),
    {
        self.stack.push(self.current);
    }

    /// Pop the innermost saved transform; without one, nothing changes.
    pub fn restore(&mut self)
        ensures
            old(self).stack@.len() > 0 ==> *final(self) == (Context {
                stack: final(self).stack,
                current: old(self).stack@.last(),
                ..*old(self)
            }) && final(self).stack@ == old(self).stack@.drop_last(),
            old(self).stack@.len() == 0 ==> final(self).stack@ == old(self).stack@
                && final(self).current == old(self).current
                && final(self).view == old(self).view
                && final(self).draw_color == old(self).draw_color
                && final(self).trace == old(self).trace
                && final(self).recomputes == old(self).recomputes,
    {
        match self.stack.pop() {
            Option::Some(m) => {
                self.current = m;
            },
            Option::None => {},
        }
    }

    /// Compose a local transform onto the current one.
    pub fn apply(&mut self, m: &Mat3)
        ensures
            *final(self) == (Context {
                current: spec_mat_mul(old(self).current, *m),
                ..*old(self)
            }),
    {
        self.current = self.current.multiply(m);
    }

    pub fn set_draw_color(&mut self, color: &Palette)
        ensures
            *final(self) == (Context { draw_color: *color, ..*old(self) }),
    {
        self.draw_color = *color;
    }

    /// Record one draw call of the node under the current transform.
    pub fn record_draw(&mut self, id: usize)
        ensures
            *final(self) == (Context { trace: final(self).trace, ..*old(self) }),
            final(self).trace@ == old(self).trace@.push(
                DrawRec { id, xform: old(self).current },
            ),
    {
        self.trace.push(DrawRec { id, xform: self.current });
    }

    /// Count one recomputation of a composed matrix.
    pub fn note_recompute(&mut self)
        ensures
            *final(self) == (Context { recomputes: final(self).recomputes, ..*old(self) }),
            final(self).recomputes as int == spec_bump(old(self).recomputes as int),
    {
        if self.recomputes < u64::MAX {
            self.recomputes = self.recomputes + 1;
        }
    }

    /// Record a whole-target clear with the current draw color.
    pub fn clear(&mut self)
        ensures
            *final(self) == (Context { prims: final(self).prims, ..*old(self) }),
            final(self).prims@ == old(self).prims@.push(
                PrimRec::Clear { color: old(self).draw_color },
            ),
    {
        self.prims.push(PrimRec::Clear { color: self.draw_color });
    }

    /// Record a line of text in device space.
    pub fn text(&mut self, x: i32, y: i32, text: &str, size: u32, spacing: u32)
        ensures
            *final(self) == (Context { prims: final(self).prims, ..*old(self) }),
            final(self).prims@.len() == old(self).prims@.len() + 1,
            forall|i: int|
                0 <= i < old(self).prims@.len() ==> final(self).prims@[i] == old(self).prims@[i],
            ({
                let p = final(self).prims@.last();
                &&& p matches PrimRec::Text { x: px, y: py, text: pt, size: ps, spacing: pp, color: pc }
                    && px == x && py == y && pt@ == text@ && ps == size && pp == spacing && pc == old(
                    self,
                ).draw_color
            }),
    {
        self.prims.push(
            PrimRec::Text {
                x,
                y,
                text: text.to_owned(),
                size,
                spacing,
                color: self.draw_color,
            },
        );
    }

    /// Record an axis-aligned rectangle in device space.
    pub fn render_aabb_rectangle(&mut self, aabb: &AABBox, style: RenderStyle)
        ensures
            *final(self) == (Context { prims: final(self).prims, ..*old(self) }),
            final(self).prims@ == old(self).prims@.push(
                PrimRec::Rect { aabb: *aabb, style, color: old(self).draw_color },
            ),
    {
        self.prims.push(PrimRec::Rect { aabb: *aabb, style, color: self.draw_color });
    }

    /// Record the diagnostic counter overlay.
    pub fn stats(&mut self, fps: u64, ups: u64, avg_ren_time: u64, avg_up_time: u64, avg_blit_time: u64)
        ensures
            *final(self) == (Context { prims: final(self).prims, ..*old(self) }),
            final(self).prims@ == old(self).prims@.push(
                PrimRec::Stats {
                    fps,
                    ups,
                    avg_ren_time,
                    avg_up_time,
                    avg_blit_time,
                    color: old(self).draw_color,
                },
            ),
    {
        self.prims.push(
            PrimRec::Stats {
                fps,
                ups,
                avg_ren_time,
                avg_up_time,
                avg_blit_time,
                color: self.draw_color,
            },
        );
    }

    /// Record the pointer coordinate overlay.
    pub fn coords(&mut self, mx: i32, my: i32, vx: i64, vy: i64)
        ensures
            *final(self) == (Context { prims: final(self).prims, ..*old(self) }),
            final(self).prims@ == old(self).prims@.push(
                PrimRec::Coords { mx, my, vx, vy, color: old(self).draw_color },
            ),
    {
        self.prims.push(PrimRec::Coords { mx, my, vx, vy, color: self.draw_color });
    }

    /// Record the end of the frame.
    pub fn post(&mut self)
        ensures
            *final(self) == (Context { prims: final(self).prims, ..*old(self) }),
            final(self).prims@ == old(self).prims@.push(PrimRec::Present),
    {
        self.prims.push(PrimRec::Present);
    }

    /// Forget the recorded draw calls and primitives (a new frame
    /// begins).
    pub fn clear_trace(&mut self)
        ensures
            *final(self) == (Context {
                trace: final(self).trace,
                prims: final(self).prims,
                ..*old(self)
            }),
            final(self).trace@ == Seq::<DrawRec>::empty(),
            final(self).prims@ == Seq::<PrimRec>::empty(),
    {
        self.trace.clear();
        self.prims.clear();
        proof {
            assert(self.trace@ =~= Seq::<DrawRec>::empty());
            assert(self.prims@ =~= Seq::<PrimRec>::empty());
        }
    }
}

} // verus!
