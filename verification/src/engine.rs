//! The fixed-timestep core: an accumulator decouples the update
//! frequency from the render frequency. Elapsed wall time is drained
//! in fixed update periods — one scheduler pass per period — and the
//! remainder becomes the interpolation factor of the frame.

use vstd::prelude::*;

use crate::node::{wf_cache, Node, NodeArena};
use crate::scene_manager::{spec_stack_push, SceneManager};
use crate::scheduler::{spec_update_list, Scheduler};

verus! {

/// Nanoseconds in a second.
pub const SECOND_NS: u64 = 1000000000;

/// Minimum frames per second to aim for when pacing.
pub const FRAMES_PER_SECOND: u64 = 120;

/// Fixed updates per second.
pub const UPDATES_PER_SECOND: u64 = 30;

/// One whole scheduler pass: the system tier, then the normal tier.
pub open spec fn spec_sched_pass(
    s: Seq<Node>,
    sys: Seq<usize>,
    norm: Seq<usize>,
    dt_ns: int,
) -> Seq<Node> {
    spec_update_list(
        spec_update_list(s, sys, sys.len() as int, dt_ns),
        norm,
        norm.len() as int,
        dt_ns,
    )
}

/// `n` whole scheduler passes in a row.
pub open spec fn spec_sched_passes(
    s: Seq<Node>,
    sys: Seq<usize>,
    norm: Seq<usize>,
    n: nat,
    dt_ns: int,
) -> Seq<Node>
    decreases n,
{
    if n == 0 {
        s
    } else {
        spec_sched_pass(spec_sched_passes(s, sys, norm, (n - 1) as nat, dt_ns), sys, norm, dt_ns)
    }
}

/// The fixed-timestep frame driver and its diagnostic counters. All
/// times are in nanoseconds.
pub struct Core {
    /// Effective frames per second over the last whole second.
    pub fps: u64,
    /// Computed updates per second over the last whole second.
    pub ups: u64,
    /// The frame budget when pacing.
    pub frame_period: u64,
    /// The fixed update period.
    pub update_period: u64,
    /// Average blit time over the last whole second.
    pub avg_blit_time: u64,
    /// Average render time over the last whole second.
    pub avg_ren_time: u64,
    /// Average update time over the last whole second.
    pub avg_up_time: u64,
    /// Unconsumed elapsed time, always below one update period.
    pub lag: u64,
    /// Elapsed time toward the next counter reset.
    pub second_acm: u64,
    /// Frames seen in the current second.
    pub frame_count: u64,
    /// Updates fired in the current second.
    pub update_count: u64,
    /// Accumulated blit time in the current second.
    pub blit_accum: u64,
    /// Accumulated render time in the current second.
    pub proc_accum: u64,
    /// Accumulated update time in the current second.
    pub up_accum: u64,
}

impl Core {
    pub fn new() -> (r: Core)
        ensures
            r.fps == 0,
            r.ups == 0,
            r.frame_period == SECOND_NS / FRAMES_PER_SECOND,
            r.update_period == SECOND_NS / UPDATES_PER_SECOND,
            r.lag == 0,
            r.second_acm == 0,
            r.frame_count == 0,
            r.update_count == 0,
            r.blit_accum == 0,
            r.proc_accum == 0,
            r.up_accum == 0,
    {
        Core {
            fps: 0,
            ups: 0,
            frame_period: SECOND_NS / FRAMES_PER_SECOND,
            update_period: SECOND_NS / UPDATES_PER_SECOND,
            avg_blit_time: 0,
            avg_ren_time: 0,
            avg_up_time: 0,
            lag: 0,
            second_acm: 0,
            frame_count: 0,
            update_count: 0,
            blit_accum: 0,
            proc_accum: 0,
            up_accum: 0,
        }
    }

    pub fn initialize(&mut self)
        ensures
            *final(self) == *old(self),
    {
    }

    /// Drain the elapsed time in fixed update periods, driving one
    /// scheduler pass per period, and return the number of updates
    /// fired together with the interpolation factor in thousandths —
    /// the fraction of the next period already elapsed, in [0, 1000).
    #[verifier::loop_isolation(false)]
    #[verifier::rlimit(100)]
    pub fn advance_frame(
        &mut self,
        arena: &mut NodeArena,
        scheduler: &Scheduler,
        elapsed_ns: u64,
    ) -> (r: (u64, i64))
        requires
            old(arena).wf(),
            old(self).update_period == SECOND_NS / UPDATES_PER_SECOND,
            old(self).lag < old(self).update_period,
            elapsed_ns < 0x1000_0000_0000_0000,
        ensures
            final(arena).wf(),
            wf_cache(old(arena).nodes@) ==> wf_cache(final(arena).nodes@),
            r.0 == ((old(self).lag + elapsed_ns) as int) / (old(self).update_period as int),
            final(self).lag == ((old(self).lag + elapsed_ns) as int) % (
            old(self).update_period as int),
            final(self).lag < old(self).update_period,
            r.1 == (final(self).lag as int) * 1000 / (old(self).update_period as int),
            0 <= r.1 < 1000,
            final(arena).nodes@ == spec_sched_passes(
                old(arena).nodes@,
                scheduler.system_targets@,
                scheduler.normal_targets@,
                r.0 as nat,
                old(self).update_period as int,
            ),
            *final(self) == (Core { lag: final(self).lag, ..*old(self) }),
    {
        let ghost s0 = arena.nodes@;
        let period = self.update_period;
        // One pass advances simulated time by exactly one period.
        let dt_ns: i64 = period as i64;
        let total: u64 = self.lag + elapsed_ns;
        let mut n: u64 = 0;
        self.lag = total;
        while self.lag >= period
            invariant
                arena.wf(),
                wf_cache(s0) ==> wf_cache(arena.nodes@),
                self.lag as int + n as int * period as int == total as int,
                arena.nodes@ == spec_sched_passes(
                    s0,
                    scheduler.system_targets@,
                    scheduler.normal_targets@,
                    n as nat,
                    dt_ns as int,
                ),
                *self == (Core { lag: self.lag, ..*old(self) }),
            decreases self.lag,
        {
            scheduler.update(arena, dt_ns);
            self.lag = self.lag - period;
            proof {
                assert(n as int <= n as int * period as int) by (nonlinear_arith)
                    requires
                        period as int >= 1,
                        n as int >= 0,
                ;
            }
            n = n + 1;
            proof {
                assert(n as int * period as int == (n as int - 1) * period as int
                    + period as int) by (nonlinear_arith);
            }
        }
        proof {
            vstd::arithmetic::div_mod::lemma_fundamental_div_mod_converse(
                total as int,
                period as int,
                n as int,
                self.lag as int,
            );
        }
        let interp: i64 = ((self.lag * 1000) / period) as i64;
        proof {
            assert((self.lag as int) * 1000 / (period as int) < 1000) by (nonlinear_arith)
                requires
                    0 <= (self.lag as int) < (period as int),
                    period as int > 0,
            ;
            assert((self.lag as int) * 1000 >= 0) by (nonlinear_arith)
                requires
                    self.lag as int >= 0,
            ;
        }
        (n, interp)
    }

    /// Fold one frame's timings into the per-second counters; when a
    /// whole second has accumulated, publish the averages and reset.
    pub fn note_frame(
        &mut self,
        elapsed_ns: u64,
        updates: u64,
        render_ns: u64,
        update_ns: u64,
        blit_ns: u64,
    )
        requires
            old(self).second_acm < SECOND_NS,
            elapsed_ns < 0x1000_0000_0000_0000,
            old(self).frame_count < 0xFFFF_FFFF,
            old(self).update_count < 0xFFFF_FFFF,
            updates < 0xFFFF_FFFF,
            render_ns < 0x1000_0000_0000_0000,
            update_ns < 0x1000_0000_0000_0000,
            blit_ns < 0x1000_0000_0000_0000,
            old(self).blit_accum < 0x4000_0000_0000_0000,
            old(self).proc_accum < 0x4000_0000_0000_0000,
            old(self).up_accum < 0x4000_0000_0000_0000,
        ensures
            final(self).second_acm < SECOND_NS,
            ({
                let acm = old(self).second_acm + elapsed_ns;
                let frames = old(self).frame_count + 1;
                let ups2 = old(self).update_count + updates;
                &&& (acm >= SECOND_NS ==> *final(self) == (Core {
                    fps: frames as u64,
                    ups: ups2 as u64,
                    avg_blit_time: ((old(self).blit_accum + blit_ns) as int / frames as int) as u64,
                    avg_ren_time: ((old(self).proc_accum + render_ns) as int / frames as int) as u64,
                    avg_up_time: ((old(self).up_accum + update_ns) as int / frames as int) as u64,
                    second_acm: 0,
                    frame_count: 0,
                    update_count: 0,
                    blit_accum: 0,
                    proc_accum: 0,
                    up_accum: 0,
                    ..*old(self)
                }))
                &&& (acm < SECOND_NS ==> *final(self) == (Core {
                    second_acm: acm as u64,
                    frame_count: frames as u64,
                    update_count: ups2 as u64,
                    blit_accum: (old(self).blit_accum + blit_ns) as u64,
                    proc_accum: (old(self).proc_accum + render_ns) as u64,
                    up_accum: (old(self).up_accum + update_ns) as u64,
                    ..*old(self)
                }))
            }),
    {
        let acm = self.second_acm + elapsed_ns;
        let frames = self.frame_count + 1;
        let ups2 = self.update_count + updates;
        let blit = self.blit_accum + blit_ns;
        let proc = self.proc_accum + render_ns;
        let up = self.up_accum + update_ns;
        if acm >= SECOND_NS {
            self.fps = frames;
            self.ups = ups2;
            self.avg_blit_time = blit / frames;
            self.avg_ren_time = proc / frames;
            self.avg_up_time = up / frames;
            self.second_acm = 0;
            self.frame_count = 0;
            self.update_count = 0;
            self.blit_accum = 0;
            self.proc_accum = 0;
            self.up_accum = 0;
        } else {
            self.second_acm = acm;
            self.frame_count = frames;
            self.update_count = ups2;
            self.blit_accum = blit;
            self.proc_accum = proc;
            self.up_accum = up;
        }
    }

    /// Hand a scene to the manager; the engine owns it from here on.
    pub fn push_scene(&mut self, scene: usize, scene_manager: &mut SceneManager)
        ensures
            *final(self) == *old(self),
            final(scene_manager).scenes.model() == spec_stack_push(
                old(scene_manager).scenes.model(),
                scene,
            ),
            *final(scene_manager) == (SceneManager {
                scenes: final(scene_manager).scenes,
                ..*old(scene_manager)
            }),
    {
        scene_manager.push_scene(scene);
    }
}

} // verus!
