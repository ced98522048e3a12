//! The simulation driver: owns every grid, injects the source, and
//! sequences inject, advect, divergence, Jacobi pressure projection and
//! the gradient correction once per frame.

use vstd::prelude::*;
use crate::fixed::{FX_SCALE, FIELD_MAX, fx_mul_s};
use crate::grid::{SimError, MAX_DIM, seq_bounded, check_bounded};
use crate::solver::{StencilElement, stencil_ok, jacobi_iter, jacobi_iterates, jacobi_cell};
use crate::advect::{advected, advect, lemma_advect_range};
use crate::project::{divergence_field, divergence, projected_x, projected_y, apply_pressure};

verus! {

/// Reciprocal of the diagonal of the discrete Laplacian (whose diagonal
/// entry is -4), in fixed point: -1/4.
pub const LAPLACE_ID_INVERSE: i64 = -16384;

/// The recognized simulation options: the square grid size, how many
/// frames to run, how many Jacobi sweeps each frame performs, and the
/// fixed source band (a row of `source_width` cells that is set to a
/// constant velocity and colour before every frame).
#[derive(Clone, Copy, PartialEq, Eq, Structural, Debug)]
pub struct SimConfig {
    pub width: usize,
    pub height: usize,
    pub frames: usize,
    pub jacobi_iters: usize,
    pub source_x: usize,
    pub source_y: usize,
    pub source_width: usize,
    pub source_vel_x: i64,
    pub source_vel_y: i64,
    pub source_color: i64,
}

/// A usable configuration: a square grid of at least two cells per side
/// (the boundary differences read an adjacent cell), positive counts, a
/// source band inside the grid and source values in the representable
/// field range.
pub open spec fn config_ok(c: SimConfig) -> bool {
    &&& 2 <= c.width <= MAX_DIM
    &&& c.height == c.width
    &&& 1 <= c.frames
    &&& 1 <= c.jacobi_iters
    &&& 1 <= c.source_width
    &&& c.source_x + c.source_width <= c.width
    &&& c.source_y < c.height
    &&& -FIELD_MAX <= c.source_vel_x <= FIELD_MAX
    &&& -FIELD_MAX <= c.source_vel_y <= FIELD_MAX
    &&& -FIELD_MAX <= c.source_color <= FIELD_MAX
}

/// Number of grid cells.
pub open spec fn area(c: SimConfig) -> int {
    c.width as int * c.height as int
}

/// Linear index of the first source cell (the band is one contiguous
/// row-major run).
pub open spec fn source_start(c: SimConfig) -> int {
    c.width as int * c.source_y as int + c.source_x as int
}

/// `f` with the source band overwritten by `val`.
pub open spec fn injected(f: Seq<i64>, c: SimConfig, val: i64) -> Seq<i64> {
    Seq::new(
        f.len(),
        |j: int|
            if source_start(c) <= j < source_start(c) + c.source_width {
                val
            } else {
                f[j]
            },
    )
}

/// The off-diagonal stencil of the 4-neighbour discrete Laplacian on a
/// grid `w` cells wide: the four adjacent cells, each with coefficient
/// one.
pub open spec fn four_neighbor_stencil(w: int) -> Seq<StencilElement> {
    seq![
        StencilElement { offset: 1i64, value: FX_SCALE },
        StencilElement { offset: w as i64, value: FX_SCALE },
        StencilElement { offset: -1i64, value: FX_SCALE },
        StencilElement { offset: (-w) as i64, value: FX_SCALE },
    ]
}

/// The 4-neighbour Laplacian stencil satisfies the solver's range
/// conditions together with `LAPLACE_ID_INVERSE`.
pub proof fn lemma_four_neighbor_ok(w: int)
    requires
        2 <= w <= MAX_DIM,
    ensures
        stencil_ok(four_neighbor_stencil(w), LAPLACE_ID_INVERSE as int),
{
    let st = four_neighbor_stencil(w);
    assert(FX_SCALE as int * (LAPLACE_ID_INVERSE as int) == (LAPLACE_ID_INVERSE as int)
        * FX_SCALE as int) by (nonlinear_arith);
    crate::fixed::lemma_fx_mul_unit(LAPLACE_ID_INVERSE as int);
    assert(fx_mul_s(FX_SCALE as int, LAPLACE_ID_INVERSE as int) == LAPLACE_ID_INVERSE as int);
    assert forall|k: int| 0 <= k < st.len() implies {
        &&& -FIELD_MAX <= (#[trigger] st[k]).value <= FIELD_MAX
        &&& -FIELD_MAX <= st[k].offset <= FIELD_MAX
        &&& -(FX_SCALE as int) <= fx_mul_s(st[k].value as int, LAPLACE_ID_INVERSE as int)
            <= FX_SCALE as int
    } by {
        assert(st[k].value == FX_SCALE);
    }
}

/// The simulation state: the current colour field, the two velocity
/// planes, the scratch buffers they ping-pong with, the divergence field,
/// and the warm-started pressure field with its scratch partner.
pub struct Simulation {
    pub config: SimConfig,
    pub color: Vec<i64>,
    pub vel_x: Vec<i64>,
    pub vel_y: Vec<i64>,
    pub next_color: Vec<i64>,
    pub next_vel_x: Vec<i64>,
    pub next_vel_y: Vec<i64>,
    pub div: Vec<i64>,
    pub pressure: Vec<i64>,
    pub next_pressure: Vec<i64>,
    pub stencil: Vec<StencilElement>,
}

impl Simulation {
    /// Well-formed state: a valid configuration, every grid of the right
    /// length, every persistent field in the representable range, and the
    /// Laplacian stencil of this grid width.
    pub open spec fn wf(self) -> bool {
        &&& config_ok(self.config)
        &&& self.color@.len() == area(self.config)
        &&& self.vel_x@.len() == area(self.config)
        &&& self.vel_y@.len() == area(self.config)
        &&& self.next_color@.len() == area(self.config)
        &&& self.next_vel_x@.len() == area(self.config)
        &&& self.next_vel_y@.len() == area(self.config)
        &&& self.div@.len() == area(self.config)
        &&& self.pressure@.len() == area(self.config)
        &&& self.next_pressure@.len() == area(self.config)
        &&& seq_bounded(self.color@, FIELD_MAX as int)
        &&& seq_bounded(self.vel_x@, FIELD_MAX as int)
        &&& seq_bounded(self.vel_y@, FIELD_MAX as int)
        &&& seq_bounded(self.pressure@, FIELD_MAX as int)
        &&& self.stencil@ == four_neighbor_stencil(self.config.width as int)
    }
}

/// The colour field this frame will produce: source injected, then
/// advected by the injected velocity.
pub open spec fn frame_color(s: Simulation) -> Seq<i64> {
    advected(
        injected(s.color@, s.config, s.config.source_color),
        injected(s.vel_x@, s.config, s.config.source_vel_x),
        injected(s.vel_y@, s.config, s.config.source_vel_y),
        s.config.width as int,
        s.config.height as int,
    )
}

/// The x velocity plane after injection and advection, before the
/// pressure correction.
pub open spec fn frame_vel_x(s: Simulation) -> Seq<i64> {
    advected(
        injected(s.vel_x@, s.config, s.config.source_vel_x),
        injected(s.vel_x@, s.config, s.config.source_vel_x),
        injected(s.vel_y@, s.config, s.config.source_vel_y),
        s.config.width as int,
        s.config.height as int,
    )
}

/// The y velocity plane after injection and advection, before the
/// pressure correction.
pub open spec fn frame_vel_y(s: Simulation) -> Seq<i64> {
    advected(
        injected(s.vel_y@, s.config, s.config.source_vel_y),
        injected(s.vel_x@, s.config, s.config.source_vel_x),
        injected(s.vel_y@, s.config, s.config.source_vel_y),
        s.config.width as int,
        s.config.height as int,
    )
}

/// A frame cannot push the colour outside its range: when the stored
/// colour field and the source colour lie in `[0, hi]`, so does the
/// colour field the frame produces.
pub proof fn lemma_frame_color_range(s: Simulation, hi: i64)
    requires
        s.wf(),
        0 <= hi,
        0 <= s.config.source_color <= hi,
        forall|j: int| 0 <= j < s.color@.len() ==> 0 <= #[trigger] s.color@[j] <= hi,
    ensures
        forall|j: int| 0 <= j < area(s.config) ==> 0 <= #[trigger] frame_color(s)[j] <= hi,
{
    let c = injected(s.color@, s.config, s.config.source_color);
    assert(forall|j: int| 0 <= j < c.len() ==> 0 <= #[trigger] c[j] <= hi);
    lemma_advect_range(
        c,
        injected(s.vel_x@, s.config, s.config.source_vel_x),
        injected(s.vel_y@, s.config, s.config.source_vel_y),
        s.config.width as int,
        s.config.height as int,
        hi,
    );
}

/// The divergence of this frame's advected velocity.
pub open spec fn frame_divergence(s: Simulation) -> Seq<i64> {
    divergence_field(frame_vel_x(s), frame_vel_y(s), s.config.width as int, s.config.height as int)
}

/// The pressure field after `k` Jacobi sweeps of this frame, warm-started
/// from the previous frame's pressure.
pub open spec fn frame_pressure(s: Simulation, k: nat) -> Seq<i64> {
    jacobi_iterates(
        LAPLACE_ID_INVERSE as int,
        s.stencil@,
        s.pressure@,
        frame_divergence(s),
        k,
    )
}

/// The x velocity plane this frame will produce.
pub open spec fn frame_final_vel_x(s: Simulation) -> Seq<i64> {
    projected_x(
        frame_vel_x(s),
        frame_pressure(s, s.config.jacobi_iters as nat),
        s.config.width as int,
        s.config.height as int,
    )
}

/// The y velocity plane this frame will produce.
pub open spec fn frame_final_vel_y(s: Simulation) -> Seq<i64> {
    projected_y(
        frame_vel_y(s),
        frame_pressure(s, s.config.jacobi_iters as nat),
        s.config.width as int,
        s.config.height as int,
    )
}

/// Every intermediate field of this frame stays in the representable
/// range; exactly then the frame succeeds.
pub open spec fn frame_ok(s: Simulation) -> bool {
    &&& seq_bounded(frame_divergence(s), FIELD_MAX as int)
    &&& forall|k: int|
        1 <= k <= s.config.jacobi_iters ==> seq_bounded(
            #[trigger] frame_pressure(s, k as nat),
            FIELD_MAX as int,
        )
    &&& seq_bounded(frame_final_vel_x(s), FIELD_MAX as int)
    &&& seq_bounded(frame_final_vel_y(s), FIELD_MAX as int)
}

/// A zero-filled field of `n` cells.
#[verifier::loop_isolation(false)]
fn zeros(n: usize) -> (r: Vec<i64>)
    ensures
        r@.len() == n,
        forall|j: int| 0 <= j < n ==> #[trigger] r@[j] == 0,
{
    let mut v: Vec<i64> = Vec::new();
    let mut k: usize = 0;
    while k < n
        invariant
            k <= n,
            v@.len() == k,
            forall|j: int| 0 <= j < k ==> #[trigger] v@[j] == 0,
        decreases n - k,
    {
        v.push(0);
        k += 1;
    }
    v
}

impl Simulation {
    /// Validates the configuration and allocates every grid once,
    /// zero-initialized; rejects unusable configurations with
    /// `Configuration`, exactly when `config_ok` fails.
    pub fn new(config: SimConfig) -> (r: Result<Simulation, SimError>)
        ensures
            match r {
                Ok(sim) => {
                    &&& config_ok(config)
                    &&& sim.wf()
                    &&& sim.config == config
                    &&& forall|j: int| 0 <= j < area(config) ==> #[trigger] sim.color@[j] == 0
                    &&& forall|j: int| 0 <= j < area(config) ==> #[trigger] sim.vel_x@[j] == 0
                    &&& forall|j: int| 0 <= j < area(config) ==> #[trigger] sim.vel_y@[j] == 0
                    &&& forall|j: int| 0 <= j < area(config) ==> #[trigger] sim.pressure@[j] == 0
                },
                Err(e) => {
                    &&& e == SimError::Configuration
                    &&& !config_ok(config)
                },
            },
    {
        if !(config.width >= 2 && config.width <= MAX_DIM && config.height == config.width
            && config.frames >= 1 && config.jacobi_iters >= 1 && config.source_width >= 1
            && config.source_width <= config.width && config.source_x <= config.width
            - config.source_width && config.source_y < config.height && config.source_vel_x
            >= -FIELD_MAX && config.source_vel_x <= FIELD_MAX && config.source_vel_y >= -FIELD_MAX
            && config.source_vel_y <= FIELD_MAX && config.source_color >= -FIELD_MAX
            && config.source_color <= FIELD_MAX) {
            return Err(SimError::Configuration);
        }
        proof {
            assert(config.width * config.height <= MAX_DIM * MAX_DIM) by (nonlinear_arith)
                requires 2 <= config.width <= MAX_DIM && 2 <= config.height <= MAX_DIM,
            ;
        }
        let wh: usize = config.width * config.height;
        let mut stencil: Vec<StencilElement> = Vec::new();
        stencil.push(StencilElement { offset: 1, value: FX_SCALE });
        stencil.push(StencilElement { offset: config.width as i64, value: FX_SCALE });
        stencil.push(StencilElement { offset: -1, value: FX_SCALE });
        stencil.push(StencilElement { offset: -(config.width as i64), value: FX_SCALE });
        proof {
            assert(stencil@ =~= four_neighbor_stencil(config.width as int));
        }
        Ok(
            Simulation {
                config,
                color: zeros(wh),
                vel_x: zeros(wh),
                vel_y: zeros(wh),
                next_color: zeros(wh),
                next_vel_x: zeros(wh),
                next_vel_y: zeros(wh),
                div: zeros(wh),
                pressure: zeros(wh),
                next_pressure: zeros(wh),
                stencil,
            },
        )
    }

    /// Runs one frame: inject the source band, advect colour and
    /// velocity, compute the divergence, run the configured number of
    /// Jacobi sweeps (warm-started from the previous frame's pressure),
    /// and subtract the pressure gradient from the velocity.  Succeeds
    /// exactly when every intermediate field stays in the representable
    /// range; a numeric excursion is reported as `NumericAnomaly` and
    /// ends the run.
    #[verifier::loop_isolation(false)]
    #[verifier::rlimit(50)]
    pub fn step(&mut self) -> (r: Result<(), SimError>)
        requires
            old(self).wf(),
        ensures
            final(self).config == old(self).config,
            r is Ok <==> frame_ok(*old(self)),
            match r {
                Ok(()) => {
                    &&& final(self).wf()
                    &&& final(self).color@ == frame_color(*old(self))
                    &&& final(self).vel_x@ == frame_final_vel_x(*old(self))
                    &&& final(self).vel_y@ == frame_final_vel_y(*old(self))
                    &&& final(self).pressure@ == frame_pressure(
                        *old(self),
                        old(self).config.jacobi_iters as nat,
                    )
                },
                Err(e) => e == SimError::NumericAnomaly,
            },
    {
        let ghost orig: Simulation = *self;
        let width = self.config.width;
        let height = self.config.height;
        let count = self.config.source_width;
        proof {
            assert(width * height <= MAX_DIM * MAX_DIM) by (nonlinear_arith)
                requires 2 <= width <= MAX_DIM && 2 <= height <= MAX_DIM,
            ;
            assert(width * self.config.source_y + self.config.source_x + count <= width * height)
                by (nonlinear_arith)
                requires
                    self.config.source_y < height,
                    self.config.source_x + count <= width,
                    2 <= width && 2 <= height,
            ;
        }
        let wh: usize = width * height;
        let s0: usize = width * self.config.source_y + self.config.source_x;

        // 1. Inject the source band.
        let mut k: usize = 0;
        while k < count
            invariant
                k <= count,
                self.config == orig.config,
                self.stencil@ == orig.stencil@,
                self.color@.len() == wh,
                self.vel_x@.len() == wh,
                self.vel_y@.len() == wh,
                self.next_color@ == orig.next_color@,
                self.next_vel_x@ == orig.next_vel_x@,
                self.next_vel_y@ == orig.next_vel_y@,
                self.div@ == orig.div@,
                self.pressure@ == orig.pressure@,
                self.next_pressure@ == orig.next_pressure@,
                forall|j: int|
                    0 <= j < wh && !(s0 <= j < s0 + k) ==> #[trigger] self.color@[j]
                        == orig.color@[j],
                forall|j: int|
                    0 <= j < wh && !(s0 <= j < s0 + k) ==> #[trigger] self.vel_x@[j]
                        == orig.vel_x@[j],
                forall|j: int|
                    0 <= j < wh && !(s0 <= j < s0 + k) ==> #[trigger] self.vel_y@[j]
                        == orig.vel_y@[j],
                forall|j: int|
                    s0 <= j < s0 + k ==> #[trigger] self.color@[j] == self.config.source_color,
                forall|j: int|
                    s0 <= j < s0 + k ==> #[trigger] self.vel_x@[j] == self.config.source_vel_x,
                forall|j: int|
                    s0 <= j < s0 + k ==> #[trigger] self.vel_y@[j] == self.config.source_vel_y,
            decreases count - k,
        {
            self.color.set(s0 + k, self.config.source_color);
            self.vel_x.set(s0 + k, self.config.source_vel_x);
            self.vel_y.set(s0 + k, self.config.source_vel_y);
            k += 1;
        }
        proof {
            assert(self.color@ =~= injected(orig.color@, orig.config, orig.config.source_color));
            assert(self.vel_x@ =~= injected(orig.vel_x@, orig.config, orig.config.source_vel_x));
            assert(self.vel_y@ =~= injected(orig.vel_y@, orig.config, orig.config.source_vel_y));
        }

        // 2. Advect colour and velocity, then swap the buffers.
        let adv = advect(
            &self.color,
            &self.vel_x,
            &self.vel_y,
            width,
            height,
            &mut self.next_color,
            &mut self.next_vel_x,
            &mut self.next_vel_y,
        );
        match adv {
            Ok(()) => {},
            Err(e) => {
                return Err(e);
            },
        }
        core::mem::swap(&mut self.color, &mut self.next_color);
        core::mem::swap(&mut self.vel_x, &mut self.next_vel_x);
        core::mem::swap(&mut self.vel_y, &mut self.next_vel_y);
        proof {
            assert(self.color@ == frame_color(orig));
            assert(self.vel_x@ == frame_vel_x(orig));
            assert(self.vel_y@ == frame_vel_y(orig));
        }

        // 3. Divergence of the new velocity.
        let dv = divergence(&self.vel_x, &self.vel_y, width, height, &mut self.div);
        match dv {
            Ok(()) => {},
            Err(e) => {
                return Err(e);
            },
        }
        if !check_bounded(&self.div) {
            return Err(SimError::NumericAnomaly);
        }

        // 4. Jacobi sweeps with ping-pong buffering, warm-started.
        let iters = self.config.jacobi_iters;
        proof {
            lemma_four_neighbor_ok(width as int);
        }
        let mut it: usize = 0;
        while it < iters
            invariant
                it <= iters,
                self.config == orig.config,
                self.stencil@ == orig.stencil@,
                self.color@ == frame_color(orig),
                self.vel_x@ == frame_vel_x(orig),
                self.vel_y@ == frame_vel_y(orig),
                self.div@ == frame_divergence(orig),
                seq_bounded(self.div@, FIELD_MAX as int),
                self.next_color@.len() == wh,
                self.next_vel_x@.len() == wh,
                self.next_vel_y@.len() == wh,
                self.next_pressure@.len() == wh,
                self.pressure@ == frame_pressure(orig, it as nat),
                self.pressure@.len() == wh,
                seq_bounded(self.pressure@, FIELD_MAX as int),
                seq_bounded(self.color@, FIELD_MAX as int),
                seq_bounded(self.vel_x@, FIELD_MAX as int),
                seq_bounded(self.vel_y@, FIELD_MAX as int),
                forall|k2: int|
                    1 <= k2 <= it ==> seq_bounded(
                        #[trigger] frame_pressure(orig, k2 as nat),
                        FIELD_MAX as int,
                    ),
            decreases iters - it,
        {
            let jr = jacobi_iter(
                LAPLACE_ID_INVERSE,
                &self.stencil,
                &self.pressure,
                &mut self.next_pressure,
                &self.div,
            );
            match jr {
                Ok(()) => {},
                Err(e) => {
                    return Err(e);
                },
            }
            proof {
                let prev = frame_pressure(orig, it as nat);
                let nxt = frame_pressure(orig, (it + 1) as nat);
                assert(nxt == Seq::new(
                    orig.pressure@.len(),
                    |i: int|
                        jacobi_cell(
                            LAPLACE_ID_INVERSE as int,
                            orig.stencil@,
                            prev,
                            frame_divergence(orig),
                            i,
                        ) as i64,
                ));
                assert(self.next_pressure@ =~= nxt);
            }
            if !check_bounded(&self.next_pressure) {
                return Err(SimError::NumericAnomaly);
            }
            core::mem::swap(&mut self.pressure, &mut self.next_pressure);
            it += 1;
        }

        // 5. Subtract the pressure gradient from the velocity.
        let ap = apply_pressure(&self.pressure, width, height, &mut self.vel_x, &mut self.vel_y);
        match ap {
            Ok(()) => {},
            Err(e) => {
                return Err(e);
            },
        }
        if !check_bounded(&self.vel_x) {
            return Err(SimError::NumericAnomaly);
        }
        if !check_bounded(&self.vel_y) {
            return Err(SimError::NumericAnomaly);
        }
        Ok(())
    }
}

} // verus!
