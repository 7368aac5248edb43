//! The drawer: progress state of one chaos-game rendering and its step.

use vstd::prelude::*;
use crate::affine::{Affine, in_unit_square, sierpinsky_spec, sierpinsky_transforms};
use crate::lsfr64::{LSFR64, in_range, seeded, xorshift};
use crate::util::{Point, pixel_index, point_to_linear_index};

verus! {

/// Iterations run without plotting while the trajectory settles.
pub const WARM_UP_ITERATIONS: u32 = 20;

/// One chaos-game move: draw a transform from the next register value and
/// apply it. Returns the new point and the new register.
pub open spec fn chaos_move(t: Seq<Affine>, p: Point, reg: u64) -> (Point, u64) {
    let r = xorshift(reg);
    (t[in_range(r, 0, 2) as int].spec_apply(p), r)
}

/// Point and register after `n` moves.
pub open spec fn walk(t: Seq<Affine>, p: Point, reg: u64, n: nat) -> (Point, u64)
    decreases n,
{
    if n == 0 {
        (p, reg)
    } else {
        let prev = walk(t, p, reg, (n - 1) as nat);
        chaos_move(t, prev.0, prev.1)
    }
}

/// A counter plus one, wrapping to zero.
pub open spec fn bumped(v: u32) -> u32 {
    if v == u32::MAX {
        0
    } else {
        (v + 1) as u32
    }
}

/// The buffer after `n` moves, each counting one hit on the pixel it lands on.
pub open spec fn plotted(t: Seq<Affine>, p: Point, reg: u64, w: int, h: int, buf: Seq<u32>, n: nat) -> Seq<u32>
    decreases n,
{
    if n == 0 {
        buf
    } else {
        let b = plotted(t, p, reg, w, h, buf, (n - 1) as nat);
        let i = pixel_index(walk(t, p, reg, n).0, w, h);
        b.update(i, bumped(b[i]))
    }
}

/// The largest of `start` and every counter value written during `n` moves.
pub open spec fn peak(t: Seq<Affine>, p: Point, reg: u64, w: int, h: int, buf: Seq<u32>, start: u32, n: nat) -> u32
    decreases n,
{
    if n == 0 {
        start
    } else {
        let m = peak(t, p, reg, w, h, buf, start, (n - 1) as nat);
        let v = plotted(t, p, reg, w, h, buf, n)[pixel_index(walk(t, p, reg, n).0, w, h)];
        if v > m {
            v
        } else {
            m
        }
    }
}

proof fn lemma_peak_grows(t: Seq<Affine>, p: Point, reg: u64, w: int, h: int, buf: Seq<u32>, start: u32, n: nat)
    ensures
        peak(t, p, reg, w, h, buf, start, n) >= start,
    decreases n,
{
    if n > 0 {
        lemma_peak_grows(t, p, reg, w, h, buf, start, (n - 1) as nat);
    }
}

/// Iterations a step spends on warm-up, given the count it starts from.
pub open spec fn warm_up_len(count: int) -> int {
    if count < WARM_UP_ITERATIONS {
        WARM_UP_ITERATIONS as int
    } else {
        0
    }
}

/// Iterations a step plots: until the limit is met or the step's share is spent.
pub open spec fn plotted_len(count: int, limit: int, per_step: int) -> int {
    let base = count + warm_up_len(count);
    let ran = warm_up_len(count);
    if base < limit && ran < per_step {
        if limit - base < per_step - ran {
            limit - base
        } else {
            per_step - ran
        }
    } else {
        0
    }
}

/// The iteration count after one step.
pub open spec fn count_after_step(count: int, limit: int, per_step: int) -> int {
    count + warm_up_len(count) + plotted_len(count, limit, per_step)
}

/// What a drawer holds.
pub struct DrawerModel {
    pub iterations_per_step: u32,
    pub iteration_limit: u32,
    pub width: u16,
    pub height: u16,
    pub iteration_count: u32,
    pub transforms: Seq<Affine>,
    pub curr_point: Point,
    pub register: u64,
    pub curr_max_count: u32,
}

impl DrawerModel {
    pub open spec fn is_done(self) -> bool {
        self.iteration_count >= self.iteration_limit
    }

    /// Iterations the next step plots.
    pub open spec fn plotted_len(self) -> nat {
        plotted_len(self.iteration_count as int, self.iteration_limit as int, self.iterations_per_step as int) as nat
    }

    /// Point and register once the next step's warm-up is over.
    pub open spec fn warmed(self) -> (Point, u64) {
        walk(self.transforms, self.curr_point, self.register, warm_up_len(self.iteration_count as int) as nat)
    }

    /// The model after one step on buffer `buf`.
    pub open spec fn stepped(self, buf: Seq<u32>) -> DrawerModel {
        let s = self.warmed();
        let k = self.plotted_len();
        let e = walk(self.transforms, s.0, s.1, k);
        DrawerModel {
            iteration_count: count_after_step(
                self.iteration_count as int,
                self.iteration_limit as int,
                self.iterations_per_step as int,
            ) as u32,
            curr_point: e.0,
            register: e.1,
            curr_max_count: peak(
                self.transforms,
                s.0,
                s.1,
                self.width as int,
                self.height as int,
                buf,
                self.curr_max_count,
                k,
            ),
            ..self
        }
    }

    /// Buffer `buf` after one step.
    pub open spec fn stepped_buffer(self, buf: Seq<u32>) -> Seq<u32> {
        let s = self.warmed();
        plotted(self.transforms, s.0, s.1, self.width as int, self.height as int, buf, self.plotted_len())
    }
}

/// A fresh drawer's model.
pub open spec fn initial_model(iterations_per_step: u32, iteration_limit: u32, seed: u64) -> DrawerModel {
    DrawerModel {
        iterations_per_step,
        iteration_limit,
        width: 0,
        height: 0,
        iteration_count: 0,
        transforms: sierpinsky_spec(),
        curr_point: Point { x: 0, y: 0 },
        register: seeded(seed),
        curr_max_count: 0,
    }
}

/// Progress of one rendering of the Sierpinski triangle.
pub struct DrawerState {
    iterations_per_step: u32,
    iteration_limit: u32,
    width: u16,
    height: u16,
    iteration_count: u32,
    linear_transforms: [Affine; 3],
    curr_point: Point,
    lsfr: LSFR64,
    curr_max_count: u32,
}

impl View for DrawerState {
    type V = DrawerModel;

    closed spec fn view(&self) -> DrawerModel {
        DrawerModel {
            iterations_per_step: self.iterations_per_step,
            iteration_limit: self.iteration_limit,
            width: self.width,
            height: self.height,
            iteration_count: self.iteration_count,
            transforms: self.linear_transforms@,
            curr_point: self.curr_point,
            register: self.lsfr@,
            curr_max_count: self.curr_max_count,
        }
    }
}

impl DrawerState {
    /// Every transform keeps the unit square, the point lies in it and the
    /// register is not zero.
    pub closed spec fn wf(&self) -> bool {
        &&& forall|i: int| 0 <= i < 3 ==> (#[trigger] self.linear_transforms@[i]).wf()
        &&& in_unit_square(self.curr_point)
        &&& self.lsfr.wf()
    }

    /// A drawer at the origin with nothing drawn, whose generator starts from `seed`.
    pub fn new(iterations_per_step: u32, iteration_limit: u32, seed: u64) -> (r: DrawerState)
        ensures
            r.wf(),
            r@ == initial_model(iterations_per_step, iteration_limit, seed),
    {
        DrawerState {
            iterations_per_step,
            iteration_limit,
            width: 0,
            height: 0,
            iteration_count: 0,
            linear_transforms: sierpinsky_transforms(),
            curr_point: Point { x: 0, y: 0 },
            lsfr: LSFR64::new(seed),
            curr_max_count: 0,
        }
    }

    /// Runs one step: the warm-up if the count is below `WARM_UP_ITERATIONS`,
    /// then plotted iterations until the limit is met or
    /// `iterations_per_step` iterations have run in this call. Each plotted
    /// iteration adds one, wrapping, to the counter under the new point.
    /// Returns the largest counter value seen so far.
    pub fn update_drawing(&mut self, drawing_data: &mut [u32]) -> (r: u32)
        requires
            old(self).wf(),
            old(self)@.plotted_len() > 0 ==> {
                &&& old(self)@.width > 0
                &&& old(self)@.height > 0
                &&& old(drawing_data)@.len() >= old(self)@.width * old(self)@.height
            },
        ensures
            final(self).wf(),
            final(self)@ == old(self)@.stepped(old(drawing_data)@),
            final(drawing_data)@ == old(self)@.stepped_buffer(old(drawing_data)@),
            r == final(self)@.curr_max_count,
            final(self)@.iteration_count >= old(self)@.iteration_count,
            final(self)@.curr_max_count >= old(self)@.curr_max_count,
    {
        let ghost m = self@;
        let ghost buf0 = drawing_data@;
        let transforms = self.linear_transforms;
        let width = self.width;
        let height = self.height;
        let max_iterations = self.iteration_limit;
        let iterations_per_step = self.iterations_per_step;
        let mut lsfr = self.lsfr;
        let mut curr_point = self.curr_point;
        let mut curr_number_of_iterations = self.iteration_count;
        let mut max_count = self.curr_max_count;
        let mut iter_ran: u32 = 0;

        if curr_number_of_iterations < WARM_UP_ITERATIONS {
            let mut j: u32 = 0;
            while j < WARM_UP_ITERATIONS
                invariant
                    j <= WARM_UP_ITERATIONS,
                    forall|i: int| 0 <= i < 3 ==> (#[trigger] transforms@[i]).wf(),
                    transforms@ == m.transforms,
                    in_unit_square(curr_point),
                    lsfr.wf(),
                    (curr_point, lsfr@) == walk(m.transforms, m.curr_point, m.register, j as nat),
                decreases WARM_UP_ITERATIONS - j,
            {
                let transform_index = lsfr.gen_in_range(0, 2) as usize;
                curr_point = transforms[transform_index].apply(&curr_point);
                j = j + 1;
            }
            curr_number_of_iterations = curr_number_of_iterations + WARM_UP_ITERATIONS;
            iter_ran = WARM_UP_ITERATIONS;
        }

        let ghost s = m.warmed();
        let ghost k = m.plotted_len();
        let ghost base = curr_number_of_iterations;
        let ghost w = width as int;
        let ghost h = height as int;
        while curr_number_of_iterations < max_iterations && iter_ran < iterations_per_step
            invariant
                forall|i: int| 0 <= i < 3 ==> (#[trigger] transforms@[i]).wf(),
                transforms@ == m.transforms,
                width == m.width,
                height == m.height,
                w == width as int,
                h == height as int,
                s == m.warmed(),
                max_iterations == m.iteration_limit,
                iterations_per_step == m.iterations_per_step,
                base == m.iteration_count + warm_up_len(m.iteration_count as int),
                base <= curr_number_of_iterations <= base + k,
                iter_ran == warm_up_len(m.iteration_count as int) + (curr_number_of_iterations - base),
                k == plotted_len(m.iteration_count as int, m.iteration_limit as int, m.iterations_per_step as int),
                k > 0 ==> width > 0 && height > 0 && buf0.len() >= width * height,
                in_unit_square(curr_point),
                lsfr.wf(),
                (curr_point, lsfr@) == walk(m.transforms, s.0, s.1, (curr_number_of_iterations - base) as nat),
                drawing_data@ == plotted(m.transforms, s.0, s.1, w, h, buf0, (curr_number_of_iterations - base) as nat),
                max_count == peak(m.transforms, s.0, s.1, w, h, buf0, m.curr_max_count, (curr_number_of_iterations - base) as nat),
                drawing_data@.len() == buf0.len(),
            decreases max_iterations - curr_number_of_iterations,
        {
            let ghost j = (curr_number_of_iterations - base) as nat;
            let ghost before = drawing_data@;
            let transform_index = lsfr.gen_in_range(0, 2) as usize;
            curr_point = transforms[transform_index].apply(&curr_point);

            let index = point_to_linear_index(&curr_point, width, height);
            let curr_value = drawing_data[index];
            let new_value = if curr_value == u32::MAX {
                0
            } else {
                curr_value + 1
            };
            drawing_data[index] = new_value;
            if new_value > max_count {
                max_count = new_value;
            }

            curr_number_of_iterations = curr_number_of_iterations + 1;
            iter_ran = iter_ran + 1;
            proof {
                let i = pixel_index(walk(m.transforms, s.0, s.1, j + 1).0, w, h);
                assert(index == i);
                assert(drawing_data@ =~= before.update(i, bumped(before[i])));
            }
        }

        proof {
            lemma_peak_grows(m.transforms, s.0, s.1, w, h, buf0, m.curr_max_count, k);
        }
        self.lsfr = lsfr;
        self.curr_point = curr_point;
        self.iteration_count = curr_number_of_iterations;
        self.curr_max_count = max_count;
        max_count
    }

    /// Sets the total number of iterations after which the drawer is done.
    pub fn set_number_of_iterations(&mut self, iteration_limit: u32)
        requires
            old(self).wf(),
        ensures
            final(self).wf(),
            final(self)@ == (DrawerModel { iteration_limit, ..old(self)@ }),
    {
        self.iteration_limit = iteration_limit;
    }

    pub fn set_width(&mut self, width: u16)
        requires
            old(self).wf(),
        ensures
            final(self).wf(),
            final(self)@ == (DrawerModel { width, ..old(self)@ }),
    {
        self.width = width;
    }

    pub fn set_height(&mut self, height: u16)
        requires
            old(self).wf(),
        ensures
            final(self).wf(),
            final(self)@ == (DrawerModel { height, ..old(self)@ }),
    {
        self.height = height;
    }

    pub fn iterations_per_step(&self) -> (r: u32)
        ensures
            r == self@.iterations_per_step,
    {
        self.iterations_per_step
    }

    pub fn iteration_limit(&self) -> (r: u32)
        ensures
            r == self@.iteration_limit,
    {
        self.iteration_limit
    }

    pub fn width(&self) -> (r: u16)
        ensures
            r == self@.width,
    {
        self.width
    }

    pub fn height(&self) -> (r: u16)
        ensures
            r == self@.height,
    {
        self.height
    }

    pub fn iteration_count(&self) -> (r: u32)
        ensures
            r == self@.iteration_count,
    {
        self.iteration_count
    }

    pub fn curr_point(&self) -> (r: Point)
        ensures
            r == self@.curr_point,
    {
        self.curr_point
    }

    pub fn curr_max_count(&self) -> (r: u32)
        ensures
            r == self@.curr_max_count,
    {
        self.curr_max_count
    }

    /// Whether the next step writes to the buffer (and so reads its size).
    pub fn plots_next_step(&self) -> (r: bool)
        ensures
            r == (self@.plotted_len() > 0),
    {
        if self.iteration_count < WARM_UP_ITERATIONS {
            self.iteration_count + WARM_UP_ITERATIONS < self.iteration_limit
                && WARM_UP_ITERATIONS < self.iterations_per_step
        } else {
            self.iteration_count < self.iteration_limit && 0 < self.iterations_per_step
        }
    }

    pub fn is_done(&self) -> (r: bool)
        ensures
            r == self@.is_done(),
    {
        self.iteration_count >= self.iteration_limit
    }
}

/// Iteration count of a fresh drawer after `n` steps, its limit left alone.
pub open spec fn count_after_steps(limit: int, per_step: int, n: nat) -> int
    decreases n,
{
    if n == 0 {
        0
    } else {
        count_after_step(count_after_steps(limit, per_step, (n - 1) as nat), limit, per_step)
    }
}

/// Steps after which a fresh drawer is done: `limit / per_step`, rounded up.
pub open spec fn steps_to_finish(limit: int, per_step: int) -> int {
    (limit + per_step - 1) / per_step
}

/// A step never lowers the iteration count or the largest counter value, and
/// a count within its limit stays within it, except when the warm-up of a
/// step overshoots it. A step leaves the count at least `WARM_UP_ITERATIONS`,
/// so the condition holds again for every later step under the same limit.
pub proof fn lemma_step_monotone(m: DrawerModel, buf: Seq<u32>)
    requires
        m.iteration_count <= m.iteration_limit,
        m.iteration_count >= WARM_UP_ITERATIONS || m.iteration_count + WARM_UP_ITERATIONS <= m.iteration_limit,
    ensures
        m.iteration_count <= m.stepped(buf).iteration_count <= m.iteration_limit,
        m.stepped(buf).iteration_count >= WARM_UP_ITERATIONS,
        m.stepped(buf).curr_max_count >= m.curr_max_count,
{
    let s = m.warmed();
    lemma_peak_grows(m.transforms, s.0, s.1, m.width as int, m.height as int, buf, m.curr_max_count, m.plotted_len());
}

proof fn lemma_count_after_steps(limit: int, per_step: int, n: nat)
    requires
        per_step >= WARM_UP_ITERATIONS,
        limit >= 0,
        n >= 1,
    ensures
        count_after_steps(limit, per_step, n) == if n * per_step < limit {
            n * per_step
        } else if limit < WARM_UP_ITERATIONS {
            WARM_UP_ITERATIONS as int
        } else {
            limit
        },
    decreases n,
{
    if n > 1 {
        lemma_count_after_steps(limit, per_step, (n - 1) as nat);
        let a = (n - 1) * per_step;
        assert(n * per_step == a + per_step) by (nonlinear_arith)
            requires
                a == (n - 1) * per_step,
        ;
        assert(a >= per_step) by (nonlinear_arith)
            requires
                n >= 2,
                per_step >= 0,
                a == (n - 1) * per_step,
        ;
    } else {
        assert(count_after_steps(limit, per_step, 0) == 0);
        assert(n * per_step == per_step) by (nonlinear_arith)
            requires
                n == 1,
        ;
    }
}

/// A fresh drawer whose limit is left alone, stepped until it is done, takes
/// exactly `limit / per_step` steps, rounded up, when each step's share
/// covers the warm-up: it is done after `n` steps exactly when
/// `n >= steps_to_finish(limit, per_step)`.
pub proof fn lemma_steps_to_done(limit: u32, per_step: u32, n: nat)
    requires
        per_step >= WARM_UP_ITERATIONS,
    ensures
        (count_after_steps(limit as int, per_step as int, n) >= limit) == (n >= steps_to_finish(
            limit as int,
            per_step as int,
        )),
{
    let l = limit as int;
    let p = per_step as int;
    if n >= 1 {
        lemma_count_after_steps(l, p, n);
        assert(n * p >= p) by (nonlinear_arith)
            requires
                n >= 1,
                p >= 0,
        ;
    }
    assert((n * p >= l) == (n >= (l + p - 1) / p)) by (nonlinear_arith)
        requires
            p > 0,
            l >= 0,
    {
        let q = (l + p - 1) / p;
        let r = (l + p - 1) % p;
        assert(l + p - 1 == q * p + r);
        assert(0 <= r < p);
        if n >= q {
            assert(n * p >= q * p);
        } else {
            assert(n <= q - 1);
            assert(n * p <= (q - 1) * p);
        }
    }
}

/// The model and buffer after `n` steps on `buf`, with nothing set in between.
pub open spec fn run_steps(m: DrawerModel, buf: Seq<u32>, n: nat) -> (DrawerModel, Seq<u32>)
    decreases n,
{
    if n == 0 {
        (m, buf)
    } else {
        let prev = run_steps(m, buf, (n - 1) as nat);
        (prev.0.stepped(prev.1), prev.0.stepped_buffer(prev.1))
    }
}

/// Two drawers made with the same seed and set up alike write the same
/// counters in the same places, step after step.
pub proof fn lemma_same_seed_same_drawing(
    iterations_per_step: u32,
    iteration_limit: u32,
    seed: u64,
    width: u16,
    height: u16,
    buf: Seq<u32>,
    n: nat,
)
    ensures
        ({
            let a = DrawerModel { width, height, ..initial_model(iterations_per_step, iteration_limit, seed) };
            let b = DrawerModel { width, height, ..initial_model(iterations_per_step, iteration_limit, seed) };
            run_steps(a, buf, n) == run_steps(b, buf, n)
        }),
{
}

} // verus!
