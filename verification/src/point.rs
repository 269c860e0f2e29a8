use crate::complex::{Complex, FixError};
use crate::fix::fix2x61::{Fix2x61, ONE_RAW};
use vstd::prelude::*;

verus! {

/// One sampled point of the plane and how far its orbit has been followed.
#[derive(Copy, Clone, Debug)]
pub struct Point {
    /// Where the point was sampled.
    loc: Complex,
    /// The last element of the orbit inside the disc of radius two.
    value: Complex,
    /// How many steps have been counted.
    pub iterations: u64,
    /// Whether the orbit has left the disc of radius two.
    pub escaped: bool,
    /// Whether the point is worth iterating further.
    pub escape_candidate: bool,
}

/// The mathematical state of a point: where it was sampled, the current
/// element of its orbit, how many steps were taken, whether the orbit has left
/// the disc of radius two, and whether the point is worth iterating further.
pub struct PointState {
    pub loc: Complex,
    pub value: Complex,
    pub iterations: nat,
    pub escaped: bool,
    pub candidate: bool,
}

impl PointState {
    /// The state of a point freshly sampled at `loc`.
    pub open spec fn fresh(loc: Complex) -> PointState {
        PointState { loc, value: loc, iterations: 0, escaped: false, candidate: false }
    }

    /// The state after one step of the escape automaton. An escaped point
    /// stays as it is. An active point whose next orbit element stays inside
    /// the disc of radius two moves there; one whose next element does not
    /// becomes escaped and keeps its value. Either way the step is counted.
    pub open spec fn step(self) -> PointState {
        if self.escaped {
            self
        } else {
            match self.value.iterate_spec(self.loc) {
                Ok(z) => PointState { value: z, iterations: self.iterations + 1, ..self },
                Err(_) => PointState { escaped: true, iterations: self.iterations + 1, ..self },
            }
        }
    }

    /// The state after `n` steps.
    pub open spec fn steps(self, n: nat) -> PointState
        decreases n,
    {
        if n == 0 {
            self
        } else {
            self.steps((n - 1) as nat).step()
        }
    }

    /// The state after advancing to `target` counted steps: a point that is
    /// no candidate, or has been followed that far already, stays as it is.
    pub open spec fn advance_to(self, target: nat) -> PointState {
        if !self.candidate || self.iterations >= target {
            self
        } else {
            self.steps((target - self.iterations) as nat)
        }
    }

    /// The state with the candidate flag set.
    pub open spec fn marked(self) -> PointState {
        PointState { candidate: true, ..self }
    }

    /// Stepping changes neither the location nor the candidate flag, never
    /// lowers the counter and never revives an escaped point; an escaped
    /// point does not move at all.
    pub proof fn lemma_steps(self, n: nat)
        ensures
            self.steps(n).loc == self.loc,
            self.steps(n).candidate == self.candidate,
            self.steps(n).iterations >= self.iterations,
            self.steps(n).iterations <= self.iterations + n,
            self.escaped ==> self.steps(n) == self,
            self.steps(n).escaped || self.steps(n).iterations == self.iterations + n,
        decreases n,
    {
        if n > 0 {
            self.lemma_steps((n - 1) as nat);
        }
    }

    /// Once the orbit has escaped after `m` steps, further steps change nothing.
    pub proof fn lemma_steps_after_escape(self, m: nat, n: nat)
        requires
            m <= n,
            self.steps(m).escaped,
        ensures
            self.steps(n) == self.steps(m),
        decreases n,
    {
        if m < n {
            self.lemma_steps_after_escape(m, (n - 1) as nat);
        }
    }

    /// Steps compose: `m` steps and then `n` steps are `m + n` steps.
    pub proof fn lemma_steps_add(self, m: nat, n: nat)
        ensures
            self.steps(m).steps(n) == self.steps(m + n),
        decreases n,
    {
        if n > 0 {
            self.lemma_steps_add(m, (n - 1) as nat);
        }
    }

    /// The candidate flag plays no part in a step: marking before stepping
    /// and marking after it come to the same.
    pub proof fn lemma_steps_marked(self, n: nat)
        ensures
            self.marked().steps(n) == self.steps(n).marked(),
        decreases n,
    {
        if n > 0 {
            self.lemma_steps_marked((n - 1) as nat);
        }
    }

    /// The state of a point that was sampled at `loc` and has been stepped
    /// `n` times since, as a candidate or not.
    pub open spec fn orbit(loc: Complex, candidate: bool, n: nat) -> PointState {
        (PointState { candidate, ..PointState::fresh(loc) }).steps(n)
    }

    /// Whether the state is one that stepping leads to from the fresh state
    /// at its location: its value, counter and escape flag are those of the
    /// orbit of its location.
    pub open spec fn on_orbit(self) -> bool {
        exists|n: nat| self == #[trigger] Self::orbit(self.loc, self.candidate, n)
    }

    /// Along the orbit of a location every step is counted until the orbit
    /// escapes, and then no more: a state that has not escaped has taken as
    /// many steps as its counter says, and a state that has escaped did so
    /// at the step that its counter names and not before.
    pub proof fn lemma_orbit_count(loc: Complex, candidate: bool, n: nat)
        ensures
            ({
                let s = Self::orbit(loc, candidate, n);
                &&& s.loc == loc
                &&& s.candidate == candidate
                &&& s.iterations <= n
                &&& !s.escaped ==> s.iterations == n
                &&& s.escaped ==> s.iterations >= 1 && s == Self::orbit(
                    loc,
                    candidate,
                    s.iterations,
                )
                    && !Self::orbit(loc, candidate, (s.iterations - 1) as nat).escaped
            }),
        decreases n,
    {
        if n > 0 {
            Self::lemma_orbit_count(loc, candidate, (n - 1) as nat);
        }
    }

    /// A fresh state lies on the orbit of its location, and so does every
    /// state that steps and marks lead to from a state that does.
    pub proof fn lemma_on_orbit(self, n: nat)
        ensures
            PointState::fresh(self.loc).on_orbit(),
            self.on_orbit() ==> self.steps(n).on_orbit(),
            self.on_orbit() ==> self.advance_to(n).on_orbit(),
            self.on_orbit() ==> self.marked().on_orbit(),
    {
        let fresh = PointState::fresh(self.loc);
        assert(fresh == Self::orbit(fresh.loc, fresh.candidate, 0));
        if self.on_orbit() {
            let m = choose|m: nat| self == #[trigger] Self::orbit(self.loc, self.candidate, m);
            let start = PointState { candidate: self.candidate, ..PointState::fresh(self.loc) };
            start.lemma_steps_add(m, n);
            self.lemma_steps(n);
            let stepped = self.steps(n);
            assert(stepped == Self::orbit(stepped.loc, stepped.candidate, m + n));
            if self.candidate && self.iterations < n {
                let k = (n - self.iterations) as nat;
                start.lemma_steps_add(m, k);
                self.lemma_steps(k);
                let advanced = self.advance_to(n);
                assert(advanced == Self::orbit(advanced.loc, advanced.candidate, m + k));
            }
            start.lemma_steps_marked(m);
            let marked = self.marked();
            assert(marked == Self::orbit(marked.loc, marked.candidate, m));
        }
    }

    /// The escape depth is exact: a state on the orbit of its location that
    /// has escaped did so at the step that its counter names, and at no
    /// earlier one; its value is the last element of the orbit inside the
    /// disc. A state that has not escaped is the orbit after as many steps as
    /// its counter says.
    pub proof fn lemma_escape_depth(self)
        requires
            self.on_orbit(),
        ensures
            self == Self::orbit(self.loc, self.candidate, self.iterations),
            self.escaped ==> self.iterations >= 1 && !Self::orbit(
                self.loc,
                self.candidate,
                (self.iterations - 1) as nat,
            ).escaped,
    {
        let m = choose|m: nat| self == #[trigger] Self::orbit(self.loc, self.candidate, m);
        Self::lemma_orbit_count(self.loc, self.candidate, m);
    }

    /// The origin never escapes: after any number of steps it is still at
    /// zero, active, with every step counted.
    pub proof fn lemma_origin_never_escapes(n: nat, candidate: bool)
        ensures
            ({
                let zero = Complex { r: Fix2x61::of(0), i: Fix2x61::of(0) };
                let start = PointState { candidate, ..PointState::fresh(zero) };
                start.steps(n) == PointState { iterations: n, ..start }
            }),
        decreases n,
    {
        let zero = Complex { r: Fix2x61::of(0), i: Fix2x61::of(0) };
        let start = PointState { candidate, ..PointState::fresh(zero) };
        if n > 0 {
            Self::lemma_origin_never_escapes((n - 1) as nat, candidate);
            Fix2x61::lemma_of(0);
            let before = PointState { iterations: (n - 1) as nat, ..start };
        }
    }

    /// The point one escapes at once: whatever budget of at least one step it
    /// is given, it is escaped after exactly one counted step.
    pub proof fn lemma_one_escapes(n: nat)
        requires
            n >= 1,
        ensures
            ({
                let one = Complex { r: Fix2x61::of(ONE_RAW as int), i: Fix2x61::of(0) };
                let end = PointState::fresh(one).steps(n);
                end.escaped && end.iterations == 1
            }),
    {
        let one = Complex { r: Fix2x61::of(ONE_RAW as int), i: Fix2x61::of(0) };
        let start = PointState::fresh(one);
        Fix2x61::lemma_of(0);
        Fix2x61::lemma_of(ONE_RAW as int);
        assert(start.steps(1) == start.steps(0).step());
        start.lemma_steps_after_escape(1, n);
    }
}

impl View for Point {
    type V = PointState;

    closed spec fn view(&self) -> PointState {
        PointState {
            loc: self.loc,
            value: self.value,
            iterations: self.iterations as nat,
            escaped: self.escaped,
            candidate: self.escape_candidate,
        }
    }
}

impl Point {
    /// The counter of a point fits its machine word.
    pub proof fn lemma_counter_bounded(self)
        ensures
            self@.iterations <= u64::MAX,
    {
    }

    /// The point at zero, not yet iterated.
    pub fn origin() -> (p: Point)
        ensures
            p@ == PointState::fresh(Complex { r: Fix2x61::of(0), i: Fix2x61::of(0) }),
    {
        Point::new(Complex::new(Fix2x61::zero(), Fix2x61::zero()))
    }

    pub fn from_parts(x: &Fix2x61, y: &Fix2x61) -> (p: Point)
        ensures
            p@ == PointState::fresh(Complex { r: *x, i: *y }),
    {
        Point::new(Complex::new(*x, *y))
    }

    pub fn new(c: Complex) -> (p: Point)
        ensures
            p@ == PointState::fresh(c),
    {
        let escaped = false;
        let escape_candidate = false;
        Point { loc: c, value: c, iterations: 0, escaped, escape_candidate }
    }

    // Microbenchmarks suggest no benefit from an inline attribute
    /// One step of the escape automaton. The counter must have room for it.
    pub fn iterate(&mut self) -> (res: Result<(), FixError>)
        requires
            old(self)@.escaped || old(self)@.iterations < u64::MAX,
        ensures
            res is Ok,
            final(self)@ == old(self)@.step(),
    {
        if !self.escaped {
            let iterated = self.value.iterate_mandelbrot(&self.loc);
            match iterated {
                Ok(z) => {
                    self.value = z;
                },
                Err(_) => {
                    self.escaped = true;
                },
            }
            self.iterations += 1;
        }
        Ok(())
    }

    /// Up to `n` steps, stopping short when the point escapes: in either
    /// case the state that `n` steps of the automaton lead to.
    pub fn iterate_n(&mut self, n: u64) -> (res: Result<(), FixError>)
        requires
            old(self)@.escaped || old(self)@.iterations + n <= u64::MAX,
        ensures
            res is Ok,
            final(self)@ == old(self)@.steps(n as nat),
    {
        let ghost start = self@;
        let mut i: u64 = 0;
        while i < n
            invariant
                i <= n,
                start == old(self)@,
                self@ == start.steps(i as nat),
                start.escaped || start.iterations + n <= u64::MAX,
            decreases n - i,
        {
            proof {
                start.lemma_steps(i as nat);
            }
            if self.escaped {
                proof {
                    start.lemma_steps_after_escape(i as nat, n as nat);
                }
                return Ok(());
            }
            let _ = self.iterate();
            i += 1;
        }
        Ok(())
    }

    /// Follows a candidate until its counter reaches `n` or it escapes; does
    /// nothing to a point that is no candidate.
    pub fn iterate_to_n(&mut self, n: u64) -> (res: Result<(), FixError>)
        ensures
            res is Ok,
            final(self)@ == old(self)@.advance_to(n as nat),
    {
        if !self.escape_candidate {
            return Ok(());
        }
        let ghost begin = self@;
        let start = self.iterations;
        if start >= n {
            return Ok(());
        }
        let mut i: u64 = start;
        while i < n
            invariant
                begin == old(self)@,
                start == begin.iterations,
                begin.candidate,
                start <= i <= n,
                self@ == begin.steps((i - start) as nat),
            decreases n - i,
        {
            proof {
                begin.lemma_steps((i - start) as nat);
            }
            if self.escaped {
                proof {
                    begin.lemma_steps_after_escape((i - start) as nat, (n - start) as nat);
                }
                return Ok(());
            }
            let _ = self.iterate();
            i += 1;
        }
        Ok(())
    }

    /// Sets the candidate flag and says whether that changed it.
    pub fn mark_candidate(&mut self) -> (newly: bool)
        ensures
            final(self)@ == old(self)@.marked(),
            newly == !old(self)@.candidate,
    {
        let old_val = self.escape_candidate;
        self.escape_candidate = true;
        !old_val
    }

    /// Whether the orbit has left the disc of radius two.
    pub fn has_escaped(&self) -> (b: bool)
        ensures
            b == self@.escaped,
    {
        self.escaped
    }

    /// Whether the point is marked as worth iterating further.
    pub fn is_candidate(&self) -> (b: bool)
        ensures
            b == self@.candidate,
    {
        self.escape_candidate
    }

    /// How many steps have been counted.
    pub fn iteration_count(&self) -> (n: u64)
        ensures
            n == self@.iterations,
    {
        self.iterations
    }

    pub fn value(&self) -> (z: &Complex)
        ensures
            *z == self@.value,
    {
        &self.value
    }
}

} // verus!
