//! Render parameters: iteration count and detail level.

use vstd::prelude::*;

verus! {

/// Smallest iteration count the stepper offers.
pub const MIN_ITERATIONS: u32 = 1;

/// Largest iteration count the stepper offers.
pub const MAX_ITERATIONS: u32 = 40;

/// Smallest detail level the stepper offers.
pub const MIN_DETAIL: i32 = 1;

/// Largest detail level the stepper offers.
pub const MAX_DETAIL: i32 = 100;

/// Iteration count of a fresh viewer.
pub const DEFAULT_ITERATIONS: u32 = 12;

/// Detail level of a fresh viewer.
pub const DEFAULT_DETAIL: i32 = 1;

/// `value` moved into `lo..=hi`.
pub open spec fn clamped(value: int, lo: int, hi: int) -> int {
    if value < lo {
        lo
    } else if value > hi {
        hi
    } else {
        value
    }
}

/// What a `RenderParams` stands for: two integers.
pub ghost struct Settings {
    pub iterations: int,
    pub detail: int,
}

/// One click on a stepper button.
#[derive(Clone, Copy, Debug, PartialEq, Eq, Structural)]
pub enum Nudge {
    Down,
    Up,
}

impl Nudge {
    /// The change a click asks for.
    pub open spec fn delta(self) -> int {
        match self {
            Nudge::Down => -1,
            Nudge::Up => 1,
        }
    }
}

/// The integer parameters of one frame: how often the fractal is iterated
/// and how fine the march looks. Both are at least 1. The third parameter of
/// a frame, the exponent of the fractal, is a fraction and stays with the
/// host.
#[derive(Clone, Copy, Debug, PartialEq, Eq, Structural)]
pub struct RenderParams {
    iterations: u32,
    detail: i32,
}

impl View for RenderParams {
    type V = Settings;

    closed spec fn view(&self) -> Settings {
        Settings { iterations: self.iterations as int, detail: self.detail as int }
    }
}

impl RenderParams {
    #[verifier::type_invariant]
    spec fn in_domain(self) -> bool {
        self.iterations >= 1 && self.detail >= 1
    }

    /// Takes the two values as a host supplies them and lifts each to at
    /// least 1.
    pub fn new(iterations: u32, detail: i32) -> (params: Self)
        ensures
            params@.iterations == if iterations < 1 { 1 } else { iterations as int },
            params@.detail == if detail < 1 { 1 } else { detail as int },
    {
        RenderParams {
            iterations: if iterations < 1 { 1 } else { iterations },
            detail: if detail < 1 { 1 } else { detail },
        }
    }

    /// Upper bound of the escape-time loop.
    pub fn iterations(&self) -> (n: u32)
        ensures
            n == self@.iterations,
            n >= 1,
    {
        proof {
            use_type_invariant(self);
        }
        self.iterations
    }

    /// Detail level; the hit distance shrinks as it grows.
    pub fn detail(&self) -> (d: i32)
        ensures
            d == self@.detail,
            d >= 1,
    {
        proof {
            use_type_invariant(self);
        }
        self.detail
    }

    /// Applies one stepper click to the iteration count and keeps the result
    /// within `MIN_ITERATIONS..=MAX_ITERATIONS`.
    pub fn nudge_iterations(&mut self, nudge: Nudge)
        ensures
            final(self)@.iterations == clamped(
                old(self)@.iterations + nudge.delta(),
                MIN_ITERATIONS as int,
                MAX_ITERATIONS as int,
            ),
            final(self)@.detail == old(self)@.detail,
            MIN_ITERATIONS <= final(self)@.iterations <= MAX_ITERATIONS,
    {
        proof {
            use_type_invariant(&*self);
        }
        let current: u32 = self.iterations;
        let next: u32 = match nudge {
            Nudge::Down => if current > MAX_ITERATIONS {
                MAX_ITERATIONS
            } else if current <= MIN_ITERATIONS {
                MIN_ITERATIONS
            } else {
                current - 1
            },
            Nudge::Up => if current >= MAX_ITERATIONS {
                MAX_ITERATIONS
            } else {
                current + 1
            },
        };
        self.iterations = next;
    }

    /// Applies one stepper click to the detail level and keeps the result
    /// within `MIN_DETAIL..=MAX_DETAIL`.
    pub fn nudge_detail(&mut self, nudge: Nudge)
        ensures
            final(self)@.detail == clamped(
                old(self)@.detail + nudge.delta(),
                MIN_DETAIL as int,
                MAX_DETAIL as int,
            ),
            final(self)@.iterations == old(self)@.iterations,
            MIN_DETAIL <= final(self)@.detail <= MAX_DETAIL,
    {
        proof {
            use_type_invariant(&*self);
        }
        let current: i32 = self.detail;
        let next: i32 = match nudge {
            Nudge::Down => if current > MAX_DETAIL {
                MAX_DETAIL
            } else if current <= MIN_DETAIL {
                MIN_DETAIL
            } else {
                current - 1
            },
            Nudge::Up => if current >= MAX_DETAIL {
                MAX_DETAIL
            } else {
                current + 1
            },
        };
        self.detail = next;
    }
}

impl Default for RenderParams {
    /// The parameters a fresh viewer starts with.
    fn default() -> (params: Self)
        ensures
            params@.iterations == DEFAULT_ITERATIONS,
            params@.detail == DEFAULT_DETAIL,
    {
        RenderParams { iterations: DEFAULT_ITERATIONS, detail: DEFAULT_DETAIL }
    }
}

} // verus!
