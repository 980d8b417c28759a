//! The escape-time loop that the distance estimate is read from.
//!
//! The loop carries a state through at most `max_iterations` passes. A pass
//! first measures the iterate: if it has left the bailout radius the pass
//! reports an escape and the loop stops; otherwise the pass iterates once
//! more. The arithmetic of a pass is the caller's; what is fixed here is how
//! many passes are made, from which state each starts, and which state the
//! estimate is read from.

use vstd::prelude::*;

verus! {

/// What one pass of the loop did.
#[derive(Debug, PartialEq)]
pub enum Pass<S> {
    /// The iterate was outside the bailout radius; the loop stops with this
    /// state.
    Escaped(S),
    /// The iterate was within the bailout radius and was iterated once; the
    /// loop goes on from this state.
    Iterated(S),
}

impl<S> Pass<S> {
    /// The state the pass left.
    pub open spec fn state(self) -> S {
        match self {
            Pass::Escaped(state) => state,
            Pass::Iterated(state) => state,
        }
    }
}

/// The state from which pass `i` starts; for `i` the number of passes, the
/// state the loop ends with.
pub open spec fn state_before<S>(start: S, passes: Seq<Pass<S>>, i: int) -> S {
    if i <= 0 {
        start
    } else {
        passes[i - 1].state()
    }
}

/// `passes` are the passes of one complete run of the loop from `start`:
/// each is a result of `pass` on the state its predecessor left, none but
/// the last reports an escape, and the run ends on the first escape or after
/// `max_iterations` passes.
pub open spec fn is_orbit<S, F: Fn(S) -> Pass<S>>(
    pass: F,
    start: S,
    passes: Seq<Pass<S>>,
    max_iterations: int,
) -> bool {
    &&& passes.len() <= max_iterations
    &&& forall|i: int|
        0 <= i < passes.len() ==> call_ensures(
            pass,
            (state_before(start, passes, i),),
            #[trigger] passes[i],
        )
    &&& forall|i: int| 0 <= i < passes.len() - 1 ==> #[trigger] passes[i] is Iterated
    &&& (passes.len() == max_iterations || (passes.len() > 0 && passes.last() is Escaped))
}

/// `pass` returns one value only on each state.
pub open spec fn single_valued<S, F: Fn(S) -> Pass<S>>(pass: F) -> bool {
    forall|state: S, a: Pass<S>, b: Pass<S>|
        #[trigger] call_ensures(pass, (state,), a) && #[trigger] call_ensures(pass, (state,), b)
            ==> a == b
}

/// Runs the loop from `start` and returns the state it ends with: that of
/// the pass that escaped, or of the last pass if none did, or `start` if no
/// pass was made.
pub fn iterate<S, F: Fn(S) -> Pass<S>>(start: S, max_iterations: u32, pass: F) -> (end: S)
    requires
        forall|state: S| call_requires(pass, (state,)),
    ensures
        exists|passes: Seq<Pass<S>>|
            #[trigger] is_orbit(pass, start, passes, max_iterations as int) && end
                == state_before(start, passes, passes.len() as int),
        max_iterations == 0 ==> end == start,
{
    let ghost mut passes: Seq<Pass<S>> = Seq::empty();
    let mut state = start;
    let mut made: u32 = 0;
    while made < max_iterations
        invariant
            forall|state: S| call_requires(pass, (state,)),
            made <= max_iterations,
            passes.len() == made,
            state == state_before(start, passes, made as int),
            forall|i: int|
                0 <= i < passes.len() ==> call_ensures(
                    pass,
                    (state_before(start, passes, i),),
                    #[trigger] passes[i],
                ),
            forall|i: int| 0 <= i < passes.len() ==> #[trigger] passes[i] is Iterated,
        decreases max_iterations - made,
    {
        let result = pass(state);
        let ghost longer = passes.push(result);
        proof {
            // Each earlier pass still starts from the state it started from.
            assert forall|i: int| 0 <= i < longer.len() implies call_ensures(
                pass,
                (state_before(start, longer, i),),
                #[trigger] longer[i],
            ) by {
                if i < passes.len() {
                    assert(longer[i] == passes[i]);
                    assert(state_before(start, longer, i) == state_before(start, passes, i));
                }
            }
        }
        match result {
            Pass::Escaped(end) => {
                proof {
                    assert(is_orbit(pass, start, longer, max_iterations as int));
                }
                return end;
            },
            Pass::Iterated(next) => {
                state = next;
            },
        }
        proof {
            passes = longer;
        }
        made = made + 1;
    }
    proof {
        assert(is_orbit(pass, start, passes, max_iterations as int));
    }
    state
}

/// With one iteration allowed the loop makes exactly one pass, and the end
/// state is what that pass made of the start.
pub proof fn lemma_single_pass<S, F: Fn(S) -> Pass<S>>(pass: F, start: S, passes: Seq<Pass<S>>)
    requires
        is_orbit(pass, start, passes, 1),
    ensures
        passes.len() == 1,
        call_ensures(pass, (start,), passes[0]),
        state_before(start, passes, passes.len() as int) == passes[0].state(),
{
}

/// The loop stops within its bound whatever the passes compute, and it stops
/// short of the bound only on an escape.
pub proof fn lemma_orbit_stops<S, F: Fn(S) -> Pass<S>>(
    pass: F,
    start: S,
    passes: Seq<Pass<S>>,
    max_iterations: int,
)
    requires
        is_orbit(pass, start, passes, max_iterations),
    ensures
        passes.len() <= max_iterations,
        passes.len() < max_iterations ==> passes.len() >= 1 && passes.last() is Escaped,
        max_iterations == 0 ==> state_before(start, passes, passes.len() as int) == start,
{
}

/// A start that has already escaped is returned by the first pass: the end
/// state is what that pass reported, and nothing was iterated.
pub proof fn lemma_escaped_start<S, F: Fn(S) -> Pass<S>>(
    pass: F,
    start: S,
    passes: Seq<Pass<S>>,
    max_iterations: int,
)
    requires
        max_iterations >= 1,
        is_orbit(pass, start, passes, max_iterations),
        forall|result: Pass<S>| call_ensures(pass, (start,), result) ==> result is Escaped,
    ensures
        passes.len() == 1,
        passes[0] is Escaped,
        call_ensures(pass, (start,), passes[0]),
{
}

/// Two runs over one single-valued pass make the same passes for as long as
/// both last.
proof fn lemma_common_passes<S, F: Fn(S) -> Pass<S>>(
    pass: F,
    start: S,
    a: Seq<Pass<S>>,
    b: Seq<Pass<S>>,
    n: int,
    max_a: int,
    max_b: int,
)
    requires
        single_valued(pass),
        is_orbit(pass, start, a, max_a),
        is_orbit(pass, start, b, max_b),
        0 <= n <= a.len(),
        n <= b.len(),
    ensures
        forall|i: int| 0 <= i < n ==> a[i] == b[i],
    decreases n,
{
    if n > 0 {
        lemma_common_passes(pass, start, a, b, n - 1, max_a, max_b);
        // Both runs make pass `n - 1` from the same state.
        assert(state_before(start, a, n - 1) == state_before(start, b, n - 1));
    }
}

/// Raising the iteration bound extends a run and changes nothing of it: over
/// a single-valued pass the run with the lower bound is the beginning of the
/// run with the higher one, and the whole of it if it ended on an escape.
pub proof fn lemma_orbit_extends<S, F: Fn(S) -> Pass<S>>(
    pass: F,
    start: S,
    shorter: Seq<Pass<S>>,
    longer: Seq<Pass<S>>,
    lower: int,
    higher: int,
)
    requires
        single_valued(pass),
        lower <= higher,
        is_orbit(pass, start, shorter, lower),
        is_orbit(pass, start, longer, higher),
    ensures
        shorter.len() <= longer.len(),
        forall|i: int| 0 <= i < shorter.len() ==> shorter[i] == longer[i],
        shorter.len() >= 1 && shorter.last() is Escaped ==> shorter == longer,
        lower == higher ==> shorter == longer,
{
    let n = if shorter.len() <= longer.len() {
        shorter.len() as int
    } else {
        longer.len() as int
    };
    lemma_common_passes(pass, start, shorter, longer, n, lower, higher);
    // A run that stops before another does stops on an escape, which as an
    // inner pass of the other it cannot be.
    if longer.len() < shorter.len() {
        assert(longer.last() == shorter[n - 1]);
    }
    if shorter.len() < longer.len() {
        assert(shorter.len() >= 1 ==> shorter.last() == longer[n - 1]);
    }
    if shorter.len() == longer.len() {
        assert(shorter =~= longer);
    }
}

} // verus!
