//! Camera movement: from held keys to the steps the camera takes.
//!
//! Each frame the camera takes one step for every movement key that is held,
//! in a fixed order, along one of its three basis directions. A step is
//! `speed * pace / STEP_DIVISOR` scene units long, where `pace` depends on
//! the modifier keys. The basis and the speed are the host's; what is decided
//! here is which steps are taken and how they are scaled.

use vstd::prelude::*;

verus! {

/// A step is one `STEP_DIVISOR`-th of the speed.
pub const STEP_DIVISOR: u32 = 100;

/// A basis direction of the camera.
#[derive(Clone, Copy, Debug, PartialEq, Eq, Structural)]
pub enum Axis {
    Look,
    Right,
    Up,
}

/// One step along an axis, forward or against it.
#[derive(Clone, Copy, Debug, PartialEq, Eq, Structural)]
pub struct Motion {
    pub axis: Axis,
    pub forward: bool,
}

impl Motion {
    /// `1` along the axis, `-1` against it.
    pub open spec fn signum(self) -> int {
        if self.forward {
            1
        } else {
            -1
        }
    }

    /// The sign of the step: `1` along the axis, `-1` against it.
    pub fn sign(&self) -> (s: i8)
        ensures
            s == self.signum(),
    {
        if self.forward {
            1
        } else {
            -1
        }
    }
}

/// How the modifier keys scale the speed.
#[derive(Clone, Copy, Debug, PartialEq, Eq, Structural)]
pub enum Pace {
    /// Twice the speed.
    Boost,
    /// A fifth of the speed.
    Slow,
    /// The speed as it is.
    Normal,
}

impl Pace {
    /// The factor as a fraction, numerator first.
    pub open spec fn factor(self) -> (int, int) {
        match self {
            Pace::Boost => (2, 1),
            Pace::Slow => (1, 5),
            Pace::Normal => (1, 1),
        }
    }

    /// The factor on the speed as a fraction in lowest terms, numerator
    /// first.
    pub fn ratio(&self) -> (r: (u32, u32))
        ensures
            (r.0 as int, r.1 as int) == self.factor(),
    {
        match self {
            Pace::Boost => (2, 1),
            Pace::Slow => (1, 5),
            Pace::Normal => (1, 1),
        }
    }
}

/// The keys that move the camera, each `true` while held.
#[derive(Clone, Copy, Debug, PartialEq, Eq, Structural)]
pub struct Keys {
    /// Along the look direction.
    pub forward: bool,
    /// Against the look direction.
    pub back: bool,
    /// Against the right direction.
    pub left: bool,
    /// Along the right direction.
    pub right: bool,
    /// Against the up direction.
    pub down: bool,
    /// Along the up direction.
    pub up: bool,
    /// Modifier that doubles the speed.
    pub boost: bool,
    /// Modifier that cuts the speed to a fifth.
    pub slow: bool,
}

impl Keys {
    /// Whether the key bound to `motion` is held.
    pub open spec fn holds(self, motion: Motion) -> bool {
        match motion.axis {
            Axis::Look => if motion.forward {
                self.forward
            } else {
                self.back
            },
            Axis::Right => if motion.forward {
                self.right
            } else {
                self.left
            },
            Axis::Up => if motion.forward {
                self.up
            } else {
                self.down
            },
        }
    }

    /// The pace the modifiers ask for. Boost wins over slow.
    pub open spec fn pace_of(self) -> Pace {
        if self.boost {
            Pace::Boost
        } else if self.slow {
            Pace::Slow
        } else {
            Pace::Normal
        }
    }

    /// The steps of one frame: for each held key its motion, in the order
    /// forward, back, left, right, down, up.
    pub open spec fn plan(self) -> Seq<Motion> {
        step_if(self.forward, Motion { axis: Axis::Look, forward: true }) + step_if(
            self.back,
            Motion { axis: Axis::Look, forward: false },
        ) + step_if(self.left, Motion { axis: Axis::Right, forward: false }) + step_if(
            self.right,
            Motion { axis: Axis::Right, forward: true },
        ) + step_if(self.down, Motion { axis: Axis::Up, forward: false }) + step_if(
            self.up,
            Motion { axis: Axis::Up, forward: true },
        )
    }

    /// The pace the modifiers ask for.
    pub fn pace(&self) -> (pace: Pace)
        ensures
            pace == self.pace_of(),
    {
        if self.boost {
            Pace::Boost
        } else if self.slow {
            Pace::Slow
        } else {
            Pace::Normal
        }
    }

    /// The steps the camera takes this frame, in the order it takes them.
    pub fn motions(&self) -> (steps: Vec<Motion>)
        ensures
            steps@ == self.plan(),
    {
        let mut steps: Vec<Motion> = Vec::new();
        if self.forward {
            steps.push(Motion { axis: Axis::Look, forward: true });
        }
        if self.back {
            steps.push(Motion { axis: Axis::Look, forward: false });
        }
        if self.left {
            steps.push(Motion { axis: Axis::Right, forward: false });
        }
        if self.right {
            steps.push(Motion { axis: Axis::Right, forward: true });
        }
        if self.down {
            steps.push(Motion { axis: Axis::Up, forward: false });
        }
        if self.up {
            steps.push(Motion { axis: Axis::Up, forward: true });
        }
        steps
    }
}

/// The one-element sequence of `motion` if `held`, else the empty sequence.
pub open spec fn step_if(held: bool, motion: Motion) -> Seq<Motion> {
    if held {
        seq![motion]
    } else {
        Seq::empty()
    }
}

/// Signed number of steps that `steps` take along `axis`.
pub open spec fn net(steps: Seq<Motion>, axis: Axis) -> int
    decreases steps.len(),
{
    if steps.len() == 0 {
        0
    } else {
        net(steps.drop_last(), axis) + if steps.last().axis == axis {
            steps.last().signum()
        } else {
            0
        }
    }
}

/// `1` for a held key, `0` for a released one.
pub open spec fn count(held: bool) -> int {
    if held {
        1
    } else {
        0
    }
}

/// A frame's plan holds the motion of every held key, of no other, and none
/// twice.
pub proof fn lemma_plan_follows_keys(keys: Keys)
    ensures
        forall|motion: Motion| keys.plan().contains(motion) <==> keys.holds(motion),
        keys.plan().no_duplicates(),
        keys.plan().len() == count(keys.forward) + count(keys.back) + count(keys.left) + count(
            keys.right,
        ) + count(keys.down) + count(keys.up),
{
    let forward = Motion { axis: Axis::Look, forward: true };
    let back = Motion { axis: Axis::Look, forward: false };
    let left = Motion { axis: Axis::Right, forward: false };
    let right = Motion { axis: Axis::Right, forward: true };
    let down = Motion { axis: Axis::Up, forward: false };
    let up = Motion { axis: Axis::Up, forward: true };
    let none = Seq::<Motion>::empty();
    let a = none + step_if(keys.forward, forward);
    let b = a + step_if(keys.back, back);
    let c = b + step_if(keys.left, left);
    let d = c + step_if(keys.right, right);
    let e = d + step_if(keys.down, down);
    let f = e + step_if(keys.up, up);
    lemma_step_appended(none, keys.forward, forward);
    lemma_step_appended(a, keys.back, back);
    lemma_step_appended(b, keys.left, left);
    lemma_step_appended(c, keys.right, right);
    lemma_step_appended(d, keys.down, down);
    lemma_step_appended(e, keys.up, up);
    assert forall|motion: Motion| f.contains(motion) <==> keys.holds(motion) by {
        assert(motion == forward || motion == back || motion == left || motion == right
            || motion == down || motion == up);
    }
}

/// Appending the step of one key to steps that lack it: the result holds
/// what the steps held and, if the key is held, its motion, once.
proof fn lemma_step_appended(steps: Seq<Motion>, held: bool, motion: Motion)
    ensures
        forall|other: Motion| #[trigger]
            (steps + step_if(held, motion)).contains(other) <==> steps.contains(other) || (held
                && other == motion),
        steps.no_duplicates() && !steps.contains(motion) ==> (steps + step_if(
            held,
            motion,
        )).no_duplicates(),
        (steps + step_if(held, motion)).len() == steps.len() + count(held),
{
    let longer = steps + step_if(held, motion);
    assert forall|other: Motion| #[trigger]
        longer.contains(other) <==> steps.contains(other) || (held && other == motion) by {
        if longer.contains(other) {
            let i = choose|i: int| 0 <= i < longer.len() && longer[i] == other;
            if i < steps.len() {
                assert(steps[i] == other);
            }
        }
        if steps.contains(other) {
            let i = choose|i: int| 0 <= i < steps.len() && steps[i] == other;
            assert(longer[i] == other);
        }
        if held && other == motion {
            assert(longer[steps.len() as int] == other);
        }
    }
    if steps.no_duplicates() && !steps.contains(motion) {
        assert forall|i: int, j: int|
            0 <= i < longer.len() && 0 <= j < longer.len() && i != j implies longer[i]
            != longer[j] by {
            // Two earlier steps differ as they did; the appended one is
            // `motion`, which the earlier ones lack.
            if i < steps.len() {
                assert(longer[i] == steps[i]);
            }
            if j < steps.len() {
                assert(longer[j] == steps[j]);
            }
        }
    }
}

/// Opposite keys cancel: along each axis the plan nets one step for the key
/// that points along it, less one for the key that points against it.
pub proof fn lemma_opposite_keys_cancel(keys: Keys)
    ensures
        net(keys.plan(), Axis::Look) == count(keys.forward) - count(keys.back),
        net(keys.plan(), Axis::Right) == count(keys.right) - count(keys.left),
        net(keys.plan(), Axis::Up) == count(keys.up) - count(keys.down),
{
    let forward = Motion { axis: Axis::Look, forward: true };
    let back = Motion { axis: Axis::Look, forward: false };
    let left = Motion { axis: Axis::Right, forward: false };
    let right = Motion { axis: Axis::Right, forward: true };
    let down = Motion { axis: Axis::Up, forward: false };
    let up = Motion { axis: Axis::Up, forward: true };
    let a = step_if(keys.forward, forward);
    let b = a + step_if(keys.back, back);
    let c = b + step_if(keys.left, left);
    let d = c + step_if(keys.right, right);
    let e = d + step_if(keys.down, down);
    let f = e + step_if(keys.up, up);
    lemma_net_of_step(Seq::empty(), keys.forward, forward);
    assert(Seq::<Motion>::empty() + step_if(keys.forward, forward) =~= a);
    lemma_net_of_step(a, keys.back, back);
    lemma_net_of_step(b, keys.left, left);
    lemma_net_of_step(c, keys.right, right);
    lemma_net_of_step(d, keys.down, down);
    lemma_net_of_step(e, keys.up, up);
}

/// Appending the step of one key adds its sign along its own axis and
/// nothing along the others.
proof fn lemma_net_of_step(steps: Seq<Motion>, held: bool, motion: Motion)
    ensures
        forall|axis: Axis|
            #[trigger] net(steps + step_if(held, motion), axis) == net(steps, axis) + if held
                && motion.axis == axis {
                motion.signum()
            } else {
                0
            },
{
    let longer = steps + step_if(held, motion);
    if held {
        assert(longer.drop_last() =~= steps);
    } else {
        assert(longer =~= steps);
    }
}

} // verus!
