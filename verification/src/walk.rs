//! A walk: the point starts at the centre of the square and is moved step
//! by step until it has left the square.
//!
//! The walk decides what the next step is made of and when the walk is
//! over, and keeps the trajectory. Whoever drives it makes each step and
//! reports where the point then stands.

use vstd::prelude::*;
use crate::pattern::Pattern;
use crate::region::{Point, Region};

verus! {

/// One recorded position, with whether it lies outside the square.
#[derive(Copy, Clone, Debug, PartialEq, Eq, Structural)]
pub struct Node {
    pub coords: Point,
    pub outside: bool,
}

/// How the step of a spiral gets longer after each move.
#[derive(Copy, Clone, Debug, PartialEq, Eq, Structural)]
pub enum Growth {
    /// The step length is multiplied by the growth coefficient.
    Multiplicative,
    /// The growth coefficient is added to the step length.
    Additive,
}

/// The state of a walk.
#[derive(Copy, Clone, Debug, PartialEq, Eq, Structural)]
pub enum Phase {
    /// The point has not left the square.
    Running,
    /// The point has left the square. No step follows.
    Exited,
}

/// What one step is made of, in this order: the heading is turned by the
/// turning angle if `turn` is set; the point goes forward by the current
/// step length; then the step length grows as `growth` says, if it says so.
#[derive(Copy, Clone, Debug, PartialEq, Eq, Structural)]
pub struct Step {
    pub turn: bool,
    pub growth: Option<Growth>,
}

/// What governs a walk: the pattern, how a spiral's step grows, and the
/// greatest number of steps that may be taken.
#[derive(Copy, Clone, Debug, PartialEq, Eq, Structural)]
pub struct Plan {
    pub pattern: Pattern,
    pub growth: Growth,
    pub max_steps: usize,
}

/// A walk in progress or at its end.
#[derive(Debug)]
pub struct Walk {
    region: Region,
    plan: Plan,
    trail: Vec<Node>,
}

/// The node that records `position` in `region`.
pub open spec fn node_at(region: Region, position: Point) -> Node {
    Node { coords: position, outside: !region.encloses(position) }
}

/// The step of a walk under `plan`: a line goes straight on with a step
/// that stays as it is; a spiral turns before it goes forward, and its step
/// grows afterwards.
pub open spec fn step_of(plan: Plan) -> Step {
    match plan.pattern {
        Pattern::Line => Step { turn: false, growth: None },
        Pattern::Spirale => Step { turn: true, growth: Some(plan.growth) },
    }
}

/// Whether `trail` is the trajectory of a walk in `region`: it starts at
/// the centre, every node says truly whether it lies outside, and none but
/// the last lies outside.
pub open spec fn is_trajectory(trail: Seq<Node>, region: Region) -> bool {
    &&& trail.len() > 0
    &&& trail[0].coords == region.middle()
    &&& forall|i: int| 0 <= i < trail.len() ==> #[trigger] trail[i] == node_at(region, trail[i].coords)
    &&& forall|i: int| 0 <= i < trail.len() - 1 ==> !(#[trigger] trail[i]).outside
}

/// Appends to `trajectory` the node that records `position` in `region`.
pub fn record(trajectory: &mut Vec<Node>, position: Point, region: &Region)
    ensures
        final(trajectory)@ == old(trajectory)@.push(node_at(*region, position)),
{
    let outside = region.is_outside(position);
    trajectory.push(Node { coords: position, outside });
}

impl Plan {
    /// What one step of a walk under this plan is made of.
    pub fn step(&self) -> (step: Step)
        ensures
            step == step_of(*self),
    {
        match self.pattern {
            Pattern::Line => Step { turn: false, growth: None },
            Pattern::Spirale => Step { turn: true, growth: Some(self.growth) },
        }
    }
}

impl Walk {
    #[verifier::type_invariant]
    closed spec fn valid(&self) -> bool {
        &&& is_trajectory(self.trail@, self.region)
        &&& self.trail@.len() - 1 <= self.plan.max_steps
    }

    /// The square in which the walk takes place.
    pub closed spec fn region(&self) -> Region {
        self.region
    }

    /// What governs the walk.
    pub closed spec fn plan(&self) -> Plan {
        self.plan
    }

    /// The trajectory so far: the start, then where the point stood after
    /// each step.
    pub closed spec fn trail(&self) -> Seq<Node> {
        self.trail@
    }

    /// The number of steps taken so far.
    pub open spec fn steps(&self) -> int {
        self.trail().len() - 1
    }

    /// Whether the point has left the square.
    pub open spec fn exited(&self) -> bool {
        self.trail().last().outside
    }

    /// Whether another step is to be taken: the point is still in the
    /// square and the plan allows a further step.
    pub open spec fn running(&self) -> bool {
        !self.exited() && self.steps() < self.plan().max_steps
    }

    /// A walk in `region` under `plan`, with the point at the centre and the
    /// centre recorded as the first node.
    pub fn begin(region: Region, plan: Plan) -> (walk: Walk)
        ensures
            walk.region() == region,
            walk.plan() == plan,
            walk.trail() == seq![node_at(region, region.middle())],
            !walk.exited(),
    {
        let start = region.center();
        let mut trail: Vec<Node> = Vec::new();
        record(&mut trail, start, &region);
        Walk { region, plan, trail }
    }

    /// The state of the walk: exited once the last recorded position lies
    /// outside the square, running until then.
    pub fn phase(&self) -> (phase: Phase)
        ensures
            phase == if self.exited() {
                Phase::Exited
            } else {
                Phase::Running
            },
    {
        proof {
            use_type_invariant(self);
        }
        if self.trail[self.trail.len() - 1].outside {
            Phase::Exited
        } else {
            Phase::Running
        }
    }

    /// The number of steps taken so far. It never exceeds what the plan
    /// allows.
    pub fn steps_taken(&self) -> (count: usize)
        ensures
            count == self.steps(),
            count <= self.plan().max_steps,
    {
        proof {
            use_type_invariant(self);
        }
        self.trail.len() - 1
    }

    /// What the next step is made of; `None` once the point has left the
    /// square or the plan allows no further step.
    pub fn next_step(&self) -> (step: Option<Step>)
        ensures
            step == if self.running() {
                Some(step_of(self.plan()))
            } else {
                None
            },
    {
        proof {
            use_type_invariant(self);
        }
        let last = self.trail.len() - 1;
        if !self.trail[last].outside && last < self.plan.max_steps {
            Some(self.plan.step())
        } else {
            None
        }
    }

    /// The walk after a step that has brought the point to `position`.
    /// While the walk is running the position is recorded, also where it
    /// lies outside the square; a walk that is over stays as it is.
    pub fn arrive(self, position: Point) -> (next: Walk)
        ensures
            next.region() == self.region(),
            next.plan() == self.plan(),
            next.trail() == if self.running() {
                self.trail().push(node_at(self.region(), position))
            } else {
                self.trail()
            },
    {
        proof {
            use_type_invariant(&self);
        }
        if self.next_step().is_none() {
            return self;
        }
        let Walk { region, plan, mut trail } = self;
        record(&mut trail, position, &region);
        Walk { region, plan, trail }
    }

    /// The trajectory so far. It is the trajectory of a walk in the square,
    /// and holds no more steps than the plan allows.
    pub fn trajectory(&self) -> (trail: &Vec<Node>)
        ensures
            trail@ == self.trail(),
            is_trajectory(trail@, self.region()),
            trail@.len() - 1 <= self.plan().max_steps,
    {
        proof {
            use_type_invariant(self);
        }
        &self.trail
    }

    /// Ends the walk and hands out its trajectory.
    pub fn into_trajectory(self) -> (trail: Vec<Node>)
        ensures
            trail@ == self.trail(),
            is_trajectory(trail@, self.region()),
            trail@.len() - 1 <= self.plan().max_steps,
    {
        proof {
            use_type_invariant(&self);
        }
        self.trail
    }
}

} // verus!
