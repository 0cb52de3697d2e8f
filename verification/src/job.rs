//! Bookkeeping for a background solve: the job's lifecycle protocol and
//! the assembly of the final path from a solver's raw result.
//!
//! The thread itself lives outside this crate; here stand the decisions:
//! a job is exactly one of idle, running or complete, a completed job is
//! drained exactly once, and a drained result is framed by the requested
//! endpoints, with the direct two-point segment as the fallback when the
//! solver reported no path.

use vstd::prelude::*;

use crate::geom::Vec2i;

verus! {

/// Lifecycle of one background solve.
#[derive(Clone, Copy, Debug, PartialEq, Eq, Structural)]
pub enum JobPhase {
    /// No job outstanding.
    Idle,
    /// A solve is in flight.
    Running,
    /// The result is ready and has not been drained yet.
    Done,
}

/// The state of the single outstanding background pathfinding job.
pub struct PathfindingTask {
    phase: JobPhase,
}

impl PathfindingTask {
    pub closed spec fn spec_phase(self) -> JobPhase {
        self.phase
    }

    /// A fresh tracker with no job outstanding.
    pub fn new() -> (r: PathfindingTask)
        ensures
            r.spec_phase() == JobPhase::Idle,
    {
        PathfindingTask { phase: JobPhase::Idle }
    }

    pub fn phase(&self) -> (r: JobPhase)
        ensures
            r == self.spec_phase(),
    {
        self.phase
    }

    /// Starts a job: only possible when none is outstanding.
    pub fn begin(&mut self)
        requires
            old(self).spec_phase() == JobPhase::Idle,
        ensures
            final(self).spec_phase() == JobPhase::Running,
    {
        self.phase = JobPhase::Running;
    }

    /// Marks the in-flight job complete.
    pub fn complete(&mut self)
        requires
            old(self).spec_phase() == JobPhase::Running,
        ensures
            final(self).spec_phase() == JobPhase::Done,
    {
        self.phase = JobPhase::Done;
    }

    /// Drains a completed job. Returns true exactly once per job: on a
    /// completed job the tracker returns to idle, otherwise nothing
    /// changes.
    pub fn try_drain(&mut self) -> (r: bool)
        ensures
            old(self).spec_phase() == JobPhase::Done ==> r && final(self).spec_phase()
                == JobPhase::Idle,
            old(self).spec_phase() != JobPhase::Done ==> !r && *final(self) == *old(self),
    {
        match self.phase {
            JobPhase::Done => {
                self.phase = JobPhase::Idle;
                true
            },
            _ => false,
        }
    }
}

/// Assembles the path handed to the caller from a drained solver result:
/// with both endpoints present, the raw path framed by the exact start
/// and goal, or the direct two-point segment when the solver found no
/// path; with an endpoint missing, nothing.
pub fn complete_path(result: Option<Vec<Vec2i>>, start: Option<Vec2i>, goal: Option<Vec2i>) -> (r:
    Option<Vec<Vec2i>>)
    ensures
        start is None || goal is None ==> r is None,
        start matches Some(s) ==> goal matches Some(gl) ==> match result {
            Some(p) => r matches Some(q) && q@ == seq![s] + p@ + seq![gl],
            None => r matches Some(q) && q@ == seq![s, gl],
        },
{
    let s = match start {
        Some(v) => v,
        None => {
            return None;
        },
    };
    let gl = match goal {
        Some(v) => v,
        None => {
            return None;
        },
    };
    match result {
        Some(p) => {
            let ghost raw = p@;
            let mut q = p;
            q.insert(0, s);
            q.push(gl);
            proof {
                assert(q@ =~= seq![s] + raw + seq![gl]);
            }
            Some(q)
        },
        None => {
            let mut q: Vec<Vec2i> = Vec::new();
            q.push(s);
            q.push(gl);
            proof {
                assert(q@ =~= seq![s, gl]);
            }
            Some(q)
        },
    }
}

} // verus!
