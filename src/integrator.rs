//! The control of the recursive radiance estimate, written as the loop it
//! unrolls to: a path keeps bouncing while its depth budget lasts, and ends
//! when the ray escapes to the background, is absorbed, or runs out of budget.
//! The colour arithmetic is done by the caller; this decides which of those
//! three endings a path has and how many attenuations it multiplies.
use vstd::prelude::*;

verus! {

/// What a ray meets when the scene is probed once.
#[derive(Clone, Copy, Debug, PartialEq, Eq, Structural)]
pub enum Bounce {
    /// No surface: the ray sees the background gradient.
    Escaped,
    /// A surface whose material does not scatter it.
    Absorbed,
    /// A surface whose material scatters it into a new ray.
    Scattered,
}

/// How a path ends. Only an escaped path carries light: its radiance is the
/// background seen by the last ray times the attenuation of every scatter.
/// The other two endings give black.
#[derive(Clone, Copy, Debug, PartialEq, Eq, Structural)]
pub enum PathEnd {
    /// The depth budget ran out before the path left the scene.
    Exhausted,
    /// The last surface absorbed the ray.
    Absorbed,
    /// The last ray left the scene.
    Escaped,
}

/// Where a path stands after some probes of the scene.
#[derive(PartialEq, Eq, Structural)]
pub enum Trace {
    /// The path needs another probe.
    Pending,
    /// The path is over, after the given number of scatters.
    Ended(PathEnd, nat),
}

/// The recursive estimate with budget `depth` fed the probes `events` in
/// order: a budget of zero or less ends the path black at once, without a
/// probe; otherwise the first probe decides, and a scatter continues with one
/// less budget.
pub open spec fn trace(depth: int, events: Seq<Bounce>) -> Trace
    decreases events.len(),
{
    if depth <= 0 {
        Trace::Ended(PathEnd::Exhausted, 0)
    } else if events.len() == 0 {
        Trace::Pending
    } else {
        match events[0] {
            Bounce::Escaped => Trace::Ended(PathEnd::Escaped, 0),
            Bounce::Absorbed => Trace::Ended(PathEnd::Absorbed, 0),
            Bounce::Scattered => match trace(depth - 1, events.drop_first()) {
                Trace::Pending => Trace::Pending,
                Trace::Ended(end, n) => Trace::Ended(end, n + 1),
            },
        }
    }
}

/// How the path ends, once it has.
pub open spec fn ending(t: Trace) -> Option<PathEnd> {
    match t {
        Trace::Pending => None,
        Trace::Ended(e, _) => Some(e),
    }
}

/// What one more probe does to a path that needs one, after `n` scatters with
/// `depth` its starting budget.
pub open spec fn after_probe(depth: int, n: nat, b: Bounce) -> Trace {
    match b {
        Bounce::Escaped => Trace::Ended(PathEnd::Escaped, n),
        Bounce::Absorbed => Trace::Ended(PathEnd::Absorbed, n),
        Bounce::Scattered => if depth - n - 1 <= 0 {
            Trace::Ended(PathEnd::Exhausted, n + 1)
        } else {
            Trace::Pending
        },
    }
}

/// A path that needs a probe has only scattered so far, with budget left, and
/// the next probe acts as `after_probe` says.
pub proof fn lemma_trace_extend(depth: int, events: Seq<Bounce>, b: Bounce)
    requires
        trace(depth, events) is Pending,
    ensures
        depth > events.len(),
        forall|k: int| 0 <= k < events.len() ==> events[k] == Bounce::Scattered,
        trace(depth, events.push(b)) == after_probe(depth, events.len(), b),
    decreases events.len(),
{
    if events.len() == 0 {
        assert(events.push(b).drop_first() =~= events);
        assert(trace(depth - 1, events) == if depth - 1 <= 0 {
            Trace::Ended(PathEnd::Exhausted, 0)
        } else {
            Trace::Pending
        });
    } else {
        let rest = events.drop_first();
        lemma_trace_extend(depth - 1, rest, b);
        assert(events.push(b).drop_first() =~= rest.push(b));
        assert(events.push(b)[0] == events[0]);
        assert forall|k: int| 0 <= k < events.len() implies events[k] == Bounce::Scattered by {
            if k > 0 {
                assert(events[k] == rest[k - 1]);
            }
        }
    }
}

/// A path given no budget is black whatever the scene holds: it ends as
/// exhausted, with no scatter, before any probe is looked at.
pub proof fn lemma_no_budget_is_black(depth: int, events: Seq<Bounce>)
    requires
        depth <= 0,
    ensures
        trace(depth, events) == Trace::Ended(PathEnd::Exhausted, 0),
{
}

/// The recursion is bounded by its budget: once as many probes as the budget
/// have been made the path has ended, and no path scatters more often than
/// its budget allows.
pub proof fn lemma_path_ends_within_budget(depth: int, events: Seq<Bounce>)
    requires
        events.len() >= depth,
    ensures
        trace(depth, events) matches Trace::Ended(_, n) && n <= (if depth > 0 {
            depth
        } else {
            0
        }),
    decreases events.len(),
{
    if depth > 0 {
        lemma_path_ends_within_budget(depth - 1, events.drop_first());
    }
}

/// The progress of one path through the scene.
pub struct PathTracer {
    max_depth: i32,
    remaining: i32,
    bounces: u32,
    end: Option<PathEnd>,
    events: Ghost<Seq<Bounce>>,
}

impl PathTracer {
    /// The depth budget the path started with.
    pub closed spec fn budget(&self) -> int {
        self.max_depth as int
    }

    /// The probes recorded so far, in order.
    pub closed spec fn history(&self) -> Seq<Bounce> {
        self.events@
    }

    /// Where the path stands, as the recursive estimate has it.
    pub open spec fn state(&self) -> Trace {
        trace(self.budget(), self.history())
    }

    pub closed spec fn wf(&self) -> bool {
        &&& self.remaining == self.max_depth - self.bounces
        &&& match self.end {
            None => {
                &&& self.state() is Pending
                &&& self.remaining > 0
                &&& self.events@.len() == self.bounces
            },
            Some(e) => self.state() == Trace::Ended(e, self.bounces as nat),
        }
    }

    /// A path with budget `max_depth` and no probe yet.
    pub fn new(max_depth: i32) -> (t: PathTracer)
        ensures
            t.wf(),
            t.budget() == max_depth,
            t.history() == Seq::<Bounce>::empty(),
    {
        PathTracer {
            max_depth,
            remaining: max_depth,
            bounces: 0,
            end: if max_depth <= 0 {
                Some(PathEnd::Exhausted)
            } else {
                None
            },
            events: Ghost(Seq::empty()),
        }
    }

    /// How the path has ended, or `None` while it needs another probe.
    pub fn ended(&self) -> (r: Option<PathEnd>)
        requires
            self.wf(),
        ensures
            r == ending(self.state()),
    {
        self.end
    }

    /// The number of scatters so far: the attenuations that an escaped path
    /// multiplies into its background colour.
    pub fn bounces(&self) -> (r: u32)
        requires
            self.wf(),
        ensures
            self.state() matches Trace::Ended(_, n) ==> r == n,
            self.state() is Pending ==> r == self.history().len(),
    {
        self.bounces
    }

    /// Records what the last probe of the scene met.
    pub fn record(&mut self, b: Bounce)
        requires
            old(self).wf(),
            old(self).state() is Pending,
        ensures
            final(self).wf(),
            final(self).budget() == old(self).budget(),
            final(self).history() == old(self).history().push(b),
            final(self).state() == after_probe(
                old(self).budget(),
                old(self).history().len(),
                b,
            ),
    {
        proof {
            lemma_trace_extend(self.max_depth as int, self.events@, b);
        }
        match b {
            Bounce::Escaped => {
                self.end = Some(PathEnd::Escaped);
            },
            Bounce::Absorbed => {
                self.end = Some(PathEnd::Absorbed);
            },
            Bounce::Scattered => {
                self.bounces = self.bounces + 1;
                self.remaining = self.remaining - 1;
                if self.remaining <= 0 {
                    self.end = Some(PathEnd::Exhausted);
                }
            },
        }
        self.events = Ghost(self.events@.push(b));
    }
}

} // verus!
