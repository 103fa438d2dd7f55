//! Execution plans: the levels of beams to run, in order.

use vstd::prelude::*;

use crate::dag::{DependencyGraph, concat_rows, row_names};
use crate::error::AuroraError;
use crate::text::copy_str;

verus! {

/// Relies on `num_cpus::get`: the number of logical CPUs, at least 1.
#[verifier::external_body]
fn cpu_count() -> (r: usize)
    ensures
        r >= 1,
{
    num_cpus::get()
}

/// Plans the execution of a target over a dependency graph.
pub struct Scheduler {
    graph: DependencyGraph,
    max_parallelism: usize,
}

/// The levels of a plan, in execution order.
#[derive(Clone, Debug)]
pub struct ExecutionPlan {
    /// Each level's beams may run in parallel once the earlier levels are done.
    pub levels: Vec<ExecutionLevel>,
}

/// Beams that may run in parallel.
#[derive(Clone, Debug)]
pub struct ExecutionLevel {
    /// The beams' names.
    pub beams: Vec<String>,
}

/// The names in each level of a plan.
pub open spec fn plan_rows(levels: Seq<ExecutionLevel>) -> Seq<Seq<Seq<char>>> {
    levels.map_values(|l: ExecutionLevel| l.beams@.map_values(|s: String| s@))
}

/// All names of a plan, level after level.
pub open spec fn plan_names(levels: Seq<ExecutionLevel>) -> Seq<Seq<char>>
    decreases levels.len(),
{
    if levels.len() == 0 {
        Seq::empty()
    } else {
        plan_names(levels.drop_last()) + levels.last().beams@.map_values(|s: String| s@)
    }
}

/// A copy of a list of names.
fn copy_names(v: &Vec<String>) -> (r: Vec<String>)
    ensures
        r@.map_values(|s: String| s@) == v@.map_values(|s: String| s@),
{
    let mut r: Vec<String> = Vec::new();
    let mut i: usize = 0;
    while i < v.len()
        invariant
            i <= v@.len(),
            r@.len() == i,
            forall|k: int| 0 <= k < i ==> (#[trigger] r@[k])@ == v@[k]@,
        decreases v@.len() - i,
    {
        r.push(copy_str(v[i].as_str()));
        i = i + 1;
    }
    assert(r@.map_values(|s: String| s@) =~= v@.map_values(|s: String| s@));
    r
}

impl Scheduler {
    pub closed spec fn wf(&self) -> bool {
        self.graph.wf() && self.max_parallelism >= 1
    }

    /// The dependency graph.
    pub closed spec fn graph(&self) -> DependencyGraph {
        self.graph
    }

    /// The bound on beams in flight.
    pub closed spec fn parallelism(&self) -> usize {
        self.max_parallelism
    }

    /// A scheduler over `graph` that allows as many beams in flight as
    /// there are CPUs.
    pub fn new(graph: DependencyGraph) -> (r: Scheduler)
        requires
            graph.wf(),
        ensures
            r.wf(),
            r.graph() == graph,
    {
        Scheduler { graph, max_parallelism: cpu_count() }
    }

    /// Sets the bound on beams in flight; 0 counts as 1.
    pub fn with_max_parallelism(self, max: usize) -> (r: Scheduler)
        requires
            self.wf(),
        ensures
            r.wf(),
            r.graph() == self.graph(),
            r.parallelism() == if max == 0 {
                1
            } else {
                max
            },
    {
        let m = if max == 0 {
            1
        } else {
            max
        };
        Scheduler { max_parallelism: m, ..self }
    }

    /// The plan for `target`: one level for each of the graph's parallel
    /// levels, in order. Fails with `BeamNotFound` where `target` is not a beam.
    pub fn execution_plan(&self, target: &str) -> (r: Result<ExecutionPlan, AuroraError>)
        requires
            self.wf(),
        ensures
            match r {
                Ok(plan) => self.graph().names().contains(target@) && self.graph().partitions_required(
                    plan_rows(plan.levels@),
                    target@,
                ) && self.graph().points_forward(plan_rows(plan.levels@)) && self.graph().follows_level_rule(
                    plan_rows(plan.levels@),
                ),
                Err(e) => !self.graph().names().contains(target@) && e is BeamNotFound,
            },
    {
        let levels = match self.graph.parallel_levels(target) {
            Ok(l) => l,
            Err(e) => {
                return Err(e);
            },
        };
        let mut out: Vec<ExecutionLevel> = Vec::new();
        let mut i: usize = 0;
        while i < levels.len()
            invariant
                i <= levels@.len(),
                out@.len() == i,
                forall|k: int| 0 <= k < i ==> (#[trigger] out@[k]).beams@.map_values(|s: String| s@)
                    == levels@[k]@.map_values(|s: String| s@),
            decreases levels@.len() - i,
        {
            out.push(ExecutionLevel { beams: copy_names(&levels[i]) });
            i = i + 1;
        }
        assert(plan_rows(out@) =~= row_names(levels@));
        Ok(ExecutionPlan { levels: out })
    }

    /// The bound on beams in flight.
    pub fn max_parallelism(&self) -> (r: usize)
        ensures
            r == self.parallelism(),
    {
        self.max_parallelism
    }
}

impl ExecutionPlan {
    /// The number of beams in the plan.
    pub fn total_beams(&self) -> (r: usize)
        requires
            plan_names(self.levels@).len() <= usize::MAX,
        ensures
            r == plan_names(self.levels@).len(),
    {
        let mut total: usize = 0;
        let mut i: usize = 0;
        while i < self.levels.len()
            invariant
                i <= self.levels@.len(),
                plan_names(self.levels@).len() <= usize::MAX,
                total == plan_names(self.levels@.take(i as int)).len(),
            decreases self.levels@.len() - i,
        {
            proof {
                assert(self.levels@.take(i + 1).drop_last() =~= self.levels@.take(i as int));
                lemma_plan_names_prefix(self.levels@, i + 1);
            }
            total = total + self.levels[i].beams.len();
            i = i + 1;
        }
        assert(self.levels@.take(i as int) =~= self.levels@);
        total
    }

    /// All beam names, level after level.
    pub fn all_beams(&self) -> (r: Vec<String>)
        ensures
            r@.map_values(|s: String| s@) == plan_names(self.levels@),
    {
        let mut r: Vec<String> = Vec::new();
        let mut i: usize = 0;
        while i < self.levels.len()
            invariant
                i <= self.levels@.len(),
                r@.map_values(|s: String| s@) == plan_names(self.levels@.take(i as int)),
            decreases self.levels@.len() - i,
        {
            let beams = &self.levels[i].beams;
            let ghost r0 = r@.map_values(|s: String| s@);
            let mut j: usize = 0;
            while j < beams.len()
                invariant
                    j <= beams@.len(),
                    r@.map_values(|s: String| s@) == r0 + beams@.take(j as int).map_values(|s: String| s@),
                decreases beams@.len() - j,
            {
                let ghost rj = r@;
                r.push(copy_str(beams[j].as_str()));
                proof {
                    assert(r@.map_values(|s: String| s@) =~= rj.map_values(|s: String| s@).push(beams@[j as int]@));
                    assert(beams@.take(j + 1).map_values(|s: String| s@) =~= beams@.take(j as int).map_values(|s: String| s@).push(beams@[j as int]@));
                }
                j = j + 1;
            }
            proof {
                assert(beams@.take(j as int) =~= beams@);
                assert(self.levels@.take(i + 1).drop_last() =~= self.levels@.take(i as int));
            }
            i = i + 1;
        }
        assert(self.levels@.take(i as int) =~= self.levels@);
        r
    }
}

proof fn lemma_plan_names_prefix(levels: Seq<ExecutionLevel>, k: int)
    requires
        0 <= k <= levels.len(),
    ensures
        plan_names(levels.take(k)).len() <= plan_names(levels).len(),
    decreases levels.len() - k,
{
    if k < levels.len() {
        lemma_plan_names_prefix(levels, k + 1);
        assert(levels.take(k + 1).drop_last() =~= levels.take(k));
    } else {
        assert(levels.take(k) =~= levels);
    }
}

impl ExecutionLevel {
    /// Whether the level holds more than one beam.
    pub fn is_parallel(&self) -> (r: bool)
        ensures
            r == (self.beams@.len() > 1),
    {
        self.beams.len() > 1
    }
}

/// All names of a plan are its levels' names one level after the other.
pub proof fn lemma_plan_names_concat(levels: Seq<ExecutionLevel>)
    ensures
        plan_names(levels) == concat_rows(plan_rows(levels)),
    decreases levels.len(),
{
    if levels.len() > 0 {
        lemma_plan_names_concat(levels.drop_last());
        assert(plan_rows(levels).drop_last() =~= plan_rows(levels.drop_last()));
    } else {
        assert(plan_rows(levels) =~= Seq::<Seq<Seq<char>>>::empty());
    }
}

/// The beams of a plan whose edges all go to later levels, taken level
/// after level (`all_beams`), are a topological order, and no two beams of
/// one level have an edge between them.
pub proof fn lemma_plan_is_topological(g: DependencyGraph, levels: Seq<ExecutionLevel>)
    requires
        g.points_forward(plan_rows(levels)),
    ensures
        forall|i: int, j: int|
            0 <= i < plan_names(levels).len() && 0 <= j < plan_names(levels).len()
                && #[trigger] g.name_edge(plan_names(levels)[i], plan_names(levels)[j]) ==> i < j,
{
    lemma_plan_names_concat(levels);
    g.lemma_levels_concatenate(plan_rows(levels));
}

} // verus!
