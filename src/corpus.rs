//! Running one optimizer over a corpus of graphs: which graphs take part,
//! what each answer scores, and what a reply asks the runner to do.
use vstd::prelude::*;
use crate::graph::{Graph, is_max_per_edge, same_labeling};
use crate::matching::{score_graph, scorable};
use crate::protocol::{OptimizerResponse, ProtocolError, ResponseKind, response_kind};
use crate::text::{contains, has_infix};
use crate::validation::{ValidationError, validation};

verus! {

/// The result of one corpus graph.
#[derive(Debug, Clone, PartialEq, Eq)]
pub struct GraphStats {
    /// Name of the graph.
    pub graph: String,
    /// Crossings of the worst edge; `None` when the answer was disqualified.
    pub max_per_edge: Option<u32>,
    /// How long the optimizer took.
    pub duration_ms: u32,
}

/// The results of one optimizer over a corpus.
#[derive(Debug, Clone)]
pub struct RunStats {
    /// Optimizer name, version and parameters.
    pub name: String,
    pub runs: Vec<GraphStats>,
}

/// Settings of a corpus run.
#[derive(Debug)]
pub struct GraphsModeRunner {
    pub command: String,
    /// Only graphs whose name contains this text take part.
    pub filter: Option<String>,
    /// The run starts at the first graph whose name contains this text.
    pub skip_to: Option<String>,
    /// Whether answers are saved.
    pub save: bool,
}

pub open spec fn opt_view(o: Option<&str>) -> Option<Seq<char>> {
    match o {
        Some(s) => Some(s@),
        None => None,
    }
}

/// A graph named `name` passes `filter`.
pub open spec fn passes(filter: Option<Seq<char>>, name: Seq<char>) -> bool {
    match filter {
        Some(f) => has_infix(name, f),
        None => true,
    }
}

pub open spec fn passes_filter<T>(filter: Option<Seq<char>>) -> spec_fn((T, String)) -> bool {
    |g: (T, String)| passes(filter, g.1@)
}

/// The graphs whose name contains `filter`, in their order; all of them
/// without a filter.
pub fn filter_graphs<T>(graphs: Vec<(T, String)>, filter: Option<&str>) -> (r: Vec<(T, String)>)
    ensures
        r@ == graphs@.filter(passes_filter::<T>(opt_view(filter))),
{
    let ghost pred = passes_filter::<T>(opt_view(filter));
    let ghost all = graphs@;
    let mut r: Vec<(T, String)> = Vec::new();
    proof {
        broadcast use vstd::std_specs::vec::axiom_spec_into_iter;
    }
    for g in it: graphs.into_iter()
        invariant
            it.seq() == all,
            pred == passes_filter::<T>(opt_view(filter)),
            r@ == all.subrange(0, it.index() as int).filter(pred),
    {
        let keep = match filter {
            Some(f) => contains(g.1.as_str(), f),
            None => true,
        };
        proof {
            let i = it.index() as int;
            assert(g == all[i]);
            assert(keep == pred(all[i]));
            assert(all.subrange(0, i + 1) == all.subrange(0, i).push(all[i]));
            all.subrange(0, i).lemma_filter_push(all[i], pred);
        }
        if keep {
            r.push(g);
        }
    }
    proof {
        assert(all.subrange(0, all.len() as int) == all);
    }
    r
}

/// The position of the first graph whose name contains `skip_to`; the
/// number of graphs when there is none.
pub fn skip_to_index<T>(graphs: &Vec<(T, String)>, skip_to: &str) -> (r: usize)
    ensures
        r <= graphs@.len(),
        forall|i: int| 0 <= i < r ==> !has_infix((#[trigger] graphs@[i]).1@, skip_to@),
        r < graphs@.len() ==> has_infix(graphs@[r as int].1@, skip_to@),
{
    let mut i: usize = 0;
    while i < graphs.len()
        invariant
            i <= graphs@.len(),
            forall|j: int| 0 <= j < i ==> !has_infix((#[trigger] graphs@[j]).1@, skip_to@),
        decreases graphs@.len() - i,
    {
        if contains(graphs[i].1.as_str(), skip_to) {
            return i;
        }
        i = i + 1;
    }
    i
}

/// What was found out about an optimizer's answer to one corpus graph.
#[derive(Debug, PartialEq, Eq)]
pub struct OutputCheck {
    pub stats: GraphStats,
    /// The answer's first validity violation, if any.
    pub validity: Result<(), ValidationError>,
    pub nodes_match: bool,
    pub edges_match: bool,
    /// The answer has the input's edges (a warning only; it does not score).
    pub isomorphic: bool,
}

/// Scores `output`, the answer to the corpus graph `input` named `graph`.
pub fn evaluate_output(input: &Graph, output: &Graph, graph: String, duration_ms: u32) -> (c:
    OutputCheck)
    ensures
        c.stats.graph == graph,
        c.stats.duration_ms == duration_ms,
        c.stats.max_per_edge is Some == scorable(*input, *output),
        c.stats.max_per_edge matches Some(m) ==> is_max_per_edge(*output, m as int),
        c.validity == validation(*output),
        c.nodes_match == (input.nodes@.len() == output.nodes@.len()),
        c.edges_match == (input.edges@.len() == output.edges@.len()),
        c.isomorphic == same_labeling(*input, *output),
{
    let max_per_edge = score_graph(input, output);
    OutputCheck {
        stats: GraphStats { graph, max_per_edge, duration_ms },
        validity: output.is_valid(),
        nodes_match: input.nodes.len() == output.nodes.len(),
        edges_match: input.edges.len() == output.edges.len(),
        isomorphic: input.is_isomorphic(output),
    }
}

/// What a corpus run does with the reply to a graph.
#[derive(Debug)]
pub enum CorpusStep {
    /// Score this answer.
    Score { graph: Graph },
    /// The optimizer died: restart it and go on with the next graph.
    Restart { status: Option<i32> },
    /// The reply breaks the protocol: the run stops.
    Fail { error: ProtocolError },
}

pub fn corpus_step(r: OptimizerResponse) -> (s: CorpusStep)
    ensures
        match r {
            OptimizerResponse::Graph { graph } => s == CorpusStep::Score { graph },
            OptimizerResponse::ProcessExited { status } => s == CorpusStep::Restart { status },
            _ => s == CorpusStep::Fail {
                error: ProtocolError::Unexpected {
                    expected: ResponseKind::Graph,
                    got: response_kind(r),
                },
            },
        },
{
    let got = r.kind();
    match r {
        OptimizerResponse::Graph { graph } => CorpusStep::Score { graph },
        OptimizerResponse::ProcessExited { status } => CorpusStep::Restart { status },
        _ => CorpusStep::Fail {
            error: ProtocolError::Unexpected { expected: ResponseKind::Graph, got },
        },
    }
}

} // verus!
