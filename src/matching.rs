//! Head-to-head matches: scoring a round, keeping the tally, deciding when
//! to stop, and assembling the random instance of a round.
use vstd::prelude::*;
use rand::Rng;
use rand::rngs::SmallRng;
use crate::graph::{Edge, Graph, Node, DEFAULT_DIMENSION, is_max_per_edge};
use crate::geometry::{ccw_lhs, ccw_rhs, strictly_between};
use crate::validation::{
    bounds_error_at, bounds_errors, collinear_error_at, collinear_errors, edge_error_at,
    edge_errors, id_error_at, id_errors, lemma_first_some_all_none, lemma_valid_ids_resolve,
    on_edge_error, on_edge_errors, overlap_error_at, overlap_errors, overlap_with, overlaps_of,
    position_of, validation,
};

verus! {

/// The decision of the sequential test after a round.
#[derive(Debug, Clone, Copy, PartialEq, Eq)]
pub enum SPRTResult {
    /// The stronger hypothesis (`elo1`) holds.
    AcceptH1,
    /// The null hypothesis (`elo0`) holds.
    AcceptH0,
    /// Not enough evidence yet.
    Continue,
}

/// The result of one round for the first optimizer.
#[derive(Debug, Clone, Copy, PartialEq, Eq)]
pub enum RoundOutcome {
    Win,
    Loss,
    Draw,
}

/// Wins, losses and draws of the first optimizer against the second.
#[derive(Debug, Clone, Copy, PartialEq, Eq)]
pub struct MatchTally {
    pub wins: u32,
    pub losses: u32,
    pub draws: u32,
}

impl MatchTally {
    pub open spec fn total(self) -> int {
        self.wins + self.losses + self.draws
    }

    /// The tally with one more round of the given outcome.
    pub open spec fn with(self, o: RoundOutcome) -> MatchTally {
        match o {
            RoundOutcome::Win => MatchTally { wins: (self.wins + 1) as u32, ..self },
            RoundOutcome::Loss => MatchTally { losses: (self.losses + 1) as u32, ..self },
            RoundOutcome::Draw => MatchTally { draws: (self.draws + 1) as u32, ..self },
        }
    }

    pub fn new() -> (t: MatchTally)
        ensures
            t == (MatchTally { wins: 0, losses: 0, draws: 0 }),
    {
        MatchTally { wins: 0, losses: 0, draws: 0 }
    }

    /// The tally after one more round of outcome `o`.
    pub fn recorded(&self, o: RoundOutcome) -> (t: MatchTally)
        requires
            self.total() < u32::MAX,
        ensures
            t == self.with(o),
            t.total() == self.total() + 1,
    {
        match o {
            RoundOutcome::Win => MatchTally { wins: self.wins + 1, ..*self },
            RoundOutcome::Loss => MatchTally { losses: self.losses + 1, ..*self },
            RoundOutcome::Draw => MatchTally { draws: self.draws + 1, ..*self },
        }
    }
}

/// The first optimizer's outcome when the scores are `s1` and `s2`: lower
/// wins, equal draws; a disqualified drawing (`None`) scores worst.
pub open spec fn outcome_of(s1: Option<u32>, s2: Option<u32>) -> RoundOutcome {
    match (s1, s2) {
        (Some(a), Some(b)) => if a < b {
            RoundOutcome::Win
        } else if a == b {
            RoundOutcome::Draw
        } else {
            RoundOutcome::Loss
        },
        (Some(_), None) => RoundOutcome::Win,
        (None, Some(_)) => RoundOutcome::Loss,
        (None, None) => RoundOutcome::Draw,
    }
}

pub fn round_outcome(s1: Option<u32>, s2: Option<u32>) -> (o: RoundOutcome)
    ensures
        o == outcome_of(s1, s2),
{
    match (s1, s2) {
        (Some(a), Some(b)) => if a < b {
            RoundOutcome::Win
        } else if a == b {
            RoundOutcome::Draw
        } else {
            RoundOutcome::Loss
        },
        (Some(_), None) => RoundOutcome::Win,
        (None, Some(_)) => RoundOutcome::Loss,
        (None, None) => RoundOutcome::Draw,
    }
}

/// `output` answers `input` acceptably: it is a valid drawing with as many
/// nodes and edges, and its edge pairs can be counted.
pub open spec fn scorable(input: Graph, output: Graph) -> bool {
    &&& validation(output) is Ok
    &&& output.nodes@.len() == input.nodes@.len()
    &&& output.edges@.len() == input.edges@.len()
    &&& output.countable()
}

/// The score of `output` as an answer to `input`: the crossings of its worst
/// edge, or `None` when it is disqualified.
pub fn score_graph(input: &Graph, output: &Graph) -> (r: Option<u32>)
    ensures
        r is Some == scorable(*input, *output),
        r matches Some(m) ==> is_max_per_edge(*output, m as int),
{
    if output.is_valid().is_err() {
        return None;
    }
    if output.nodes.len() != input.nodes.len() || output.edges.len() != input.edges.len() {
        return None;
    }
    let m = output.edges.len() as u64;
    if m > 100000 {
        assert(!output.countable()) by {
            assert(m * (m - 1) >= 100001 * 100000) by (nonlinear_arith)
                requires
                    m > 100000,
            ;
        }
        return None;
    }
    if m > 0 {
        assert(m * (m - 1) <= 100000 * 100000) by (nonlinear_arith)
            requires
                0 < m <= 100000,
        ;
        if m * (m - 1) / 2 > 0xffff_ffff {
            return None;
        }
    }
    assert(output.countable()) by {
        let n = output.edges@.len() as int;
        assert(n == m);
        if n == 0 {
            assert(n * (n - 1) == 0) by (nonlinear_arith)
                requires
                    n == 0,
            ;
        }
    }
    proof {
        lemma_valid_ids_resolve(*output);
    }
    Some(output.crossings().max_per_edge)
}

/// How a match ended.
#[derive(Debug, Clone, Copy, PartialEq, Eq)]
pub enum MatchEnd {
    AcceptH1,
    AcceptH0,
    /// The round budget ran out before the test decided.
    Inconclusive,
    /// The match was cancelled between rounds.
    Cancelled,
}

/// What the match loop does next.
#[derive(Debug, Clone, Copy, PartialEq, Eq)]
pub enum MatchAction {
    /// Play the round with this index.
    PlayRound { index: u32 },
    Finish { end: MatchEnd },
}

/// The state of a match between two optimizers, round by round.
pub struct MatchController {
    tally: MatchTally,
    rounds_done: u32,
    max_games: u32,
    end: Option<MatchEnd>,
    /// The outcomes of the completed rounds, in order.
    outcomes: Ghost<Seq<RoundOutcome>>,
}

/// The tally of the given rounds, counted from an empty one.
pub open spec fn tally_of(outcomes: Seq<RoundOutcome>) -> MatchTally
    decreases outcomes.len(),
{
    if outcomes.len() == 0 {
        MatchTally { wins: 0, losses: 0, draws: 0 }
    } else {
        tally_of(outcomes.drop_last()).with(outcomes.last())
    }
}

proof fn lemma_tally_of_total(outcomes: Seq<RoundOutcome>)
    requires
        outcomes.len() <= u32::MAX,
    ensures
        tally_of(outcomes).total() == outcomes.len(),
    decreases outcomes.len(),
{
    if outcomes.len() > 0 {
        lemma_tally_of_total(outcomes.drop_last());
    }
}

/// When the first optimizer wins every round, the tally holds one win per
/// round and nothing else.
pub proof fn lemma_all_wins(outcomes: Seq<RoundOutcome>)
    requires
        outcomes.len() <= u32::MAX,
        forall|i: int| 0 <= i < outcomes.len() ==> #[trigger] outcomes[i] == RoundOutcome::Win,
    ensures
        tally_of(outcomes) == (MatchTally { wins: outcomes.len() as u32, losses: 0, draws: 0 }),
    decreases outcomes.len(),
{
    if outcomes.len() > 0 {
        let rest = outcomes.drop_last();
        assert forall|i: int| 0 <= i < rest.len() implies #[trigger] rest[i] == RoundOutcome::Win by {
            assert(rest[i] == outcomes[i]);
        }
        lemma_all_wins(rest);
        assert(outcomes.last() == outcomes[outcomes.len() - 1]);
    }
}

/// An optimizer whose valid answer has fewer crossings than its opponent's
/// in every round, listed first, wins every round: after `k` rounds the
/// tally is `k` wins, no loss and no draw.
pub proof fn lemma_better_optimizer_wins_all(better: Seq<u32>, worse: Seq<u32>)
    requires
        better.len() == worse.len(),
        better.len() <= u32::MAX,
        forall|i: int| 0 <= i < better.len() ==> #[trigger] better[i] < worse[i],
    ensures
        tally_of(
            Seq::new(better.len(), |i: int| outcome_of(Some(better[i]), Some(worse[i]))),
        ) == (MatchTally { wins: better.len() as u32, losses: 0, draws: 0 }),
{
    let outcomes = Seq::new(better.len(), |i: int| outcome_of(Some(better[i]), Some(worse[i])));
    assert forall|i: int| 0 <= i < outcomes.len() implies #[trigger] outcomes[i]
        == RoundOutcome::Win by {
        assert(better[i] < worse[i]);
    }
    lemma_all_wins(outcomes);
}

impl MatchController {
    pub closed spec fn wf(self) -> bool {
        &&& self.tally == tally_of(self.outcomes@)
        &&& self.outcomes@.len() == self.rounds_done
        &&& self.tally.total() == self.rounds_done
        &&& self.rounds_done <= self.max_games
        &&& self.end is None ==> self.rounds_done < self.max_games
    }

    pub closed spec fn tally_spec(self) -> MatchTally {
        self.tally
    }

    pub closed spec fn rounds_spec(self) -> u32 {
        self.rounds_done
    }

    pub closed spec fn budget_spec(self) -> u32 {
        self.max_games
    }

    pub closed spec fn end_spec(self) -> Option<MatchEnd> {
        self.end
    }

    /// The outcomes of the completed rounds, in order.
    pub closed spec fn outcomes_spec(self) -> Seq<RoundOutcome> {
        self.outcomes@
    }

    /// What well-formedness gives a caller: the tally counts the completed
    /// rounds, which stay within the budget, and below it while the match runs.
    pub proof fn lemma_wf(self)
        requires
            self.wf(),
        ensures
            self.tally_spec() == tally_of(self.outcomes_spec()),
            self.outcomes_spec().len() == self.rounds_spec(),
            self.tally_spec().total() == self.rounds_spec(),
            self.rounds_spec() <= self.budget_spec(),
            self.end_spec() is None ==> self.rounds_spec() < self.budget_spec(),
    {
    }

    /// A match of at most `max_games` rounds.
    pub fn new(max_games: u32) -> (c: MatchController)
        ensures
            c.wf(),
            c.tally_spec() == (MatchTally { wins: 0, losses: 0, draws: 0 }),
            c.outcomes_spec() == Seq::<RoundOutcome>::empty(),
            c.rounds_spec() == 0,
            c.budget_spec() == max_games,
            c.end_spec() == if max_games == 0 {
                Some(MatchEnd::Inconclusive)
            } else {
                None
            },
    {
        MatchController {
            tally: MatchTally::new(),
            rounds_done: 0,
            max_games,
            end: if max_games == 0 {
                Some(MatchEnd::Inconclusive)
            } else {
                None
            },
            outcomes: Ghost(Seq::empty()),
        }
    }

    pub fn tally(&self) -> (t: MatchTally)
        ensures
            t == self.tally_spec(),
    {
        self.tally
    }

    pub fn next_action(&self) -> (a: MatchAction)
        ensures
            a == match self.end_spec() {
                Some(end) => MatchAction::Finish { end },
                None => MatchAction::PlayRound { index: self.rounds_spec() },
            },
    {
        match self.end {
            Some(end) => MatchAction::Finish { end },
            None => MatchAction::PlayRound { index: self.rounds_done },
        }
    }

    /// Records a completed round with outcome `o`; `decision` is what the
    /// sequential test says of the tally that includes it. A decisive test
    /// ends the match, and so does the last round of the budget.
    pub fn finish_round(&mut self, o: RoundOutcome, decision: SPRTResult)
        requires
            old(self).wf(),
            old(self).end_spec() is None,
        ensures
            final(self).wf(),
            final(self).tally_spec() == old(self).tally_spec().with(o),
            final(self).outcomes_spec() == old(self).outcomes_spec().push(o),
            final(self).tally_spec() == tally_of(final(self).outcomes_spec()),
            final(self).tally_spec().total() == final(self).rounds_spec(),
            final(self).rounds_spec() == old(self).rounds_spec() + 1,
            final(self).budget_spec() == old(self).budget_spec(),
            final(self).end_spec() == match decision {
                SPRTResult::AcceptH1 => Some(MatchEnd::AcceptH1),
                SPRTResult::AcceptH0 => Some(MatchEnd::AcceptH0),
                SPRTResult::Continue => if old(self).rounds_spec() + 1 >= old(
                    self,
                ).budget_spec() {
                    Some(MatchEnd::Inconclusive)
                } else {
                    None
                },
            },
    {
        let ghost prev = self.outcomes@;
        self.tally = self.tally.recorded(o);
        self.rounds_done = self.rounds_done + 1;
        self.outcomes = Ghost(prev.push(o));
        assert(prev.push(o).drop_last() =~= prev);
        self.end = match decision {
            SPRTResult::AcceptH1 => Some(MatchEnd::AcceptH1),
            SPRTResult::AcceptH0 => Some(MatchEnd::AcceptH0),
            SPRTResult::Continue => if self.rounds_done >= self.max_games {
                Some(MatchEnd::Inconclusive)
            } else {
                None
            },
        };
    }

    /// Stops the match between rounds; the tally keeps the completed rounds.
    pub fn cancel(&mut self)
        requires
            old(self).wf(),
        ensures
            final(self).wf(),
            final(self).tally_spec() == old(self).tally_spec(),
            final(self).outcomes_spec() == old(self).outcomes_spec(),
            final(self).tally_spec().total() == final(self).rounds_spec(),
            final(self).rounds_spec() == old(self).rounds_spec(),
            final(self).budget_spec() == old(self).budget_spec(),
            final(self).end_spec() == Some(MatchEnd::Cancelled),
    {
        self.end = Some(MatchEnd::Cancelled);
    }
}

#[verifier::external_type_specification]
#[verifier::external_body]
pub struct ExSmallRng(SmallRng);

/// Relies on rand's `Rng::gen_range`: a value of the half-open range
/// `lo..hi`, which must not be empty.
#[verifier::external_body]
fn draw_u32(rng: &mut SmallRng, lo: u32, hi: u32) -> (r: u32)
    requires
        lo < hi,
    ensures
        lo <= r < hi,
{
    rng.gen_range(lo..hi)
}

/// Randomly drawn coordinates lie below this bound on both axes.
pub const INSTANCE_EXTENT: u32 = 1000;

/// How often a round's instance is drawn at random before the fallback layout.
pub const INSTANCE_ATTEMPTS: u32 = 64;

/// The largest node count of a round's instance: the fallback layout fits
/// inside the default size up to it.
pub const MAX_INSTANCE_NODES: usize = 1000;

/// `g` has nodes `0..coords.len()`, in id order, at the given coordinates,
/// the given edges, no extra points, and the default size.
pub open spec fn built_from(g: Graph, coords: Seq<(u32, u32)>, edges: Seq<(usize, usize)>) -> bool {
    &&& g.nodes@.len() == coords.len()
    &&& forall|i: int|
        0 <= i < coords.len() ==> #[trigger] g.nodes@[i] == (Node {
            id: i as usize,
            x: coords[i].0,
            y: coords[i].1,
        })
    &&& g.edges@.len() == edges.len()
    &&& forall|e: int|
        0 <= e < edges.len() ==> #[trigger] g.edges@[e] == (Edge {
            source: edges[e].0,
            target: edges[e].1,
        })
    &&& g.points@.len() == 0
    &&& g.width == DEFAULT_DIMENSION
    &&& g.height == DEFAULT_DIMENSION
}

/// The drawing with node `i` at `coords[i]` and the given edges.
pub fn instance_from(coords: &Vec<(u32, u32)>, edges: &Vec<(usize, usize)>) -> (g: Graph)
    ensures
        built_from(g, coords@, edges@),
{
    let mut nodes: Vec<Node> = Vec::new();
    for id in 0..coords.len()
        invariant
            nodes@.len() == id,
            forall|i: int|
                0 <= i < id ==> #[trigger] nodes@[i] == (Node {
                    id: i as usize,
                    x: coords@[i].0,
                    y: coords@[i].1,
                }),
    {
        nodes.push(Node { id, x: coords[id].0, y: coords[id].1 });
    }
    let mut out: Vec<Edge> = Vec::new();
    for e in 0..edges.len()
        invariant
            out@.len() == e,
            forall|k: int|
                0 <= k < e ==> #[trigger] out@[k] == (Edge {
                    source: edges@[k].0,
                    target: edges@[k].1,
                }),
    {
        out.push(Edge { source: edges[e].0, target: edges[e].1 });
    }
    Graph {
        nodes,
        points: Vec::new(),
        edges: out,
        width: DEFAULT_DIMENSION,
        height: DEFAULT_DIMENSION,
    }
}

/// `node_count` random points below `INSTANCE_EXTENT`, drawn `x` then `y`.
fn draw_coords(rng: &mut SmallRng, node_count: usize) -> (c: Vec<(u32, u32)>)
    ensures
        c@.len() == node_count,
        forall|i: int|
            0 <= i < node_count ==> (#[trigger] c@[i]).0 < INSTANCE_EXTENT && c@[i].1
                < INSTANCE_EXTENT,
{
    let mut c: Vec<(u32, u32)> = Vec::new();
    for i in 0..node_count
        invariant
            c@.len() == i,
            forall|j: int|
                0 <= j < i ==> (#[trigger] c@[j]).0 < INSTANCE_EXTENT && c@[j].1 < INSTANCE_EXTENT,
    {
        let x = draw_u32(rng, 0, INSTANCE_EXTENT);
        let y = draw_u32(rng, 0, INSTANCE_EXTENT);
        c.push((x, y));
    }
    c
}

/// Node `i` at `(i, i * i)`: distinct points of a parabola, no three on a line.
pub open spec fn parabola(n: int) -> Seq<(u32, u32)> {
    Seq::new(n as nat, |i: int| (i as u32, (i * i) as u32))
}

fn parabola_coords(n: usize) -> (c: Vec<(u32, u32)>)
    requires
        n <= MAX_INSTANCE_NODES,
    ensures
        c@ == parabola(n as int),
{
    let mut c: Vec<(u32, u32)> = Vec::new();
    for i in 0..n
        invariant
            n <= MAX_INSTANCE_NODES,
            c@ == parabola(i as int),
    {
        let k = i as u32;
        assert(k * k <= 1000 * 1000) by (nonlinear_arith)
            requires
                k < 1000,
        ;
        c.push((k, k * k));
        assert(c@ == parabola(i + 1));
    }
    c
}

proof fn lemma_parabola_not_collinear(a: int, k: int, b: int)
    requires
        a != k,
        k != b,
        a != b,
    ensures
        (k - a) * (b * b - k * k) != (k * k - a * a) * (b - k),
{
    assert((k - a) * (b * b - k * k) - (k * k - a * a) * (b - k) == (k - a) * (b - k) * (b - a))
        by (nonlinear_arith);
    assert((k - a) * (b - k) != 0) by (nonlinear_arith)
        requires
            a != k,
            k != b,
    ;
    assert((k - a) * (b - k) * (b - a) != 0) by (nonlinear_arith)
        requires
            (k - a) * (b - k) != 0,
            a != b,
    ;
}

/// The parabola layout of up to `MAX_INSTANCE_NODES` nodes is a valid
/// drawing of any edges between its nodes.
pub proof fn lemma_parabola_valid(g: Graph, n: int, edges: Seq<(usize, usize)>)
    requires
        0 <= n <= MAX_INSTANCE_NODES,
        built_from(g, parabola(n), edges),
        forall|e: int| 0 <= e < edges.len() ==> (#[trigger] edges[e]).0 < n && edges[e].1 < n,
    ensures
        validation(g) is Ok,
{
    let m = edges.len() as int;
    assert forall|i: int| 0 <= i < n implies (#[trigger] g.nodes@[i]).id == i && g.nodes@[i].x
        == i && g.nodes@[i].y == i * i by {
        assert(g.nodes@[i] == (Node { id: i as usize, x: parabola(n)[i].0, y: parabola(n)[i].1 }));
        assert(i * i <= 1000 * 1000) by (nonlinear_arith)
            requires
                0 <= i < 1000,
        ;
    }
    // ids
    assert forall|i: int| 0 <= i < n implies (#[trigger] id_errors(g)(i)) is None by {
        assert(id_errors(g)(i) == id_error_at(g, i));
        assert forall|j: int| 0 <= j < i implies g.nodes@[j].id != g.nodes@[i].id by {
            assert(g.nodes@[j].id == j);
        }
    }
    lemma_first_some_all_none(id_errors(g), 0, n);
    // bounds
    assert forall|i: int| 0 <= i < n implies (#[trigger] bounds_errors(g)(i)) is None by {
        assert(bounds_errors(g)(i) == bounds_error_at(g, i));
        assert(i * i <= 1000 * 1000) by (nonlinear_arith)
            requires
                0 <= i < 1000,
        ;
    }
    lemma_first_some_all_none(bounds_errors(g), 0, n);
    // overlaps
    assert forall|j: int| 0 <= j < n implies (#[trigger] overlap_errors(g)(j)) is None by {
        assert(overlap_errors(g)(j) == overlap_error_at(g, j));
        assert forall|i: int| 0 <= i < j implies (#[trigger] overlaps_of(g, j)(i)) is None by {
            assert(overlaps_of(g, j)(i) == overlap_with(g, j, i));
            assert(g.nodes@[i].x == i && g.nodes@[j].x == j);
        }
        lemma_first_some_all_none(overlaps_of(g, j), 0, j);
    }
    lemma_first_some_all_none(overlap_errors(g), 0, n);
    // edge ends
    assert forall|e: int| 0 <= e < m implies (#[trigger] edge_errors(g)(e)) is None by {
        assert(edge_errors(g)(e) == edge_error_at(g, e));
        assert(g.edges@[e] == (Edge { source: edges[e].0, target: edges[e].1 }));
    }
    lemma_first_some_all_none(edge_errors(g), 0, m);
    // nodes on edges
    assert forall|id: int| 0 <= id < n implies position_of(g, id as usize) == Some(id) by {
        assert(g.nodes@[id].id == id);
        assert(g.has_node(id));
        let p = g.node_index(id);
        assert(g.nodes@[p].id == p);
    }
    assert forall|e: int| 0 <= e < m implies (#[trigger] collinear_errors(g)(e)) is None by {
        assert(collinear_errors(g)(e) == collinear_error_at(g, e));
        let edge = g.edges@[e];
        assert(edge == (Edge { source: edges[e].0, target: edges[e].1 }));
        let a = edge.source as int;
        let b = edge.target as int;
        assert(position_of(g, edge.source) == Some(a));
        assert(position_of(g, edge.target) == Some(b));
        assert forall|k: int| 0 <= k < n implies (#[trigger] on_edge_errors(g, e)(k)) is None by {
            assert(on_edge_errors(g, e)(k) == on_edge_error(g, e, k));
            if k != a && k != b && strictly_between(g.coord(a), g.coord(k), g.coord(b)) {
                assert(g.coord(a) == ((a as u32), ((a * a) as u32)));
                lemma_parabola_not_collinear(a, k, b);
                assert(ccw_lhs(g.coord(a), g.coord(k), g.coord(b)) == (k - a) * (b * b - k * k));
                assert(ccw_rhs(g.coord(a), g.coord(k), g.coord(b)) == (k * k - a * a) * (b - k));
            }
        }
        lemma_first_some_all_none(on_edge_errors(g, e), 0, n);
    }
    lemma_first_some_all_none(collinear_errors(g), 0, m);
}

/// `g` has nodes `0..node_count`, in id order, the given edges, no extra
/// points, and the default size.
pub open spec fn is_instance(g: Graph, node_count: usize, edges: Seq<(usize, usize)>) -> bool {
    &&& g.nodes@.len() == node_count
    &&& forall|i: int| 0 <= i < node_count ==> (#[trigger] g.nodes@[i]).id == i
    &&& g.edges@.len() == edges.len()
    &&& forall|e: int|
        0 <= e < edges.len() ==> (#[trigger] g.edges@[e]).source == edges[e].0
            && g.edges@[e].target == edges[e].1
    &&& g.points@.len() == 0
    &&& g.width == DEFAULT_DIMENSION
    &&& g.height == DEFAULT_DIMENSION
}

/// The instance of a round: a valid drawing of the given edges on nodes
/// `0..node_count`. Coordinates are drawn at random below `INSTANCE_EXTENT`,
/// up to `INSTANCE_ATTEMPTS` times until the drawing is valid; after that
/// the nodes are laid out on a parabola, which is always valid.
pub fn random_instance(rng: &mut SmallRng, node_count: usize, edges: &Vec<(usize, usize)>) -> (g:
    Graph)
    requires
        node_count <= MAX_INSTANCE_NODES,
        forall|e: int|
            0 <= e < edges@.len() ==> (#[trigger] edges@[e]).0 < node_count && edges@[e].1
                < node_count,
    ensures
        is_instance(g, node_count, edges@),
        validation(g) is Ok,
{
    let mut attempt: u32 = 0;
    while attempt < INSTANCE_ATTEMPTS
        decreases INSTANCE_ATTEMPTS - attempt,
    {
        let coords = draw_coords(rng, node_count);
        let g = instance_from(&coords, edges);
        if g.is_valid().is_ok() {
            return g;
        }
        attempt = attempt + 1;
    }
    let g = instance_from(&parabola_coords(node_count), edges);
    proof {
        lemma_parabola_valid(g, node_count as int, edges@);
    }
    g
}

} // verus!
