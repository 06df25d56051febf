//! Run statistics and the figures of the leaderboard: the graph names of
//! all runs, their ids, and the best score reached on each graph.
use vstd::prelude::*;
use core::time::Duration;
use crate::corpus::{GraphStats, RunStats};
use crate::protocol::words_view;

verus! {

/// All runs of one optimizer.
#[derive(Debug)]
pub struct RunStatistics {
    /// Human readable name of the optimizer.
    pub name: String,
    pub runs: Vec<SingleRun>,
}

/// One run over the corpus.
#[derive(Debug)]
pub struct SingleRun {
    /// Unix timestamp in seconds.
    pub unix_seconds: u64,
    pub graphs: Vec<GraphStatistics>,
}

#[derive(Debug)]
pub struct GraphStatistics {
    pub graph: String,
    pub crossings: Vec<CrossingStatistic>,
}

#[derive(Debug, Clone, Copy)]
pub struct CrossingStatistic {
    pub max_per_edge: u32,
    pub duration: Duration,
}

/// Relies on `SystemTime::now`: the current time as whole seconds since the
/// Unix epoch (0 on a clock set before it).
#[verifier::external_body]
fn get_sys_time_in_secs() -> u64 {
    match std::time::SystemTime::now().duration_since(std::time::UNIX_EPOCH) {
        Ok(n) => n.as_secs(),
        Err(_) => 0,
    }
}

impl SingleRun {
    /// A run that starts now and holds no graph yet.
    pub fn new() -> (r: SingleRun)
        ensures
            r.graphs@.len() == 0,
    {
        SingleRun { unix_seconds: get_sys_time_in_secs(), graphs: Vec::new() }
    }

    /// Adds the statistics of graph `graph`, empty, and hands them out.
    pub fn new_graph(&mut self, graph: String) -> (r: &mut GraphStatistics)
        ensures
            r.graph == graph,
            r.crossings@.len() == 0,
            final(self).unix_seconds == old(self).unix_seconds,
            final(self).graphs@ == old(self).graphs@.push(*final(r)),
    {
        self.graphs.push(GraphStatistics { graph, crossings: Vec::new() });
        let n = self.graphs.len();
        &mut self.graphs[n - 1]
    }
}

/// The graph results of all runs, run after run.
pub open spec fn all_entries(teams: Seq<RunStats>) -> Seq<GraphStats>
    decreases teams.len(),
{
    if teams.len() == 0 {
        Seq::empty()
    } else {
        all_entries(teams.drop_last()) + teams.last().runs@
    }
}

pub open spec fn entry_names(e: Seq<GraphStats>) -> Seq<Seq<char>> {
    e.map_values(|g: GraphStats| g.graph@)
}

/// `s` with each run of equal neighbours cut down to its first element.
pub open spec fn dedup_adjacent(s: Seq<Seq<char>>) -> Seq<Seq<char>>
    decreases s.len(),
{
    if s.len() == 0 {
        s
    } else {
        let d = dedup_adjacent(s.drop_last());
        if d.len() > 0 && d.last() == s.last() {
            d
        } else {
            d.push(s.last())
        }
    }
}

/// The names in the order of `numeric_sort`, which puts runs of digits in
/// numeric order.
pub uninterp spec fn numeric_sorted(names: Seq<Seq<char>>) -> Seq<Seq<char>>;

/// Relies on `numeric_sort::sort_unstable`: reorders the names by
/// `numeric_sort::cmp`; the order depends on the names alone, and the names
/// stay the same.
#[verifier::external_body]
fn sort_numerically(names: &mut Vec<String>)
    ensures
        words_view(final(names)@) == numeric_sorted(words_view(old(names)@)),
        words_view(final(names)@).to_multiset() == words_view(old(names)@).to_multiset(),
{
    numeric_sort::sort_unstable(names)
}

proof fn lemma_entries_step(teams: Seq<RunStats>, t: int)
    requires
        0 <= t < teams.len(),
    ensures
        all_entries(teams.subrange(0, t + 1)) == all_entries(teams.subrange(0, t))
            + teams[t].runs@,
{
    assert(teams.subrange(0, t + 1).drop_last() == teams.subrange(0, t));
}

/// The names of all graphs in the runs, in numeric order, once each where
/// equal names are neighbours.
pub fn get_graph_names(all_runs: &Vec<RunStats>) -> (r: Vec<String>)
    ensures
        words_view(r@) == dedup_adjacent(numeric_sorted(entry_names(all_entries(all_runs@)))),
{
    let mut names: Vec<String> = Vec::new();
    for t in 0..all_runs.len()
        invariant
            words_view(names@) == entry_names(all_entries(all_runs@.subrange(0, t as int))),
    {
        let runs = &all_runs[t].runs;
        proof {
            lemma_entries_step(all_runs@, t as int);
        }
        for k in 0..runs.len()
            invariant
                runs == all_runs@[t as int].runs,
                words_view(names@) == entry_names(all_entries(all_runs@.subrange(0, t as int)))
                    + entry_names(runs@.subrange(0, k as int)),
        {
            let ghost prev = names@;
            names.push(runs[k].graph.clone());
            assert(runs@.subrange(0, k + 1) == runs@.subrange(0, k as int).push(runs@[k as int]));
            assert(words_view(names@) == words_view(prev).push(runs@[k as int].graph@));
            assert(entry_names(runs@.subrange(0, k + 1)) == entry_names(
                runs@.subrange(0, k as int),
            ).push(runs@[k as int].graph@));
        }
        assert(runs@.subrange(0, runs@.len() as int) == runs@);
        assert(entry_names(all_entries(all_runs@.subrange(0, t as int)) + runs@) == entry_names(
            all_entries(all_runs@.subrange(0, t as int)),
        ) + entry_names(runs@));
    }
    assert(all_runs@.subrange(0, all_runs@.len() as int) == all_runs@);
    sort_numerically(&mut names);
    let mut r: Vec<String> = Vec::new();
    for i in 0..names.len()
        invariant
            words_view(r@) == dedup_adjacent(words_view(names@).subrange(0, i as int)),
    {
        let ghost s = words_view(names@).subrange(0, i + 1);
        assert(s.drop_last() == words_view(names@).subrange(0, i as int));
        let n = r.len();
        if n == 0 || r[n - 1] != names[i] {
            r.push(names[i].clone());
        }
    }
    assert(words_view(names@).subrange(0, names@.len() as int) == words_view(names@));
    r
}

/// The last position of `x` in `s`.
pub open spec fn last_index(s: Seq<Seq<char>>, x: Seq<char>) -> Option<int>
    decreases s.len(),
{
    if s.len() == 0 {
        None
    } else if s.last() == x {
        Some(s.len() - 1)
    } else {
        last_index(s.drop_last(), x)
    }
}

proof fn lemma_last_index(s: Seq<Seq<char>>, x: Seq<char>)
    ensures
        match last_index(s, x) {
            Some(j) => 0 <= j < s.len() && s[j] == x && forall|i: int|
                j < i < s.len() ==> s[i] != x,
            None => forall|i: int| 0 <= i < s.len() ==> s[i] != x,
        },
    decreases s.len(),
{
    if s.len() > 0 {
        lemma_last_index(s.drop_last(), x);
        assert(s.last() == s[s.len() - 1]);
        if s.last() != x {
            assert forall|i: int| 0 <= i < s.len() - 1 implies s[i] == s.drop_last()[i] by {}
        }
    }
}

/// The id of each graph name: its position in the list of names (its last
/// one, should a name repeat).
pub struct GraphIds {
    names: Vec<String>,
}

impl GraphIds {
    pub closed spec fn names_view(self) -> Seq<Seq<char>> {
        words_view(self.names@)
    }

    pub fn len(&self) -> (n: usize)
        ensures
            n == self.names_view().len(),
    {
        self.names.len()
    }

    /// The id of `name`, if it is one of the names.
    pub fn get(&self, name: &String) -> (r: Option<usize>)
        ensures
            match r {
                Some(i) => last_index(self.names_view(), name@) == Some(i as int),
                None => last_index(self.names_view(), name@) is None,
            },
    {
        let mut i = self.names.len();
        assert(self.names_view().subrange(0, i as int) == self.names_view());
        while i > 0
            invariant
                i <= self.names@.len(),
                last_index(self.names_view(), name@) == last_index(
                    self.names_view().subrange(0, i as int),
                    name@,
                ),
            decreases i,
        {
            let ghost s = self.names_view().subrange(0, i as int);
            assert(s.drop_last() == self.names_view().subrange(0, i - 1));
            if self.names[i - 1] == *name {
                return Some(i - 1);
            }
            i = i - 1;
        }
        None
    }
}

pub fn make_graph_ids(graph_names: &Vec<String>) -> (ids: GraphIds)
    ensures
        ids.names_view() == words_view(graph_names@),
{
    let mut names: Vec<String> = Vec::new();
    for i in 0..graph_names.len()
        invariant
            words_view(names@) == words_view(graph_names@.subrange(0, i as int)),
    {
        let ghost prev = names@;
        names.push(graph_names[i].clone());
        assert(graph_names@.subrange(0, i + 1) == graph_names@.subrange(0, i as int).push(
            graph_names@[i as int],
        ));
        assert(words_view(names@) == words_view(prev).push(graph_names@[i as int]@));
        assert(words_view(graph_names@.subrange(0, i + 1)) == words_view(
            graph_names@.subrange(0, i as int),
        ).push(graph_names@[i as int]@));
    }
    assert(graph_names@.subrange(0, graph_names@.len() as int) == graph_names@);
    GraphIds { names }
}

/// The lowest valid score that the entries reach on graph `name`.
pub open spec fn best_in(entries: Seq<GraphStats>, name: Seq<char>) -> Option<u32>
    decreases entries.len(),
{
    if entries.len() == 0 {
        None
    } else {
        let prev = best_in(entries.drop_last(), name);
        let x = entries.last();
        match x.max_per_edge {
            Some(v) => if x.graph@ == name {
                match prev {
                    Some(b) => Some(if v < b { v } else { b }),
                    None => Some(v),
                }
            } else {
                prev
            },
            None => prev,
        }
    }
}

/// The best score of the graph with id `i`; graphs that are not the last
/// of their name get none.
pub open spec fn best_for_id(names: Seq<Seq<char>>, entries: Seq<GraphStats>, i: int) -> Option<
    u32,
> {
    if last_index(names, names[i]) == Some(i) {
        best_in(entries, names[i])
    } else {
        None
    }
}

/// For each graph id, the lowest valid score any run reached on it.
pub fn get_best_crossing_values(all_runs: &Vec<RunStats>, graph_ids: &GraphIds) -> (r: Vec<
    Option<u32>,
>)
    ensures
        r@.len() == graph_ids.names_view().len(),
        forall|i: int|
            0 <= i < r@.len() ==> #[trigger] r@[i] == best_for_id(
                graph_ids.names_view(),
                all_entries(all_runs@),
                i,
            ),
{
    let ghost names = graph_ids.names_view();
    let n = graph_ids.len();
    let mut best: Vec<Option<u32>> = Vec::new();
    for i in 0..n
        invariant
            best@.len() == i,
            forall|j: int| 0 <= j < i ==> #[trigger] best@[j] is None,
    {
        best.push(None);
    }
    for t in 0..all_runs.len()
        invariant
            names == graph_ids.names_view(),
            best@.len() == n == names.len(),
            forall|i: int|
                0 <= i < n ==> #[trigger] best@[i] == best_for_id(
                    names,
                    all_entries(all_runs@.subrange(0, t as int)),
                    i,
                ),
    {
        let runs = &all_runs[t].runs;
        proof {
            lemma_entries_step(all_runs@, t as int);
        }
        for k in 0..runs.len()
            invariant
                names == graph_ids.names_view(),
                best@.len() == n == names.len(),
                runs == all_runs@[t as int].runs,
                forall|i: int|
                    0 <= i < n ==> #[trigger] best@[i] == best_for_id(
                        names,
                        all_entries(all_runs@.subrange(0, t as int)) + runs@.subrange(
                            0,
                            k as int,
                        ),
                        i,
                    ),
        {
            let entry = &runs[k];
            let ghost before = all_entries(all_runs@.subrange(0, t as int)) + runs@.subrange(
                0,
                k as int,
            );
            let ghost after = all_entries(all_runs@.subrange(0, t as int)) + runs@.subrange(
                0,
                k + 1,
            );
            assert(after.drop_last() == before);
            assert(after.last() == *entry);
            let id = graph_ids.get(&entry.graph);
            proof {
                lemma_last_index(names, entry.graph@);
                assert forall|i: int|
                    0 <= i < n && last_index(names, names[i]) == Some(i) && names[i]
                        == entry.graph@ implies id == Some(i as usize) by {}
            }
            if let (Some(j), Some(v)) = (id, entry.max_per_edge) {
                let cur = best[j];
                let next = match cur {
                    Some(b) => Some(if v < b { v } else { b }),
                    None => Some(v),
                };
                best.set(j, next);
            }
        }
        assert(runs@.subrange(0, runs@.len() as int) == runs@);
    }
    assert(all_runs@.subrange(0, all_runs@.len() as int) == all_runs@);
    best
}

} // verus!
