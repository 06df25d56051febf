use crossing_arena::graph::{Edge, Graph, Node};
use crossing_arena::matching::{
    instance_from, random_instance, MAX_INSTANCE_NODES, round_outcome, score_graph, MatchAction, MatchController, MatchEnd,
    MatchTally, RoundOutcome, SPRTResult, INSTANCE_EXTENT,
};
use rand::rngs::SmallRng;
use rand::SeedableRng;

fn graph(coords: &[(u32, u32)], edges: &[(usize, usize)]) -> Graph {
    Graph {
        nodes: coords
            .iter()
            .enumerate()
            .map(|(id, &(x, y))| Node { id, x, y })
            .collect(),
        points: vec![],
        edges: edges
            .iter()
            .map(|&(source, target)| Edge { source, target })
            .collect(),
        width: 1_000_000,
        height: 1_000_000,
    }
}

#[test]
fn lower_score_wins() {
    assert_eq!(round_outcome(Some(1), Some(2)), RoundOutcome::Win);
    assert_eq!(round_outcome(Some(2), Some(2)), RoundOutcome::Draw);
    assert_eq!(round_outcome(Some(3), Some(2)), RoundOutcome::Loss);
    assert_eq!(round_outcome(None, Some(9)), RoundOutcome::Loss);
    assert_eq!(round_outcome(Some(9), None), RoundOutcome::Win);
    assert_eq!(round_outcome(None, None), RoundOutcome::Draw);
}

#[test]
fn tally_counts_each_outcome() {
    let t = MatchTally::new();
    let t = t.recorded(RoundOutcome::Win).recorded(RoundOutcome::Win);
    let t = t.recorded(RoundOutcome::Draw).recorded(RoundOutcome::Loss);
    assert_eq!(t, MatchTally { wins: 2, losses: 1, draws: 1 });
}

#[test]
fn score_is_worst_edge_of_a_valid_answer() {
    let input = graph(&[(0, 0), (10, 0), (10, 10), (0, 10)], &[(0, 2), (1, 3)]);
    let same = graph(&[(0, 0), (10, 0), (10, 10), (0, 10)], &[(0, 2), (1, 3)]);
    assert_eq!(score_graph(&input, &same), Some(1));
    let better = graph(&[(0, 0), (10, 0), (0, 10), (10, 10)], &[(0, 2), (1, 3)]);
    assert_eq!(score_graph(&input, &better), Some(0));
    let invalid = graph(&[(0, 0), (0, 0), (0, 10), (10, 10)], &[(0, 2), (1, 3)]);
    assert_eq!(score_graph(&input, &invalid), None);
    let fewer_edges = graph(&[(0, 0), (10, 0), (0, 10), (10, 10)], &[(0, 2)]);
    assert_eq!(score_graph(&input, &fewer_edges), None);
    let fewer_nodes = graph(&[(0, 0), (10, 0), (0, 10)], &[(0, 2), (1, 2)]);
    assert_eq!(score_graph(&input, &fewer_nodes), None);
}

#[test]
fn match_stops_when_the_test_decides() {
    let mut c = MatchController::new(100);
    assert_eq!(c.next_action(), MatchAction::PlayRound { index: 0 });
    c.finish_round(RoundOutcome::Win, SPRTResult::Continue);
    assert_eq!(c.next_action(), MatchAction::PlayRound { index: 1 });
    c.finish_round(RoundOutcome::Draw, SPRTResult::AcceptH0);
    assert_eq!(c.next_action(), MatchAction::Finish { end: MatchEnd::AcceptH0 });
    assert_eq!(c.tally(), MatchTally { wins: 1, losses: 0, draws: 1 });
}

#[test]
fn match_is_inconclusive_when_budget_runs_out() {
    let mut c = MatchController::new(2);
    c.finish_round(RoundOutcome::Loss, SPRTResult::Continue);
    assert_eq!(c.next_action(), MatchAction::PlayRound { index: 1 });
    c.finish_round(RoundOutcome::Loss, SPRTResult::Continue);
    assert_eq!(c.next_action(), MatchAction::Finish { end: MatchEnd::Inconclusive });
    let c = MatchController::new(0);
    assert_eq!(c.next_action(), MatchAction::Finish { end: MatchEnd::Inconclusive });
}

#[test]
fn cancelled_match_keeps_completed_rounds() {
    let mut c = MatchController::new(10);
    c.finish_round(RoundOutcome::Win, SPRTResult::Continue);
    c.cancel();
    assert_eq!(c.next_action(), MatchAction::Finish { end: MatchEnd::Cancelled });
    assert_eq!(c.tally(), MatchTally { wins: 1, losses: 0, draws: 0 });
}

/// One optimizer hands back the input, the other a drawing with fewer
/// crossings; the better one (listed first) wins every round.
#[test]
fn stronger_optimizer_wins_every_round() {
    let input = graph(&[(0, 0), (10, 0), (10, 10), (0, 10)], &[(0, 2), (1, 3)]);
    let untangled = graph(&[(0, 0), (10, 0), (0, 10), (10, 10)], &[(0, 2), (1, 3)]);
    let mut c = MatchController::new(1_000_000);
    let mut rounds = 0;
    while let MatchAction::PlayRound { .. } = c.next_action() {
        let better = score_graph(&input, &untangled);
        let same = score_graph(&input, &input);
        let outcome = round_outcome(better, same);
        assert_eq!(outcome, RoundOutcome::Win);
        rounds += 1;
        let decision = if rounds == 20 { SPRTResult::AcceptH1 } else { SPRTResult::Continue };
        c.finish_round(outcome, decision);
    }
    assert_eq!(c.next_action(), MatchAction::Finish { end: MatchEnd::AcceptH1 });
    assert_eq!(c.tally(), MatchTally { wins: 20, losses: 0, draws: 0 });
}

#[test]
fn random_instances_are_valid_drawings() {
    let mut rng = SmallRng::seed_from_u64(11);
    for n in [10usize, 60, 199] {
        let edges: Vec<(usize, usize)> = (0..n).map(|i| (i, (i * 7 + 3) % n)).filter(|(a, b)| a != b).collect();
        let g = random_instance(&mut rng, n, &edges);
        assert_eq!(g.is_valid(), Ok(()));
        assert_eq!(g.edges.len(), edges.len());
    }
}

#[test]
fn random_instance_has_nodes_in_range() {
    let mut rng = SmallRng::seed_from_u64(7);
    let edges = vec![(0, 1), (1, 2), (2, 3)];
    let g = random_instance(&mut rng, 40, &edges);
    assert_eq!(g.is_valid(), Ok(()));
    assert_eq!(g.nodes.len(), 40);
    for (i, n) in g.nodes.iter().enumerate() {
        assert_eq!(n.id, i);
        assert!(n.x < INSTANCE_EXTENT && n.y < INSTANCE_EXTENT);
    }
    assert_eq!(g.edges, vec![Edge { source: 0, target: 1 }, Edge { source: 1, target: 2 }, Edge { source: 2, target: 3 }]);
    assert_eq!((g.width, g.height), (1_000_000, 1_000_000));
    // the coordinates are drawn: not all nodes sit at one point
    assert!(g.nodes.iter().any(|n| (n.x, n.y) != (g.nodes[0].x, g.nodes[0].y)));
    let mut again = SmallRng::seed_from_u64(7);
    assert_eq!(random_instance(&mut again, 40, &edges), g);
}

#[test]
fn dense_instances_are_valid_drawings() {
    let mut rng = SmallRng::seed_from_u64(3);
    for n in [60usize, 120] {
        let mut edges = vec![];
        for a in 0..n {
            for b in (a + 1)..n {
                if (a * 31 + b * 17) % 5 != 0 {
                    edges.push((a, b));
                }
            }
        }
        let g = random_instance(&mut rng, n, &edges);
        assert_eq!(g.is_valid(), Ok(()));
        assert_eq!(g.nodes.len(), n);
        assert_eq!(g.edges.len(), edges.len());
        assert!(g.nodes.iter().enumerate().all(|(i, v)| v.id == i));
    }
}

#[test]
fn largest_instance_is_valid() {
    let mut rng = SmallRng::seed_from_u64(5);
    let n = MAX_INSTANCE_NODES;
    let edges: Vec<(usize, usize)> = (1..n).map(|a| (a - 1, a)).collect();
    let g = random_instance(&mut rng, n, &edges);
    assert_eq!(g.is_valid(), Ok(()));
}

#[test]
fn instance_is_built_from_coordinates() {
    let g = instance_from(&vec![(3, 4), (5, 6)], &vec![(0, 1)]);
    assert_eq!(g.nodes, vec![Node { id: 0, x: 3, y: 4 }, Node { id: 1, x: 5, y: 6 }]);
    assert_eq!(g.edges, vec![Edge { source: 0, target: 1 }]);
    assert!(g.points.is_empty());
    assert_eq!((g.width, g.height), (1_000_000, 1_000_000));
    let empty = instance_from(&vec![], &vec![]);
    assert!(empty.nodes.is_empty() && empty.edges.is_empty());
}
