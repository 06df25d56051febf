use crossing_arena::corpus::{
    corpus_step, evaluate_output, filter_graphs, skip_to_index, CorpusStep, GraphStats, RunStats,
};
use crossing_arena::graph::{Edge, Graph, Node};
use crossing_arena::leaderboard::{get_best_crossing_values, get_graph_names, make_graph_ids, SingleRun};
use crossing_arena::protocol::{OptimizerResponse, ProtocolError, ResponseKind};
use crossing_arena::validation::ValidationError;

fn graph(coords: &[(u32, u32)], edges: &[(usize, usize)]) -> Graph {
    Graph {
        nodes: coords
            .iter()
            .enumerate()
            .map(|(id, &(x, y))| Node { id, x, y })
            .collect(),
        points: vec![],
        edges: edges
            .iter()
            .map(|&(source, target)| Edge { source, target })
            .collect(),
        width: 1_000_000,
        height: 1_000_000,
    }
}

fn entry(graph: &str, max_per_edge: Option<u32>) -> GraphStats {
    GraphStats { graph: graph.to_string(), max_per_edge, duration_ms: 5 }
}

#[test]
fn filter_keeps_matching_names_in_order() {
    let graphs = vec![(1, "/a/tiny-1".to_string()), (2, "/b/big".to_string()), (3, "/tiny-2".to_string())];
    let kept = filter_graphs(graphs.clone(), Some("tiny"));
    assert_eq!(kept, vec![(1, "/a/tiny-1".to_string()), (3, "/tiny-2".to_string())]);
    assert_eq!(filter_graphs(graphs.clone(), None), graphs);
    assert_eq!(filter_graphs(graphs, Some("none")), vec![]);
}

#[test]
fn skip_to_finds_first_matching_graph() {
    let graphs = vec![((), "/a".to_string()), ((), "/b-7".to_string()), ((), "/c-7".to_string())];
    assert_eq!(skip_to_index(&graphs, "7"), 1);
    assert_eq!(skip_to_index(&graphs, ""), 0);
    assert_eq!(skip_to_index(&graphs, "zzz"), 3);
}

#[test]
fn answer_is_scored_and_checked() {
    let input = graph(&[(0, 0), (10, 0), (10, 10), (0, 10)], &[(0, 2), (1, 3)]);
    let answer = graph(&[(0, 0), (10, 0), (0, 10), (10, 10)], &[(1, 3), (0, 2)]);
    let c = evaluate_output(&input, &answer, "/g".to_string(), 12);
    assert_eq!(
        c.stats,
        GraphStats { graph: "/g".to_string(), max_per_edge: Some(0), duration_ms: 12 }
    );
    assert_eq!(c.validity, Ok(()));
    assert!(c.nodes_match && c.edges_match && c.isomorphic);

    let relabelled = graph(&[(0, 0), (10, 0), (0, 10), (10, 10)], &[(1, 0), (2, 3)]);
    let c = evaluate_output(&input, &relabelled, "/g".to_string(), 1);
    assert_eq!(c.stats.max_per_edge, Some(0));
    assert!(!c.isomorphic);

    let broken = graph(&[(0, 0), (0, 0), (0, 10), (10, 10)], &[(0, 2), (1, 3)]);
    let c = evaluate_output(&input, &broken, "/g".to_string(), 1);
    assert_eq!(c.stats.max_per_edge, None);
    assert_eq!(c.validity, Err(ValidationError::Overlap { first: 0, second: 1, x: 0, y: 0 }));

    let short = graph(&[(0, 0), (10, 0), (0, 10)], &[(0, 2), (1, 2)]);
    let c = evaluate_output(&input, &short, "/g".to_string(), 1);
    assert_eq!(c.stats.max_per_edge, None);
    assert!(!c.nodes_match && c.edges_match);
}

#[test]
fn corpus_reply_decides_next_move() {
    let g = graph(&[(0, 0)], &[]);
    assert!(matches!(corpus_step(OptimizerResponse::Graph { graph: g }), CorpusStep::Score { .. }));
    assert!(matches!(
        corpus_step(OptimizerResponse::ProcessExited { status: Some(3) }),
        CorpusStep::Restart { status: Some(3) }
    ));
    match corpus_step(OptimizerResponse::GraphRequest) {
        CorpusStep::Fail { error } => assert_eq!(
            error,
            ProtocolError::Unexpected { expected: ResponseKind::Graph, got: ResponseKind::GraphRequest }
        ),
        _ => panic!("a graph request is no answer"),
    }
}

#[test]
fn graph_names_are_numeric_sorted_once_each() {
    let runs = vec![
        RunStats { name: "a".to_string(), runs: vec![entry("g10", Some(3)), entry("g2", Some(1))] },
        RunStats { name: "b".to_string(), runs: vec![entry("g2", Some(4)), entry("g1", None)] },
    ];
    assert_eq!(
        get_graph_names(&runs),
        vec!["g1".to_string(), "g2".to_string(), "g10".to_string()]
    );
}

#[test]
fn best_values_take_lowest_valid_score() {
    let runs = vec![
        RunStats { name: "a".to_string(), runs: vec![entry("g10", Some(3)), entry("g2", Some(1))] },
        RunStats { name: "b".to_string(), runs: vec![entry("g2", Some(4)), entry("g1", None), entry("g10", Some(2))] },
    ];
    let names = get_graph_names(&runs);
    let ids = make_graph_ids(&names);
    assert_eq!(ids.len(), 3);
    assert_eq!(ids.get(&"g10".to_string()), Some(2));
    assert_eq!(ids.get(&"g7".to_string()), None);
    assert_eq!(get_best_crossing_values(&runs, &ids), vec![None, Some(1), Some(2)]);
    assert_eq!(get_best_crossing_values(&runs[..1].to_vec(), &ids), vec![None, Some(1), Some(3)]);
}

#[test]
fn single_run_collects_graphs() {
    let mut run = SingleRun::new();
    assert!(run.graphs.is_empty());
    assert!(run.unix_seconds > 1_600_000_000);
    let g = run.new_graph("/tiny".to_string());
    assert_eq!(g.graph, "/tiny");
    assert!(g.crossings.is_empty());
    run.new_graph("/big".to_string());
    assert_eq!(run.graphs.len(), 2);
    assert_eq!(run.graphs[1].graph, "/big");
}
