use crossing_arena::graph::{Edge, Graph, Node};
use crossing_arena::protocol::{
    command_words, expect_graph, expect_graph_request, expect_start, frame_request, read_step,
    split_command, AllOk, CommandError, OptimizerResponse, ProtocolError, ReadStep, ResponseKind,
};
use crossing_arena::text::{contains, starts_with, trim_ascii};

fn tiny_graph() -> Graph {
    Graph {
        nodes: vec![Node { id: 0, x: 1, y: 2 }, Node { id: 1, x: 3, y: 4 }],
        points: vec![],
        edges: vec![Edge { source: 0, target: 1 }],
        width: 10,
        height: 10,
    }
}

#[test]
fn start_line_names_the_optimizer() {
    assert_eq!(
        read_step("START  my solver \n", true),
        ReadStep::Start { name: "my solver".to_string() }
    );
    assert_eq!(read_step("START\r\n", true), ReadStep::Start { name: String::new() });
}

#[test]
fn protocol_lines_are_classified() {
    assert_eq!(read_step("GRAPH\n", true), ReadStep::GraphRequest);
    assert_eq!(read_step("{\"nodes\":[]}\n", true), ReadStep::ParseGraph);
    assert_eq!(read_step("DONE\n", true), ReadStep::Done);
    assert_eq!(read_step("DONE\r\n", false), ReadStep::Done);
    assert_eq!(read_step("DONE now\n", true), ReadStep::Warn);
    assert_eq!(read_step("debug: 42\n", true), ReadStep::Warn);
}

#[test]
fn blank_lines_are_skipped() {
    assert_eq!(read_step("\n", true), ReadStep::Skip);
    assert_eq!(read_step("  \t \r\n", true), ReadStep::Skip);
}

#[test]
fn empty_read_retries_or_reports_exit() {
    assert_eq!(read_step("", true), ReadStep::Retry);
    assert_eq!(read_step("", false), ReadStep::Exited);
}

#[test]
fn expectations_pass_the_right_message() {
    assert_eq!(
        expect_start(OptimizerResponse::Start { name: "a".to_string() }),
        Ok("a".to_string())
    );
    assert_eq!(
        expect_start(OptimizerResponse::Done),
        Err(ProtocolError::Unexpected { expected: ResponseKind::Start, got: ResponseKind::Done })
    );
    assert_eq!(
        expect_graph(OptimizerResponse::Graph { graph: tiny_graph() }),
        Ok(tiny_graph())
    );
    assert_eq!(
        expect_graph(OptimizerResponse::ProcessExited { status: Some(1) }),
        Err(ProtocolError::Unexpected {
            expected: ResponseKind::Graph,
            got: ResponseKind::ProcessExited
        })
    );
    assert_eq!(expect_graph_request(&OptimizerResponse::GraphRequest), Ok(()));
    assert_eq!(
        expect_graph_request(&OptimizerResponse::Start { name: "x".to_string() }),
        Err(ProtocolError::Unexpected {
            expected: ResponseKind::GraphRequest,
            got: ResponseKind::Start
        })
    );
}

#[test]
fn response_kinds() {
    assert_eq!(OptimizerResponse::Done.kind(), ResponseKind::Done);
    assert_eq!(OptimizerResponse::GraphRequest.kind(), ResponseKind::GraphRequest);
}

#[test]
fn request_is_one_line() {
    assert_eq!(frame_request(b"{\"a\":\n1}"), b"{\"a\": 1}\n".to_vec());
    assert_eq!(frame_request(b""), b"\n".to_vec());
}

#[test]
fn command_line_is_split_like_a_shell() {
    assert_eq!(
        split_command("python3 'my solver.py' --fast"),
        Ok(vec!["python3".to_string(), "my solver.py".to_string(), "--fast".to_string()])
    );
    assert_eq!(split_command("./run \"unclosed"), Err(CommandError::Unparsable));
    assert_eq!(split_command("   "), Err(CommandError::Empty));
}

#[test]
fn command_words_checks_the_split() {
    assert_eq!(command_words(None), Err(CommandError::Unparsable));
    assert_eq!(command_words(Some(vec![])), Err(CommandError::Empty));
    assert_eq!(command_words(Some(vec!["a".to_string()])), Ok(vec!["a".to_string()]));
}

#[test]
fn text_helpers() {
    assert_eq!(starts_with("START x", "START"), Some(" x"));
    assert_eq!(starts_with("STAR", "START"), None);
    assert_eq!(starts_with("GRAPH", "START"), None);
    assert!(contains("graphs/tiny-10.json", "tiny"));
    assert!(contains("abc", ""));
    assert!(!contains("abc", "abcd"));
    assert!(!contains("abc", "bd"));
    assert_eq!(trim_ascii("  a b \n"), "a b");
    assert_eq!(trim_ascii(" \t "), "");
}

#[test]
fn all_ok_pairs_results_or_takes_first_error() {
    let both: (Result<u8, &str>, Result<u8, &str>) = (Ok(1), Ok(2));
    assert_eq!(both.all_ok(), Ok((1, 2)));
    let first: (Result<u8, &str>, Result<u8, &str>) = (Err("a"), Err("b"));
    assert_eq!(first.all_ok(), Err("a"));
    let second: (Result<u8, &str>, Result<u8, &str>) = (Ok(1), Err("b"));
    assert_eq!(second.all_ok(), Err("b"));
}
