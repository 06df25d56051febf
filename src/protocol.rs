//! The line protocol spoken with an optimizer process: what each line it
//! prints means, what a reader does next, what a request looks like on the
//! wire, and how its command line is split into words.
use vstd::prelude::*;
use vstd::string::{StrSliceExecFns, StringExecFns};
use crate::graph::Graph;
use crate::text::{chars_of, has_prefix, starts_with, trim_ascii, trim_ws};

verus! {

/// One message of an optimizer.
#[derive(Debug)]
pub enum OptimizerResponse {
    /// Handshake: the optimizer's name.
    Start { name: String },
    /// The optimizer is ready for the next instance.
    GraphRequest,
    /// One drawing produced by the optimizer.
    Graph { graph: Graph },
    /// The end of the current batch of results.
    Done,
    /// The output ended and the process is gone, with its exit code if any.
    ProcessExited { status: Option<i32> },
}

#[derive(Debug, Clone, Copy, PartialEq, Eq)]
pub enum ResponseKind {
    Start,
    GraphRequest,
    Graph,
    Done,
    ProcessExited,
}

#[derive(Debug, PartialEq, Eq)]
pub enum ProtocolError {
    /// A line that starts with `{` is not a drawing.
    MalformedGraph { line: String },
    /// A message came where another one was expected.
    Unexpected { expected: ResponseKind, got: ResponseKind },
}

/// What a reader does with one read from the optimizer's output.
#[derive(Debug, PartialEq, Eq)]
pub enum ReadStep {
    /// Nothing was read but the process still runs: read again.
    Retry,
    /// Nothing was read and the process has ended.
    Exited,
    /// A blank line: read on.
    Skip,
    /// A line outside the protocol: pass it on as a warning, read on.
    Warn,
    Start { name: String },
    GraphRequest,
    /// The line holds one drawing as JSON: decode it.
    ParseGraph,
    Done,
}

pub open spec fn response_kind(r: OptimizerResponse) -> ResponseKind {
    match r {
        OptimizerResponse::Start { .. } => ResponseKind::Start,
        OptimizerResponse::GraphRequest => ResponseKind::GraphRequest,
        OptimizerResponse::Graph { .. } => ResponseKind::Graph,
        OptimizerResponse::Done => ResponseKind::Done,
        OptimizerResponse::ProcessExited { .. } => ResponseKind::ProcessExited,
    }
}

impl OptimizerResponse {
    pub fn kind(&self) -> (k: ResponseKind)
        ensures
            k == response_kind(*self),
    {
        match self {
            OptimizerResponse::Start { .. } => ResponseKind::Start,
            OptimizerResponse::GraphRequest => ResponseKind::GraphRequest,
            OptimizerResponse::Graph { .. } => ResponseKind::Graph,
            OptimizerResponse::Done => ResponseKind::Done,
            OptimizerResponse::ProcessExited { .. } => ResponseKind::ProcessExited,
        }
    }
}

/// A line without its terminator (`\n` or `\r\n`).
pub open spec fn line_content(s: Seq<char>) -> Seq<char> {
    let t = if s.len() > 0 && s.last() == '\n' {
        s.drop_last()
    } else {
        s
    };
    if t.len() > 0 && t.last() == '\r' {
        t.drop_last()
    } else {
        t
    }
}

/// What `line`, read while the process is `running` or not, asks for.
pub open spec fn is_read_step(line: Seq<char>, running: bool, r: ReadStep) -> bool {
    let c = line_content(line);
    if line.len() == 0 {
        r == if running {
            ReadStep::Retry
        } else {
            ReadStep::Exited
        }
    } else if has_prefix(c, "START"@) {
        r matches ReadStep::Start { name } && name@ == trim_ws(
            c.subrange("START"@.len() as int, c.len() as int),
        )
    } else if has_prefix(c, "GRAPH"@) {
        r == ReadStep::GraphRequest
    } else if has_prefix(c, "{"@) {
        r == ReadStep::ParseGraph
    } else if c == "DONE"@ {
        r == ReadStep::Done
    } else if trim_ws(c).len() == 0 {
        r == ReadStep::Skip
    } else {
        r == ReadStep::Warn
    }
}

fn content_of(line: &str) -> (r: &str)
    ensures
        r@ == line_content(line@),
{
    let c = chars_of(line);
    let mut end = c.len();
    if end > 0 && c[end - 1] == '\n' {
        end = end - 1;
    }
    if end > 0 && c[end - 1] == '\r' {
        end = end - 1;
    }
    let r = line.substring_char(0, end);
    assert(r@ == line_content(line@));
    r
}

/// Decides what to do with `line`, the result of one read from the
/// optimizer's output (empty at the end of the stream); `running` tells
/// whether the process still runs.
pub fn read_step(line: &str, running: bool) -> (r: ReadStep)
    ensures
        is_read_step(line@, running, r),
{
    let whole = chars_of(line);
    if whole.len() == 0 {
        return if running {
            ReadStep::Retry
        } else {
            ReadStep::Exited
        };
    }
    let content = content_of(line);
    if let Some(rest) = starts_with(content, "START") {
        return ReadStep::Start { name: String::from_str(trim_ascii(rest)) };
    }
    if starts_with(content, "GRAPH").is_some() {
        return ReadStep::GraphRequest;
    }
    if starts_with(content, "{").is_some() {
        return ReadStep::ParseGraph;
    }
    if let Some(rest) = starts_with(content, "DONE") {
        let tail = chars_of(rest);
        let done = chars_of("DONE");
        if tail.len() == 0 {
            assert(content@ == content@.subrange(0, done@.len() as int));
            return ReadStep::Done;
        }
    }
    assert(content@ != "DONE"@) by {
        if content@ == "DONE"@ {
            assert(content@.subrange(0, content@.len() as int) == content@);
        }
    }
    let body = trim_ascii(content);
    if chars_of(body).len() == 0 {
        ReadStep::Skip
    } else {
        ReadStep::Warn
    }
}

/// The name from a handshake.
pub fn expect_start(r: OptimizerResponse) -> (out: Result<String, ProtocolError>)
    ensures
        match r {
            OptimizerResponse::Start { name } => out == Ok::<String, ProtocolError>(name),
            _ => out == Err::<String, ProtocolError>(
                ProtocolError::Unexpected { expected: ResponseKind::Start, got: response_kind(r) },
            ),
        },
{
    let got = r.kind();
    match r {
        OptimizerResponse::Start { name } => Ok(name),
        _ => Err(ProtocolError::Unexpected { expected: ResponseKind::Start, got }),
    }
}

/// The drawing from a result message.
pub fn expect_graph(r: OptimizerResponse) -> (out: Result<Graph, ProtocolError>)
    ensures
        match r {
            OptimizerResponse::Graph { graph } => out == Ok::<Graph, ProtocolError>(graph),
            _ => out == Err::<Graph, ProtocolError>(
                ProtocolError::Unexpected { expected: ResponseKind::Graph, got: response_kind(r) },
            ),
        },
{
    let got = r.kind();
    match r {
        OptimizerResponse::Graph { graph } => Ok(graph),
        _ => Err(ProtocolError::Unexpected { expected: ResponseKind::Graph, got }),
    }
}

/// Checks that a message asks for the next instance.
pub fn expect_graph_request(r: &OptimizerResponse) -> (out: Result<(), ProtocolError>)
    ensures
        match *r {
            OptimizerResponse::GraphRequest => out == Ok::<(), ProtocolError>(()),
            _ => out == Err::<(), ProtocolError>(
                ProtocolError::Unexpected {
                    expected: ResponseKind::GraphRequest,
                    got: response_kind(*r),
                },
            ),
        },
{
    match r {
        OptimizerResponse::GraphRequest => Ok(()),
        _ => Err(
            ProtocolError::Unexpected { expected: ResponseKind::GraphRequest, got: r.kind() },
        ),
    }
}

/// A payload put on one line: each newline byte becomes a space.
pub open spec fn one_line(b: Seq<u8>) -> Seq<u8> {
    b.map_values(|c: u8| if c == 10u8 { 32u8 } else { c })
}

/// The bytes that carry one request: the payload on one line, then a newline.
pub fn frame_request(payload: &[u8]) -> (r: Vec<u8>)
    ensures
        r@ == one_line(payload@).push(10u8),
{
    let mut r: Vec<u8> = Vec::new();
    for i in 0..payload.len()
        invariant
            r@ == one_line(payload@.subrange(0, i as int)),
    {
        let c = payload[i];
        r.push(if c == 10u8 { 32u8 } else { c });
        assert(payload@.subrange(0, i + 1) == payload@.subrange(0, i as int).push(c));
    }
    assert(payload@.subrange(0, payload@.len() as int) == payload@);
    r.push(10u8);
    r
}

/// The words a POSIX shell would split a command line into, `None` when the
/// line has an unclosed quote or a trailing escape.
pub uninterp spec fn shell_words(s: Seq<char>) -> Option<Seq<Seq<char>>>;

pub open spec fn words_view(w: Seq<String>) -> Seq<Seq<char>> {
    w.map_values(|s: String| s@)
}

/// Relies on `shlex::split`: POSIX-shell word splitting of the whole text,
/// `None` when the text is erroneous; the result depends on the text alone.
#[verifier::external_body]
fn shlex_split(command: &str) -> (r: Option<Vec<String>>)
    ensures
        match r {
            Some(w) => shell_words(command@) == Some(words_view(w@)),
            None => shell_words(command@) is None,
        },
{
    shlex::split(command)
}

#[derive(Debug, Clone, Copy, PartialEq, Eq)]
pub enum CommandError {
    /// The command line does not split into words.
    Unparsable,
    /// The command line holds no word.
    Empty,
}

/// The program and its arguments, from the split words of a command line.
pub fn command_words(words: Option<Vec<String>>) -> (r: Result<Vec<String>, CommandError>)
    ensures
        match words {
            None => r == Err::<Vec<String>, CommandError>(CommandError::Unparsable),
            Some(w) => if w@.len() == 0 {
                r == Err::<Vec<String>, CommandError>(CommandError::Empty)
            } else {
                r == Ok::<Vec<String>, CommandError>(w)
            },
        },
{
    match words {
        None => Err(CommandError::Unparsable),
        Some(w) => if w.len() == 0 {
            Err(CommandError::Empty)
        } else {
            Ok(w)
        },
    }
}

/// Splits an optimizer's command line into the program and its arguments.
pub fn split_command(command: &str) -> (r: Result<Vec<String>, CommandError>)
    ensures
        match shell_words(command@) {
            None => r == Err::<Vec<String>, CommandError>(CommandError::Unparsable),
            Some(w) => if w.len() == 0 {
                r == Err::<Vec<String>, CommandError>(CommandError::Empty)
            } else {
                r matches Ok(v) && words_view(v@) == w
            },
        },
{
    command_words(shlex_split(command))
}

/// Both results of two sessions served side by side, or the first error.
pub trait AllOk<T, E> {
    type TOut;

    /// `(a, b)` for `(Ok(a), Ok(b))`; otherwise the error of the first
    /// result that failed.
    fn all_ok(self) -> Result<Self::TOut, E>;
}

impl<T, E> AllOk<T, E> for (Result<T, E>, Result<T, E>) {
    type TOut = (T, T);

    fn all_ok(self) -> (r: Result<(T, T), E>)
        ensures
            r == match self {
                (Ok(a), Ok(b)) => Ok::<(T, T), E>((a, b)),
                (Err(e), _) => Err::<(T, T), E>(e),
                (Ok(_), Err(e)) => Err::<(T, T), E>(e),
            },
    {
        match self {
            (Ok(a), Ok(b)) => Ok((a, b)),
            (Err(e), _) => Err(e),
            (_, Err(e)) => Err(e),
        }
    }
}

} // verus!
