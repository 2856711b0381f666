//! Collecting listeners from the tools of the platform: which tool to run
//! next, what its outcome means, and when to give up.
//!
//! Nothing here runs a program. The caller runs the tool it is told to run
//! and hands back what came of it.

use crate::listener::{listener_views, Listener, ListenerView};
use crate::lsof::{lsof_listeners, parse_lsof_output};
use crate::split::{join_strings, joined};
use crate::ss::{parse_ss_output, ss_listeners};
use crate::text::{string_views, trim, trimmed};
use vstd::prelude::*;

verus! {

/// A tool that lists listening sockets.
#[derive(Debug, Clone, Copy, PartialEq, Eq, Structural)]
pub enum Tool {
    /// `ss`, which prints a socket table.
    Ss,
    /// `lsof`, which prints one field per line.
    Lsof,
}

/// What came of running a tool.
#[derive(Debug, Clone)]
pub enum ToolOutcome {
    /// The tool ran and succeeded; this is what it printed.
    Output(String),
    /// The tool could not be started; this is what the system said.
    SpawnFailed(String),
    /// The tool ran and failed; this is what it printed as its error.
    ExitFailure(String),
}

/// Why nothing could be reported.
#[derive(Debug, Clone)]
pub enum WhichportError {
    /// Neither a port nor all ports were asked for.
    NoPorts,
    /// A tool could not be started.
    CommandFailed { command: String, details: String },
    /// A tool ran and failed.
    CommandError { command: String, stderr: String },
    /// Every tool of the platform failed; the text tells how.
    AllMethodsFailed(String),
}

/// A `WhichportError` with its strings as sequences of characters.
pub enum ErrorView {
    NoPorts,
    CommandFailed { command: Seq<char>, details: Seq<char> },
    CommandError { command: Seq<char>, stderr: Seq<char> },
    AllMethodsFailed(Seq<char>),
}

impl View for WhichportError {
    type V = ErrorView;

    open spec fn view(&self) -> ErrorView {
        match self {
            WhichportError::NoPorts => ErrorView::NoPorts,
            WhichportError::CommandFailed { command, details } => ErrorView::CommandFailed {
                command: command@,
                details: details@,
            },
            WhichportError::CommandError { command, stderr } => ErrorView::CommandError {
                command: command@,
                stderr: stderr@,
            },
            WhichportError::AllMethodsFailed(text) => ErrorView::AllMethodsFailed(text@),
        }
    }
}

/// The listeners that were collected, and how.
#[derive(Debug, Clone)]
pub struct CollectionResult {
    /// The listeners that the tool reported.
    pub listeners: Vec<Listener>,
    /// The name of the tool that reported them.
    pub source: &'static str,
    /// What went wrong with each tool that was tried before it, in order.
    pub errors: Vec<String>,
}

/// A `CollectionResult` with its strings as sequences of characters.
pub struct CollectionView {
    pub listeners: Seq<ListenerView>,
    pub source: Seq<char>,
    pub errors: Seq<Seq<char>>,
}

impl View for CollectionResult {
    type V = CollectionView;

    open spec fn view(&self) -> CollectionView {
        CollectionView {
            listeners: listener_views(self.listeners@),
            source: self.source@,
            errors: string_views(self.errors@),
        }
    }
}

/// What the collector does next.
#[derive(Debug, Clone)]
pub enum CollectStep {
    /// This tool is to be run, and its outcome added to those at hand.
    Invoke(Tool),
    /// A tool succeeded.
    Done(CollectionResult),
    /// Every tool failed.
    Failed(WhichportError),
}

/// A `CollectStep` with its strings as sequences of characters.
pub enum StepView {
    Invoke(Tool),
    Done(CollectionView),
    Failed(ErrorView),
}

impl View for CollectStep {
    type V = StepView;

    open spec fn view(&self) -> StepView {
        match self {
            CollectStep::Invoke(tool) => StepView::Invoke(*tool),
            CollectStep::Done(result) => StepView::Done(result@),
            CollectStep::Failed(error) => StepView::Failed(error@),
        }
    }
}

/// The name of the program of `tool`.
pub open spec fn tool_name(tool: Tool) -> Seq<char> {
    match tool {
        Tool::Ss => "ss"@,
        Tool::Lsof => "lsof"@,
    }
}

/// The arguments that `tool` is run with. `ss`: listening sockets only,
/// numeric, TCP, with processes, without a header. `lsof`: numeric hosts and
/// ports, TCP, listening sockets only, and the fields process id, command,
/// login name, socket name, TCP information and user id.
pub open spec fn tool_arguments(tool: Tool) -> Seq<Seq<char>> {
    match tool {
        Tool::Ss => seq!["-lntpH"@],
        Tool::Lsof => seq!["-nP"@, "-iTCP"@, "-sTCP:LISTEN"@, "-FpcLnTu"@],
    }
}

/// The views of a sequence of string slices.
pub open spec fn str_views(parts: Seq<&'static str>) -> Seq<Seq<char>> {
    parts.map_values(|part: &'static str| part@)
}

/// The tools of a platform, in the order in which they are tried: `ss` and
/// then `lsof` where `ss` is at home, `lsof` alone elsewhere.
pub open spec fn tools_of(linux_like: bool) -> Seq<Tool> {
    if linux_like {
        seq![Tool::Ss, Tool::Lsof]
    } else {
        seq![Tool::Lsof]
    }
}

/// The words that tell of `error`.
pub open spec fn error_message(error: ErrorView) -> Seq<char> {
    match error {
        ErrorView::NoPorts => "no ports specified and --all not provided"@,
        ErrorView::CommandFailed { command, details } => "failed to run "@ + command + ": "@
            + details,
        ErrorView::CommandError { command, stderr } => "command "@ + command
            + " returned error: "@ + stderr,
        ErrorView::AllMethodsFailed(text) => "all collection methods failed: "@ + text,
    }
}

/// What the outcome of running `tool` means: the listeners that its output
/// reports, or the error. The error text of a tool that failed is trimmed.
pub open spec fn tool_result(tool: Tool, outcome: ToolOutcome) -> Result<
    Seq<ListenerView>,
    ErrorView,
> {
    match outcome {
        ToolOutcome::Output(text) => Ok(
            match tool {
                Tool::Ss => ss_listeners(text@),
                Tool::Lsof => lsof_listeners(text@),
            },
        ),
        ToolOutcome::SpawnFailed(text) => Err(
            ErrorView::CommandFailed { command: tool_name(tool), details: text@ },
        ),
        ToolOutcome::ExitFailure(text) => Err(
            ErrorView::CommandError { command: tool_name(tool), stderr: trimmed(text@) },
        ),
    }
}

/// What the collector does when `tools` are still to be tried, `outcomes` are
/// the outcomes of the first of them, and `errors` tell of the tools that
/// failed before. The first tool that succeeded ends the collection. A tool
/// without an outcome is to be run. Where every tool has failed, so has the
/// collection, and its error joins what went wrong with each.
pub open spec fn collect_step(
    tools: Seq<Tool>,
    outcomes: Seq<ToolOutcome>,
    errors: Seq<Seq<char>>,
) -> StepView
    decreases tools.len(),
{
    if tools.len() == 0 {
        StepView::Failed(ErrorView::AllMethodsFailed(joined(errors, " | "@)))
    } else if outcomes.len() == 0 {
        StepView::Invoke(tools[0])
    } else {
        match tool_result(tools[0], outcomes[0]) {
            Ok(listeners) => StepView::Done(
                CollectionView { listeners, source: tool_name(tools[0]), errors },
            ),
            Err(error) => collect_step(
                tools.skip(1),
                outcomes.skip(1),
                errors.push(error_message(error)),
            ),
        }
    }
}

/// The view of a result whose parts have views.
pub open spec fn listeners_result_view(r: Result<Vec<Listener>, WhichportError>) -> Result<
    Seq<ListenerView>,
    ErrorView,
> {
    match r {
        Ok(listeners) => Ok(listener_views(listeners@)),
        Err(error) => Err(error@),
    }
}

impl Tool {
    /// The name of the program.
    pub fn name(&self) -> (name: &'static str)
        ensures
            name@ == tool_name(*self),
    {
        match self {
            Tool::Ss => "ss",
            Tool::Lsof => "lsof",
        }
    }

    /// The arguments that the program is run with.
    pub fn arguments(&self) -> (arguments: Vec<&'static str>)
        ensures
            str_views(arguments@) == tool_arguments(*self),
    {
        let mut arguments: Vec<&'static str> = Vec::new();
        match self {
            Tool::Ss => {
                arguments.push("-lntpH");
            },
            Tool::Lsof => {
                arguments.push("-nP");
                arguments.push("-iTCP");
                arguments.push("-sTCP:LISTEN");
                arguments.push("-FpcLnTu");
            },
        }
        assert(str_views(arguments@) =~= tool_arguments(*self));
        arguments
    }
}

impl WhichportError {
    /// The words that tell of the error.
    pub fn message(&self) -> (text: String)
        ensures
            text@ == error_message(self@),
    {
        match self {
            WhichportError::NoPorts => String::from_str(
                "no ports specified and --all not provided",
            ),
            WhichportError::CommandFailed { command, details } => {
                let mut text = String::from_str("failed to run ");
                text.append(command.as_str());
                text.append(": ");
                text.append(details.as_str());
                text
            },
            WhichportError::CommandError { command, stderr } => {
                let mut text = String::from_str("command ");
                text.append(command.as_str());
                text.append(" returned error: ");
                text.append(stderr.as_str());
                text
            },
            WhichportError::AllMethodsFailed(joined) => {
                let mut text = String::from_str("all collection methods failed: ");
                text.append(joined.as_str());
                text
            },
        }
    }
}

/// The tools of the platform, in the order in which they are tried.
pub fn strategies(linux_like: bool) -> (tools: Vec<Tool>)
    ensures
        tools@ == tools_of(linux_like),
{
    let mut tools: Vec<Tool> = Vec::new();
    if linux_like {
        tools.push(Tool::Ss);
    }
    tools.push(Tool::Lsof);
    assert(tools@ =~= tools_of(linux_like));
    tools
}

/// What the outcome of running `tool` means.
pub fn interpret(tool: Tool, outcome: &ToolOutcome) -> (r: Result<Vec<Listener>, WhichportError>)
    ensures
        listeners_result_view(r) == tool_result(tool, *outcome),
{
    match outcome {
        ToolOutcome::Output(text) => {
            match tool {
                Tool::Ss => Ok(parse_ss_output(text.as_str())),
                Tool::Lsof => Ok(parse_lsof_output(text.as_str())),
            }
        },
        ToolOutcome::SpawnFailed(text) => Err(
            WhichportError::CommandFailed {
                command: String::from_str(tool.name()),
                details: text.clone(),
            },
        ),
        ToolOutcome::ExitFailure(text) => Err(
            WhichportError::CommandError {
                command: String::from_str(tool.name()),
                stderr: trim(text.as_str()),
            },
        ),
    }
}

/// What a run of `lsof` means: its listeners, or why there are none.
pub fn collect_listeners_from_lsof(outcome: &ToolOutcome) -> (r: Result<
    Vec<Listener>,
    WhichportError,
>)
    ensures
        listeners_result_view(r) == tool_result(Tool::Lsof, *outcome),
{
    interpret(Tool::Lsof, outcome)
}

/// What a run of `ss` means: its listeners, or why there are none.
pub fn collect_listeners_from_ss(outcome: &ToolOutcome) -> (r: Result<
    Vec<Listener>,
    WhichportError,
>)
    ensures
        listeners_result_view(r) == tool_result(Tool::Ss, *outcome),
{
    interpret(Tool::Ss, outcome)
}

/// Decides how the collection goes on. `outcomes` holds what came of the
/// tools run so far, in the order in which `collect_listeners` asked for
/// them; it is empty at the start. The answer is the next tool to run, the
/// listeners of the first tool that succeeded together with what went wrong
/// before it, or the failure of the whole collection once every tool of the
/// platform has failed.
pub fn collect_listeners(linux_like: bool, outcomes: &Vec<ToolOutcome>) -> (step: CollectStep)
    ensures
        step@ == collect_step(tools_of(linux_like), outcomes@, seq![]),
{
    let tools = strategies(linux_like);
    let mut errors: Vec<String> = Vec::new();
    let mut i: usize = 0;
    proof {
        assert(tools@.skip(0) =~= tools@);
        assert(outcomes@.skip(0) =~= outcomes@);
        assert(string_views(errors@) =~= Seq::<Seq<char>>::empty());
    }
    while i < tools.len()
        invariant
            i <= tools.len(),
            i <= outcomes.len(),
            collect_step(tools_of(linux_like), outcomes@, seq![]) == collect_step(
                tools@.skip(i as int),
                outcomes@.skip(i as int),
                string_views(errors@),
            ),
        decreases tools.len() - i,
    {
        let tool = tools[i];
        proof {
            assert(tools@.skip(i as int)[0] == tool);
            assert(tools@.skip(i as int).skip(1) =~= tools@.skip(i + 1));
        }
        if i >= outcomes.len() {
            return CollectStep::Invoke(tool);
        }
        proof {
            assert(outcomes@.skip(i as int)[0] == outcomes@[i as int]);
            assert(outcomes@.skip(i as int).skip(1) =~= outcomes@.skip(i + 1));
        }
        match interpret(tool, &outcomes[i]) {
            Ok(listeners) => {
                return CollectStep::Done(
                    CollectionResult { listeners, source: tool.name(), errors },
                );
            },
            Err(error) => {
                let ghost before = string_views(errors@);
                let text = error.message();
                errors.push(text);
                assert(string_views(errors@) =~= before.push(error_message(error@)));
            },
        }
        i += 1;
    }
    CollectStep::Failed(WhichportError::AllMethodsFailed(join_strings(&errors, " | ")))
}

/// Whether two outcomes are of the same kind and hold the same text.
pub open spec fn same_outcome(a: ToolOutcome, b: ToolOutcome) -> bool {
    match (a, b) {
        (ToolOutcome::Output(x), ToolOutcome::Output(y)) => x@ == y@,
        (ToolOutcome::SpawnFailed(x), ToolOutcome::SpawnFailed(y)) => x@ == y@,
        (ToolOutcome::ExitFailure(x), ToolOutcome::ExitFailure(y)) => x@ == y@,
        _ => false,
    }
}

/// Collecting is repeatable: where the tools print the same a second time,
/// the collector decides the same, down to the last listener and error.
pub proof fn lemma_collection_is_repeatable(
    tools: Seq<Tool>,
    first: Seq<ToolOutcome>,
    second: Seq<ToolOutcome>,
    errors: Seq<Seq<char>>,
)
    requires
        first.len() == second.len(),
        forall|i: int| 0 <= i < first.len() ==> same_outcome(#[trigger] first[i], second[i]),
    ensures
        collect_step(tools, first, errors) == collect_step(tools, second, errors),
    decreases tools.len(),
{
    if tools.len() > 0 && first.len() > 0 {
        assert(same_outcome(first[0], second[0]));
        assert(tool_result(tools[0], first[0]) == tool_result(tools[0], second[0]));
        match tool_result(tools[0], first[0]) {
            Ok(_) => {},
            Err(error) => {
                assert forall|i: int| 0 <= i < first.skip(1).len() implies same_outcome(
                    #[trigger] first.skip(1)[i],
                    second.skip(1)[i],
                ) by {
                    assert(same_outcome(first[i + 1], second[i + 1]));
                }
                lemma_collection_is_repeatable(
                    tools.skip(1),
                    first.skip(1),
                    second.skip(1),
                    errors.push(error_message(error)),
                );
            },
        }
    }
}

} // verus!
