//! The course of one invocation: what to do at the start, and what to do
//! once the listeners have been collected or could not be.
//!
//! Nothing here reads arguments, runs a tool, reads the clock or prints.
//! The caller does what it is told to do and hands back what came of it.

use crate::collect::{CollectionResult, ErrorView, WhichportError};
use crate::output::{
    all_ports, all_ports_output, port_query, port_query_output, AllPortsOutput, AllPortsView,
    PortQueryOutput, PortQueryView,
};
use crate::report::{all_report, all_text_lines, ports_report, ports_text_lines};
use crate::text::string_views;
use vstd::prelude::*;

verus! {

/// What was asked for on the command line.
#[derive(Debug, Clone)]
pub struct Request {
    /// The ports to report on.
    pub ports: Vec<u16>,
    /// Whether to report on every listener, whatever `ports` holds.
    pub all: bool,
    /// Whether to report in JSON.
    pub json: bool,
    /// Whether the text report tells how the listeners were collected.
    pub verbose: bool,
}

/// What is to be printed.
#[derive(Debug, Clone)]
pub enum Report {
    /// These lines, one after the other.
    Text(Vec<String>),
    /// This value, as JSON.
    AllJson(AllPortsOutput),
    /// This value, as JSON.
    PortsJson(PortQueryOutput),
}

/// A `Report` with its strings as sequences of characters.
pub enum ReportView {
    Text(Seq<Seq<char>>),
    AllJson(AllPortsView),
    PortsJson(PortQueryView),
}

impl View for Report {
    type V = ReportView;

    open spec fn view(&self) -> ReportView {
        match self {
            Report::Text(lines) => ReportView::Text(string_views(lines@)),
            Report::AllJson(output) => ReportView::AllJson(output@),
            Report::PortsJson(output) => ReportView::PortsJson(output@),
        }
    }
}

/// What has happened.
#[derive(Debug, Clone)]
pub enum RunEvent {
    /// The invocation has started.
    Started,
    /// The listeners were collected, at this time in seconds since the Unix
    /// epoch.
    Collected(CollectionResult, u64),
    /// The listeners could not be collected.
    CollectionFailed(WhichportError),
}

/// What is to be done.
#[derive(Debug, Clone)]
pub enum RunAction {
    /// Collect the listeners and read the clock.
    Collect,
    /// Print the report and end with success.
    Print(Report),
    /// Tell of the error and end with failure.
    Fail(WhichportError),
}

/// A `RunAction` with its strings as sequences of characters.
pub enum ActionView {
    Collect,
    Print(ReportView),
    Fail(ErrorView),
}

impl View for RunAction {
    type V = ActionView;

    open spec fn view(&self) -> ActionView {
        match self {
            RunAction::Collect => ActionView::Collect,
            RunAction::Print(report) => ActionView::Print(report@),
            RunAction::Fail(error) => ActionView::Fail(error@),
        }
    }
}

/// Whether `request` asks for anything: for every listener, or for a port.
pub open spec fn asks_for_something(request: Request) -> bool {
    request.all || request.ports@.len() > 0
}

/// The report that `request` asks for, of the listeners collected.
pub open spec fn report_of(request: Request, collected: CollectionResult, timestamp: u64)
    -> ReportView {
    let c = collected@;
    if request.all {
        if request.json {
            ReportView::AllJson(all_ports(c.listeners, c.source, timestamp, c.errors))
        } else {
            ReportView::Text(
                all_report(c.listeners, c.source, timestamp, c.errors, request.verbose),
            )
        }
    } else if request.json {
        ReportView::PortsJson(
            port_query(c.listeners, request.ports@, c.source, timestamp, c.errors),
        )
    } else {
        ReportView::Text(
            ports_report(
                c.listeners,
                request.ports@,
                c.source,
                timestamp,
                c.errors,
                request.verbose,
            ),
        )
    }
}

/// What is to be done after `event`. A request that asks for nothing fails
/// before anything is collected. Otherwise the listeners are collected,
/// and then reported as the request asks, or the failure to collect them
/// is the failure of the invocation.
pub open spec fn action_after(request: Request, event: RunEvent) -> ActionView {
    if !asks_for_something(request) {
        ActionView::Fail(ErrorView::NoPorts)
    } else {
        match event {
            RunEvent::Started => ActionView::Collect,
            RunEvent::Collected(collected, timestamp) => ActionView::Print(
                report_of(request, collected, timestamp),
            ),
            RunEvent::CollectionFailed(error) => ActionView::Fail(error@),
        }
    }
}

/// Decides what one invocation does next.
pub fn run(request: &Request, event: RunEvent) -> (action: RunAction)
    ensures
        action@ == action_after(*request, event),
{
    if !request.all && request.ports.len() == 0 {
        return RunAction::Fail(WhichportError::NoPorts);
    }
    match event {
        RunEvent::Started => RunAction::Collect,
        RunEvent::CollectionFailed(error) => RunAction::Fail(error),
        RunEvent::Collected(collected, timestamp) => {
            let listeners = collected.listeners.as_slice();
            let errors = collected.errors.as_slice();
            let report = if request.all {
                if request.json {
                    Report::AllJson(
                        all_ports_output(listeners, collected.source, timestamp, errors),
                    )
                } else {
                    Report::Text(
                        all_text_lines(
                            listeners,
                            collected.source,
                            timestamp,
                            errors,
                            request.verbose,
                        ),
                    )
                }
            } else if request.json {
                Report::PortsJson(
                    port_query_output(
                        listeners,
                        request.ports.as_slice(),
                        collected.source,
                        timestamp,
                        errors,
                    ),
                )
            } else {
                Report::Text(
                    ports_text_lines(
                        listeners,
                        request.ports.as_slice(),
                        collected.source,
                        timestamp,
                        errors,
                        request.verbose,
                    ),
                )
            };
            RunAction::Print(report)
        },
    }
}

/// Whether two requests ask for the same.
pub open spec fn same_request(a: Request, b: Request) -> bool {
    a.ports@ == b.ports@ && a.all == b.all && a.json == b.json && a.verbose == b.verbose
}

/// Whether the same has happened: events of the same kind that hold the
/// same listeners, texts and time.
pub open spec fn same_event(a: RunEvent, b: RunEvent) -> bool {
    match (a, b) {
        (RunEvent::Started, RunEvent::Started) => true,
        (RunEvent::Collected(x, t), RunEvent::Collected(y, u)) => x@ == y@ && t == u,
        (RunEvent::CollectionFailed(x), RunEvent::CollectionFailed(y)) => x@ == y@,
        _ => false,
    }
}

/// An invocation is repeatable: a second one that is asked the same, and
/// in which the same happens, does the same. Where it prints, it prints the
/// same report, character for character, in the same order.
pub proof fn lemma_run_is_repeatable(
    request: Request,
    again: Request,
    event: RunEvent,
    event_again: RunEvent,
)
    requires
        same_request(request, again),
        same_event(event, event_again),
    ensures
        action_after(request, event) == action_after(again, event_again),
{
}

/// The plain text report tells nothing of how the listeners were
/// collected: whatever the tool, the time and the errors were, it is the
/// same for the same listeners.
pub proof fn lemma_plain_text_ignores_collection(
    request: Request,
    collected: CollectionResult,
    timestamp: u64,
    collected_again: CollectionResult,
    timestamp_again: u64,
)
    requires
        !request.json,
        !request.verbose,
        collected@.listeners == collected_again@.listeners,
    ensures
        report_of(request, collected, timestamp) == report_of(
            request,
            collected_again,
            timestamp_again,
        ),
{
}

} // verus!
