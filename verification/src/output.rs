//! The values of the machine-readable report. Writing them as JSON is left
//! to the caller.

use crate::aggregate::{
    aggregate_listeners, aggregated, aggregated_views, AggregatedListener, AggregatedView,
};
use crate::listener::{listener_views, Listener, ListenerView};
use crate::report::{listeners_on_port, on_port};
use crate::text::string_views;
use vstd::prelude::*;

verus! {

/// What is reported of one port that was asked for.
#[derive(Debug, Clone)]
pub struct PortResult {
    /// The port.
    pub port: u16,
    /// Whether anything listens on it.
    pub listening: bool,
    /// The logical listeners on it.
    pub listeners: Vec<AggregatedListener>,
}

/// The report on the ports that were asked for.
#[derive(Debug, Clone)]
pub struct PortQueryOutput {
    /// Always `ports`.
    pub mode: String,
    /// The tool that reported the listeners.
    pub source: String,
    /// When they were collected, in seconds since the Unix epoch.
    pub timestamp: u64,
    /// What went wrong with each tool that was tried before.
    pub errors: Vec<String>,
    /// One result for each port, in the order in which they were asked for.
    pub results: Vec<PortResult>,
}

/// The report on every listener.
#[derive(Debug, Clone)]
pub struct AllPortsOutput {
    /// Always `all`.
    pub mode: String,
    /// The tool that reported the listeners.
    pub source: String,
    /// When they were collected, in seconds since the Unix epoch.
    pub timestamp: u64,
    /// What went wrong with each tool that was tried before.
    pub errors: Vec<String>,
    /// Every logical listener, in ascending order of key.
    pub results: Vec<AggregatedListener>,
}

/// A `PortResult` with its strings as sequences of characters.
pub struct PortResultView {
    pub port: u16,
    pub listening: bool,
    pub listeners: Seq<AggregatedView>,
}

/// A `PortQueryOutput` with its strings as sequences of characters.
pub struct PortQueryView {
    pub mode: Seq<char>,
    pub source: Seq<char>,
    pub timestamp: u64,
    pub errors: Seq<Seq<char>>,
    pub results: Seq<PortResultView>,
}

/// An `AllPortsOutput` with its strings as sequences of characters.
pub struct AllPortsView {
    pub mode: Seq<char>,
    pub source: Seq<char>,
    pub timestamp: u64,
    pub errors: Seq<Seq<char>>,
    pub results: Seq<AggregatedView>,
}

impl View for PortResult {
    type V = PortResultView;

    open spec fn view(&self) -> PortResultView {
        PortResultView {
            port: self.port,
            listening: self.listening,
            listeners: aggregated_views(self.listeners@),
        }
    }
}

/// The views of a sequence of port results.
pub open spec fn port_result_views(s: Seq<PortResult>) -> Seq<PortResultView> {
    s.map_values(|r: PortResult| r@)
}

impl View for PortQueryOutput {
    type V = PortQueryView;

    open spec fn view(&self) -> PortQueryView {
        PortQueryView {
            mode: self.mode@,
            source: self.source@,
            timestamp: self.timestamp,
            errors: string_views(self.errors@),
            results: port_result_views(self.results@),
        }
    }
}

impl View for AllPortsOutput {
    type V = AllPortsView;

    open spec fn view(&self) -> AllPortsView {
        AllPortsView {
            mode: self.mode@,
            source: self.source@,
            timestamp: self.timestamp,
            errors: string_views(self.errors@),
            results: aggregated_views(self.results@),
        }
    }
}

/// What is reported of `port`: the listeners on it, and whether there are
/// any.
pub open spec fn port_result(listeners: Seq<AggregatedView>, port: u16) -> PortResultView {
    PortResultView {
        port,
        listening: on_port(listeners, port).len() > 0,
        listeners: on_port(listeners, port),
    }
}

/// The report on the ports that were asked for.
pub open spec fn port_query(
    listeners: Seq<ListenerView>,
    ports: Seq<u16>,
    source: Seq<char>,
    timestamp: u64,
    errors: Seq<Seq<char>>,
) -> PortQueryView {
    PortQueryView {
        mode: "ports"@,
        source,
        timestamp,
        errors,
        results: ports.map_values(|port: u16| port_result(aggregated(listeners), port)),
    }
}

/// The report on every listener.
pub open spec fn all_ports(
    listeners: Seq<ListenerView>,
    source: Seq<char>,
    timestamp: u64,
    errors: Seq<Seq<char>>,
) -> AllPortsView {
    AllPortsView { mode: "all"@, source, timestamp, errors, results: aggregated(listeners) }
}

/// A copy of `texts`.
pub fn copy_strings(texts: &[String]) -> (out: Vec<String>)
    ensures
        string_views(out@) == string_views(texts@),
{
    let mut out: Vec<String> = Vec::new();
    let mut i: usize = 0;
    while i < texts.len()
        invariant
            i <= texts.len(),
            string_views(out@) == string_views(texts@).take(i as int),
        decreases texts.len() - i,
    {
        let ghost before = string_views(out@);
        out.push(texts[i].clone());
        proof {
            assert(string_views(out@) =~= before.push(texts@[i as int]@));
            assert(string_views(texts@).take(i + 1) =~= before.push(texts@[i as int]@));
        }
        i += 1;
    }
    assert(string_views(texts@).take(texts.len() as int) =~= string_views(texts@));
    out
}

/// Makes the report on every listener.
pub fn all_ports_output(listeners: &[Listener], source: &str, timestamp: u64, errors: &[String]) -> (out:
    AllPortsOutput)
    ensures
        out@ == all_ports(listener_views(listeners@), source@, timestamp, string_views(errors@)),
{
    AllPortsOutput {
        mode: String::from_str("all"),
        source: String::from_str(source),
        timestamp,
        errors: copy_strings(errors),
        results: aggregate_listeners(listeners),
    }
}

/// Makes the report on the ports that were asked for: for each port, in
/// the order of `ports`, the listeners on it.
pub fn port_query_output(
    listeners: &[Listener],
    ports: &[u16],
    source: &str,
    timestamp: u64,
    errors: &[String],
) -> (out: PortQueryOutput)
    ensures
        out@ == port_query(
            listener_views(listeners@),
            ports@,
            source@,
            timestamp,
            string_views(errors@),
        ),
{
    let aggregated = aggregate_listeners(listeners);
    let ghost groups = aggregated_views(aggregated@);
    let ghost wanted = ports@.map_values(|port: u16| port_result(groups, port));
    let mut results: Vec<PortResult> = Vec::new();
    let mut i: usize = 0;
    assert(port_result_views(results@) =~= wanted.take(0));
    while i < ports.len()
        invariant
            i <= ports.len(),
            groups == aggregated_views(aggregated@),
            wanted == ports@.map_values(|port: u16| port_result(groups, port)),
            port_result_views(results@) == wanted.take(i as int),
        decreases ports.len() - i,
    {
        let port = ports[i];
        let matches = listeners_on_port(&aggregated, port);
        let result = PortResult { port, listening: matches.len() > 0, listeners: matches };
        let ghost before = port_result_views(results@);
        results.push(result);
        proof {
            assert(port_result_views(results@) =~= before.push(result@));
            assert(wanted[i as int] == result@);
            assert(wanted.take(i + 1) =~= before.push(result@));
        }
        i += 1;
    }
    assert(wanted.take(ports.len() as int) =~= wanted);
    PortQueryOutput {
        mode: String::from_str("ports"),
        source: String::from_str(source),
        timestamp,
        errors: copy_strings(errors),
        results,
    }
}

} // verus!
