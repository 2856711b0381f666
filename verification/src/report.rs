//! What is reported of the listeners: the lines of the text report, and the
//! values that the JSON report is made of.

use crate::aggregate::{
    aggregate_listeners, aggregated, aggregated_views, AggregatedListener, AggregatedView,
};
use crate::listener::{listener_views, Listener, ListenerView};
use crate::number::{decimal, push_decimal};
use crate::split::{join_strings, joined};
use crate::text::string_views;
use vstd::prelude::*;

verus! {

/// A process id as the text report shows it.
pub open spec fn pid_text(pid: Option<u32>) -> Seq<char> {
    match pid {
        Some(p) => decimal(p as nat),
        None => "unknown"@,
    }
}

/// Shows a process id: the number, or `unknown` where there is none.
pub fn pid_display(pid: Option<u32>) -> (text: String)
    ensures
        text@ == pid_text(pid),
{
    match pid {
        Some(p) => {
            let mut text = String::new();
            push_decimal(&mut text, p as u64);
            text
        },
        None => String::from_str("unknown"),
    }
}

/// The lines that tell how the listeners were collected: the tool, the
/// time, the number of tools that failed, and what went wrong with each.
pub open spec fn meta_lines(source: Seq<char>, timestamp: u64, errors: Seq<Seq<char>>) -> Seq<
    Seq<char>,
> {
    seq![
        "meta source: "@ + source,
        "meta timestamp: "@ + decimal(timestamp as nat),
        "meta errors: "@ + decimal(errors.len()),
    ] + errors.map_values(|error: Seq<char>| "meta error: "@ + error)
}

/// Builds the lines that tell how the listeners were collected.
pub fn build_text_meta_lines(source: &str, timestamp: u64, errors: &[String]) -> (out: Vec<String>)
    ensures
        string_views(out@) == meta_lines(source@, timestamp, string_views(errors@)),
{
    let mut out: Vec<String> = Vec::new();
    let mut first = String::from_str("meta source: ");
    first.append(source);
    out.push(first);
    let mut second = String::from_str("meta timestamp: ");
    push_decimal(&mut second, timestamp);
    out.push(second);
    let mut third = String::from_str("meta errors: ");
    push_decimal(&mut third, errors.len() as u64);
    out.push(third);
    let ghost head = string_views(out@);
    let ghost tail = string_views(errors@).map_values(|error: Seq<char>| "meta error: "@ + error);
    let mut i: usize = 0;
    assert(tail.take(0) =~= Seq::<Seq<char>>::empty());
    assert(head + tail.take(0) =~= head);
    while i < errors.len()
        invariant
            i <= errors.len(),
            tail == string_views(errors@).map_values(|error: Seq<char>| "meta error: "@ + error),
            string_views(out@) == head + tail.take(i as int),
        decreases errors.len() - i,
    {
        let mut line = String::from_str("meta error: ");
        line.append(errors[i].as_str());
        let ghost before = string_views(out@);
        out.push(line);
        proof {
            assert(string_views(out@) =~= before.push(line@));
            assert(tail[i as int] == line@);
            assert(head + tail.take(i + 1) =~= before.push(line@));
        }
        i += 1;
    }
    proof {
        assert(tail.take(errors.len() as int) =~= tail);
        assert(head =~= seq![
            "meta source: "@ + source@,
            "meta timestamp: "@ + decimal(timestamp as nat),
            "meta errors: "@ + decimal(string_views(errors@).len()),
        ]);
    }
    out
}

/// The lines that head the text report: those of `meta_lines` where they
/// are asked for, none otherwise.
pub open spec fn text_head(
    source: Seq<char>,
    timestamp: u64,
    errors: Seq<Seq<char>>,
    verbose: bool,
) -> Seq<Seq<char>> {
    if verbose {
        meta_lines(source, timestamp, errors)
    } else {
        seq![]
    }
}

/// The line of the text report for one logical listener.
pub open spec fn listener_line(l: AggregatedView) -> Seq<char> {
    "port "@ + decimal(l.port as nat) + ": "@ + l.command + " (pid "@ + pid_text(l.pid)
        + ", user "@ + l.user + ") on ["@ + joined(l.endpoints, ", "@) + "] | "@
        + l.role.description + " ("@ + l.role.confidence + ")"@
}

/// Writes the line of the text report for one logical listener.
pub fn listener_text(listener: &AggregatedListener) -> (line: String)
    ensures
        line@ == listener_line(listener@),
{
    let mut line = String::from_str("port ");
    push_decimal(&mut line, listener.port as u64);
    line.append(": ");
    line.append(listener.command.as_str());
    line.append(" (pid ");
    line.append(pid_display(listener.pid).as_str());
    line.append(", user ");
    line.append(listener.user.as_str());
    line.append(") on [");
    line.append(join_strings(&listener.endpoints, ", ").as_str());
    line.append("] | ");
    line.append(listener.role.description);
    line.append(" (");
    line.append(listener.role.confidence);
    line.append(")");
    line
}

/// The lines of all of `listeners`, in order.
pub open spec fn listener_lines(listeners: Seq<AggregatedView>) -> Seq<Seq<char>> {
    listeners.map_values(|l: AggregatedView| listener_line(l))
}

/// Those of `listeners` that listen on `port`, in order.
pub open spec fn on_port(listeners: Seq<AggregatedView>, port: u16) -> Seq<AggregatedView>
    decreases listeners.len(),
{
    if listeners.len() == 0 {
        seq![]
    } else if listeners.last().port == port {
        on_port(listeners.drop_last(), port).push(listeners.last())
    } else {
        on_port(listeners.drop_last(), port)
    }
}

/// The line for a port on which nothing listens.
pub open spec fn not_listening_line(port: u16) -> Seq<char> {
    "port "@ + decimal(port as nat) + ": not listening"@
}

/// The lines of the text report for one port that was asked for.
pub open spec fn port_lines(listeners: Seq<AggregatedView>, port: u16) -> Seq<Seq<char>> {
    if on_port(listeners, port).len() == 0 {
        seq![not_listening_line(port)]
    } else {
        listener_lines(on_port(listeners, port))
    }
}

/// The lines of the text report for the ports that were asked for, in the
/// order in which they were asked for.
pub open spec fn ports_lines(listeners: Seq<AggregatedView>, ports: Seq<u16>) -> Seq<Seq<char>>
    decreases ports.len(),
{
    if ports.len() == 0 {
        seq![]
    } else {
        ports_lines(listeners, ports.drop_last()) + port_lines(listeners, ports.last())
    }
}

/// The text report on the ports that were asked for.
pub open spec fn ports_report(
    listeners: Seq<ListenerView>,
    ports: Seq<u16>,
    source: Seq<char>,
    timestamp: u64,
    errors: Seq<Seq<char>>,
    verbose: bool,
) -> Seq<Seq<char>> {
    text_head(source, timestamp, errors, verbose) + ports_lines(aggregated(listeners), ports)
}

/// The text report on every listener.
pub open spec fn all_report(
    listeners: Seq<ListenerView>,
    source: Seq<char>,
    timestamp: u64,
    errors: Seq<Seq<char>>,
    verbose: bool,
) -> Seq<Seq<char>> {
    text_head(source, timestamp, errors, verbose) + if aggregated(listeners).len() == 0 {
        seq!["no listening ports found"@]
    } else {
        listener_lines(aggregated(listeners))
    }
}

/// A copy of `listener`.
pub fn copy_listener(listener: &AggregatedListener) -> (out: AggregatedListener)
    ensures
        out@ == listener@,
{
    let mut endpoints: Vec<String> = Vec::new();
    let mut i: usize = 0;
    while i < listener.endpoints.len()
        invariant
            i <= listener.endpoints.len(),
            string_views(endpoints@) == string_views(listener.endpoints@).take(i as int),
        decreases listener.endpoints.len() - i,
    {
        let ghost before = string_views(endpoints@);
        endpoints.push(listener.endpoints[i].clone());
        proof {
            assert(string_views(endpoints@) =~= before.push(listener.endpoints@[i as int]@));
            assert(string_views(listener.endpoints@).take(i + 1) =~= before.push(
                listener.endpoints@[i as int]@,
            ));
        }
        i += 1;
    }
    assert(string_views(listener.endpoints@).take(listener.endpoints.len() as int)
        =~= string_views(listener.endpoints@));
    AggregatedListener {
        port: listener.port,
        pid: listener.pid,
        command: listener.command.clone(),
        user: listener.user.clone(),
        endpoint: listener.endpoint.clone(),
        endpoints,
        role: listener.role,
    }
}

/// Those of `listeners` that listen on `port`, in order.
pub fn listeners_on_port(listeners: &Vec<AggregatedListener>, port: u16) -> (out: Vec<
    AggregatedListener,
>)
    ensures
        aggregated_views(out@) == on_port(aggregated_views(listeners@), port),
{
    let ghost all = aggregated_views(listeners@);
    let mut out: Vec<AggregatedListener> = Vec::new();
    let mut i: usize = 0;
    assert(all.take(0) =~= Seq::<AggregatedView>::empty());
    while i < listeners.len()
        invariant
            i <= listeners.len(),
            all == aggregated_views(listeners@),
            aggregated_views(out@) == on_port(all.take(i as int), port),
        decreases listeners.len() - i,
    {
        proof {
            let upto = all.take(i + 1);
            assert(upto.drop_last() =~= all.take(i as int));
            assert(upto.last() == listeners@[i as int]@);
        }
        if listeners[i].port == port {
            let ghost before = aggregated_views(out@);
            let copy = copy_listener(&listeners[i]);
            out.push(copy);
            assert(aggregated_views(out@) =~= before.push(copy@));
        }
        i += 1;
    }
    assert(all.take(listeners.len() as int) =~= all);
    out
}

/// Appends the lines of `listeners` to `out`.
fn push_listener_lines(out: &mut Vec<String>, listeners: &Vec<AggregatedListener>)
    ensures
        string_views(final(out)@) == string_views(old(out)@) + listener_lines(
            aggregated_views(listeners@),
        ),
{
    let ghost start = string_views(out@);
    let ghost lines = listener_lines(aggregated_views(listeners@));
    let mut i: usize = 0;
    assert(start + lines.take(0) =~= start);
    while i < listeners.len()
        invariant
            i <= listeners.len(),
            lines == listener_lines(aggregated_views(listeners@)),
            string_views(out@) == start + lines.take(i as int),
        decreases listeners.len() - i,
    {
        let ghost before = string_views(out@);
        let line = listener_text(&listeners[i]);
        out.push(line);
        proof {
            assert(string_views(out@) =~= before.push(line@));
            assert(lines[i as int] == line@);
            assert(start + lines.take(i + 1) =~= before.push(line@));
        }
        i += 1;
    }
    assert(lines.take(listeners.len() as int) =~= lines);
}

/// The lines that head the text report.
pub fn text_meta_lines(source: &str, timestamp: u64, errors: &[String], verbose: bool) -> (out:
    Vec<String>)
    ensures
        string_views(out@) == text_head(source@, timestamp, string_views(errors@), verbose),
{
    if verbose {
        build_text_meta_lines(source, timestamp, errors)
    } else {
        let out: Vec<String> = Vec::new();
        assert(string_views(out@) =~= Seq::<Seq<char>>::empty());
        out
    }
}

/// Writes the text report on the ports that were asked for: for each port,
/// in the order of `ports`, a line for each listener on it, or one line that
/// says that nothing listens there.
pub fn ports_text_lines(
    listeners: &[Listener],
    ports: &[u16],
    source: &str,
    timestamp: u64,
    errors: &[String],
    verbose: bool,
) -> (out: Vec<String>)
    ensures
        string_views(out@) == ports_report(
            listener_views(listeners@),
            ports@,
            source@,
            timestamp,
            string_views(errors@),
            verbose,
        ),
{
    let mut out = text_meta_lines(source, timestamp, errors, verbose);
    let aggregated = aggregate_listeners(listeners);
    let ghost head = string_views(out@);
    let ghost groups = aggregated_views(aggregated@);
    let mut i: usize = 0;
    assert(ports@.take(0) =~= Seq::<u16>::empty());
    assert(head + ports_lines(groups, ports@.take(0)) =~= head);
    while i < ports.len()
        invariant
            i <= ports.len(),
            groups == aggregated_views(aggregated@),
            string_views(out@) == head + ports_lines(groups, ports@.take(i as int)),
        decreases ports.len() - i,
    {
        let port = ports[i];
        let ghost before = string_views(out@);
        proof {
            let upto = ports@.take(i + 1);
            assert(upto.drop_last() =~= ports@.take(i as int));
            assert(upto.last() == port);
        }
        let matches = listeners_on_port(&aggregated, port);
        if matches.len() == 0 {
            let mut line = String::from_str("port ");
            push_decimal(&mut line, port as u64);
            line.append(": not listening");
            out.push(line);
            proof {
                assert(string_views(out@) =~= before.push(line@));
                assert(before.push(line@) =~= before + seq![not_listening_line(port)]);
            }
        } else {
            push_listener_lines(&mut out, &matches);
        }
        proof {
            assert(string_views(out@) =~= head + ports_lines(groups, ports@.take(i + 1)));
        }
        i += 1;
    }
    assert(ports@.take(ports.len() as int) =~= ports@);
    out
}

/// Writes the text report on every listener: a line for each, or one line
/// that says that there is none.
pub fn all_text_lines(
    listeners: &[Listener],
    source: &str,
    timestamp: u64,
    errors: &[String],
    verbose: bool,
) -> (out: Vec<String>)
    ensures
        string_views(out@) == all_report(
            listener_views(listeners@),
            source@,
            timestamp,
            string_views(errors@),
            verbose,
        ),
{
    let mut out = text_meta_lines(source, timestamp, errors, verbose);
    let aggregated = aggregate_listeners(listeners);
    let ghost head = string_views(out@);
    if aggregated.len() == 0 {
        let line = String::from_str("no listening ports found");
        out.push(line);
        assert(string_views(out@) =~= head + seq!["no listening ports found"@]);
    } else {
        push_listener_lines(&mut out, &aggregated);
    }
    out
}

} // verus!
