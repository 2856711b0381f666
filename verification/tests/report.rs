use whichport::aggregate::aggregate_listeners;
use whichport::listener::Listener;
use whichport::output::{all_ports_output, port_query_output};
use whichport::report::{
    all_text_lines, build_text_meta_lines, listener_text, listeners_on_port, pid_display,
    ports_text_lines, text_meta_lines,
};

fn listener(port: u16, pid: Option<u32>, command: &str, user: &str, endpoint: &str) -> Listener {
    Listener {
        port,
        pid,
        command: command.to_string(),
        user: user.to_string(),
        endpoint: endpoint.to_string(),
    }
}

fn sample() -> Vec<Listener> {
    vec![
        listener(80, Some(10), "nginx", "root", "[::]:80"),
        listener(22, None, "unknown", "-", "*:22"),
        listener(80, Some(10), "nginx", "root", "*:80"),
        listener(80, Some(11), "node", "web", "127.0.0.1:80"),
    ]
}

#[test]
fn test_build_text_meta_lines_includes_errors() {
    let errors = vec!["fallback: ss failed".to_string(), "lsof warning".to_string()];
    let lines = build_text_meta_lines("lsof", 1700000000, &errors);

    assert_eq!(lines[0], "meta source: lsof");
    assert_eq!(lines[1], "meta timestamp: 1700000000");
    assert_eq!(lines[2], "meta errors: 2");
    assert_eq!(lines[3], "meta error: fallback: ss failed");
    assert_eq!(lines[4], "meta error: lsof warning");
}

#[test]
fn test_pid_display_some() {
    assert_eq!(pid_display(Some(123)), "123");
}

#[test]
fn test_pid_display_none() {
    assert_eq!(pid_display(None), "unknown");
}

#[test]
fn pid_display_bounds() {
    assert_eq!(pid_display(Some(0)), "0");
    assert_eq!(pid_display(Some(u32::MAX)), "4294967295");
}

#[test]
fn meta_lines_without_errors() {
    assert_eq!(
        build_text_meta_lines("ss", 0, &[]),
        vec!["meta source: ss", "meta timestamp: 0", "meta errors: 0"]
    );
    assert_eq!(
        build_text_meta_lines("", u64::MAX, &["".to_string()]),
        vec![
            "meta source: ",
            "meta timestamp: 18446744073709551615",
            "meta errors: 1",
            "meta error: ",
        ]
    );
}

#[test]
fn meta_lines_only_when_verbose() {
    let errors = vec!["x".to_string()];
    assert_eq!(
        text_meta_lines("ss", 5, &errors, true),
        build_text_meta_lines("ss", 5, &errors)
    );
    assert!(text_meta_lines("ss", 5, &errors, false).is_empty());
}

#[test]
fn listener_line_is_exact() {
    let aggregated = aggregate_listeners(&sample());
    let lines: Vec<String> = aggregated.iter().map(listener_text).collect();
    assert_eq!(
        lines,
        vec![
            "port 22: unknown (pid unknown, user -) on [*:22] | SSH service (medium)",
            "port 80: nginx (pid 10, user root) on [*:80, [::]:80] | Web server or reverse proxy (high)",
            "port 80: node (pid 11, user web) on [127.0.0.1:80] | Node.js application server (medium)",
        ]
    );
}

#[test]
fn ports_report_goes_by_the_ports_asked_for() {
    let lines = ports_text_lines(&sample(), &[443, 80, 22, 443, 80], "ss", 1, &[], false);
    assert_eq!(
        lines,
        vec![
            "port 443: not listening",
            "port 80: nginx (pid 10, user root) on [*:80, [::]:80] | Web server or reverse proxy (high)",
            "port 80: node (pid 11, user web) on [127.0.0.1:80] | Node.js application server (medium)",
            "port 22: unknown (pid unknown, user -) on [*:22] | SSH service (medium)",
            "port 443: not listening",
            "port 80: nginx (pid 10, user root) on [*:80, [::]:80] | Web server or reverse proxy (high)",
            "port 80: node (pid 11, user web) on [127.0.0.1:80] | Node.js application server (medium)",
        ]
    );
    assert!(ports_text_lines(&sample(), &[], "ss", 1, &[], false).is_empty());
    assert_eq!(
        ports_text_lines(&[], &[1], "ss", 1, &[], false),
        vec!["port 1: not listening"]
    );
}

#[test]
fn ports_report_with_metadata() {
    let errors = vec!["command ss returned error: boom".to_string()];
    let lines = ports_text_lines(&sample(), &[22], "lsof", 1700000000, &errors, true);
    assert_eq!(
        lines,
        vec![
            "meta source: lsof",
            "meta timestamp: 1700000000",
            "meta errors: 1",
            "meta error: command ss returned error: boom",
            "port 22: unknown (pid unknown, user -) on [*:22] | SSH service (medium)",
        ]
    );
}

#[test]
fn all_report_lists_every_listener() {
    assert_eq!(
        all_text_lines(&sample(), "ss", 1, &[], false),
        vec![
            "port 22: unknown (pid unknown, user -) on [*:22] | SSH service (medium)",
            "port 80: nginx (pid 10, user root) on [*:80, [::]:80] | Web server or reverse proxy (high)",
            "port 80: node (pid 11, user web) on [127.0.0.1:80] | Node.js application server (medium)",
        ]
    );
    assert_eq!(
        all_text_lines(&[], "ss", 1, &[], false),
        vec!["no listening ports found"]
    );
    assert_eq!(
        all_text_lines(&[], "ss", 7, &[], true),
        vec![
            "meta source: ss",
            "meta timestamp: 7",
            "meta errors: 0",
            "no listening ports found",
        ]
    );
}

#[test]
fn plain_text_does_not_tell_how_it_was_collected() {
    let one = all_text_lines(&sample(), "ss", 1, &[], false);
    let other = all_text_lines(&sample(), "lsof", 2, &["x".to_string()], false);
    assert_eq!(one, other);
    let one = ports_text_lines(&sample(), &[80], "ss", 1, &[], false);
    let other = ports_text_lines(&sample(), &[80], "lsof", 2, &["x".to_string()], false);
    assert_eq!(one, other);
}

#[test]
fn listeners_on_a_port_keep_their_order() {
    let aggregated = aggregate_listeners(&sample());
    let on_80 = listeners_on_port(&aggregated, 80);
    let commands: Vec<&str> = on_80.iter().map(|a| a.command.as_str()).collect();
    assert_eq!(commands, vec!["nginx", "node"]);
    assert_eq!(on_80[0].endpoints, vec!["*:80", "[::]:80"]);
    assert_eq!(on_80[0].endpoint, "*:80");
    assert_eq!(on_80[0].role.description, "Web server or reverse proxy");
    assert!(listeners_on_port(&aggregated, 81).is_empty());
}

#[test]
fn all_ports_output_holds_everything() {
    let errors = vec!["e1".to_string(), "e2".to_string()];
    let output = all_ports_output(&sample(), "lsof", 42, &errors);
    assert_eq!(output.mode, "all");
    assert_eq!(output.source, "lsof");
    assert_eq!(output.timestamp, 42);
    assert_eq!(output.errors, errors);
    let ports: Vec<(u16, Option<u32>)> = output.results.iter().map(|a| (a.port, a.pid)).collect();
    assert_eq!(ports, vec![(22, None), (80, Some(10)), (80, Some(11))]);
}

#[test]
fn port_query_output_has_one_result_for_each_port() {
    let output = port_query_output(&sample(), &[80, 443, 22], "ss", 42, &[]);
    assert_eq!(output.mode, "ports");
    assert_eq!(output.source, "ss");
    assert_eq!(output.timestamp, 42);
    assert!(output.errors.is_empty());
    let results: Vec<(u16, bool, Vec<String>)> = output
        .results
        .iter()
        .map(|r| {
            (
                r.port,
                r.listening,
                r.listeners.iter().map(|a| a.command.clone()).collect(),
            )
        })
        .collect();
    assert_eq!(
        results,
        vec![
            (80, true, vec!["nginx".to_string(), "node".to_string()]),
            (443, false, vec![]),
            (22, true, vec!["unknown".to_string()]),
        ]
    );
    assert!(port_query_output(&sample(), &[], "ss", 42, &[]).results.is_empty());
}
