use whichport::listener::Listener;
use whichport::lsof::parse_lsof_output;
use whichport::ss::{parse_ss_output, parse_ss_process_info};

fn listener(port: u16, pid: Option<u32>, command: &str, user: &str, endpoint: &str) -> Listener {
    Listener {
        port,
        pid,
        command: command.to_string(),
        user: user.to_string(),
        endpoint: endpoint.to_string(),
    }
}

#[test]
fn test_parse_ss_process_info_complete() {
    let raw = "users:((\"postgres\",pid=1178,fd=7))";
    let (pid, command) = parse_ss_process_info(raw);
    assert_eq!(pid, Some(1178));
    assert_eq!(command, "postgres");
}

#[test]
fn test_parse_ss_process_info_missing() {
    let (pid, command) = parse_ss_process_info("");
    assert_eq!(pid, None);
    assert_eq!(command, "unknown");
}

#[test]
fn test_parse_ss_output_variants() {
    let raw = [
        "LISTEN 0 128 *:22 *:*\n",
        "LISTEN 0 4096 127.0.0.53%lo:53 0.0.0.0:* users:((\"systemd-resolve\",pid=728,fd=14))\n",
        "LISTEN 0 511 [::]:443 [::]:* users:((\"nginx\",pid=1000,fd=7))\n",
    ]
    .concat();
    let parsed = parse_ss_output(&raw);

    assert_eq!(parsed.len(), 3);
    assert!(parsed.iter().any(|v| v.port == 22 && v.pid.is_none()));
    assert!(parsed
        .iter()
        .any(|v| v.port == 53 && v.pid == Some(728) && v.command == "systemd-resolve"));
    assert!(parsed
        .iter()
        .any(|v| v.port == 443 && v.pid == Some(1000) && v.command == "nginx"));
}

#[test]
fn test_parse_lsof_output_complete() {
    let raw = "p123\ncpostgres\nLrexfelix\nn127.0.0.1:5432\nn[::1]:5432\n";
    let parsed = parse_lsof_output(raw);

    assert_eq!(parsed.len(), 2);
    assert_eq!(parsed[0].port, 5432);
    assert_eq!(parsed[0].pid, Some(123));
    assert_eq!(parsed[0].command, "postgres");
    assert_eq!(parsed[0].user, "rexfelix");
    assert_eq!(parsed[0].endpoint, "127.0.0.1:5432");
}

#[test]
fn test_parse_lsof_output_with_user_fallback() {
    let raw = "p456\ncnginx\nu0\nn*:80\n";
    let parsed = parse_lsof_output(raw);

    assert_eq!(parsed.len(), 1);
    assert_eq!(parsed[0].port, 80);
    assert_eq!(parsed[0].user, "0");
}

#[test]
fn lsof_complete_block_gives_both_endpoints() {
    let raw = "p123\ncpostgres\nLrexfelix\nn127.0.0.1:5432\nn[::1]:5432\n";
    assert_eq!(
        parse_lsof_output(raw),
        vec![
            listener(5432, Some(123), "postgres", "rexfelix", "127.0.0.1:5432"),
            listener(5432, Some(123), "postgres", "rexfelix", "[::1]:5432"),
        ]
    );
}

#[test]
fn lsof_is_sensitive_to_tag_order_within_a_block() {
    let raw = "p123\nn127.0.0.1:5432\ncpostgres\nLrexfelix\nn[::1]:5432\n";
    assert_eq!(
        parse_lsof_output(raw),
        vec![listener(5432, Some(123), "postgres", "rexfelix", "[::1]:5432")]
    );
    let raw = "p123\ncpostgres\nn127.0.0.1:5432\nLrexfelix\nn[::1]:5432\n";
    assert_eq!(
        parse_lsof_output(raw),
        vec![listener(5432, Some(123), "postgres", "rexfelix", "[::1]:5432")]
    );
}

#[test]
fn lsof_complete_blocks_in_either_order_report_the_same() {
    let a = "p10\ncnginx\nLroot\nn*:80\nn[::]:80\n";
    let b = "p7\ncsshd\nLroot\nu0\nn*:22\n";
    let forth = parse_lsof_output(&format!("{a}{b}"));
    let back = parse_lsof_output(&format!("{b}{a}"));
    assert_eq!(forth, back);
    assert_eq!(
        forth,
        vec![
            listener(22, Some(7), "sshd", "root", "*:22"),
            listener(80, Some(10), "nginx", "root", "*:80"),
            listener(80, Some(10), "nginx", "root", "[::]:80"),
        ]
    );
}

#[test]
fn lsof_blocks_with_equal_keys_keep_the_order_of_the_text() {
    let a = "p1\ncfirst\nLu\nn*:80\n";
    let b = "p1\ncsecond\nLu\nn*:80\n";
    assert_eq!(
        parse_lsof_output(&format!("{a}{b}")),
        vec![
            listener(80, Some(1), "first", "u", "*:80"),
            listener(80, Some(1), "second", "u", "*:80"),
        ]
    );
    assert_eq!(
        parse_lsof_output(&format!("{b}{a}")),
        vec![
            listener(80, Some(1), "second", "u", "*:80"),
            listener(80, Some(1), "first", "u", "*:80"),
        ]
    );
}

#[test]
fn lsof_login_name_goes_before_user_id() {
    let raw = "p1\ncx\nu501\nLalice\nn*:1\np2\ncy\nu0\nn*:2\n";
    assert_eq!(
        parse_lsof_output(raw),
        vec![
            listener(1, Some(1), "x", "alice", "*:1"),
            listener(2, Some(2), "y", "0", "*:2"),
        ]
    );
    assert_eq!(
        parse_lsof_output("p1\ncx\nLalice\nu501\nn*:1\nu502\nn*:2\n"),
        vec![
            listener(1, Some(1), "x", "alice", "*:1"),
            listener(2, Some(1), "x", "alice", "*:2"),
        ]
    );
}

#[test]
fn lsof_user_id_names_the_user_of_a_process_without_login_name() {
    assert_eq!(
        parse_lsof_output("p1\nca\nLalice\nn*:80\np2\ncb\nu7\nn*:81\n"),
        vec![
            listener(80, Some(1), "a", "alice", "*:80"),
            listener(81, Some(2), "b", "7", "*:81"),
        ]
    );
    assert_eq!(
        parse_lsof_output("p1\nca\nu5\nn*:80\np2\ncb\nu7\nn*:81\n"),
        vec![
            listener(80, Some(1), "a", "5", "*:80"),
            listener(81, Some(2), "b", "7", "*:81"),
        ]
    );
    assert_eq!(
        parse_lsof_output("p1\nca\nu5\nu6\nn*:80\n"),
        vec![listener(80, Some(1), "a", "6", "*:80")]
    );
}

#[test]
fn lsof_blocks_headed_by_user_id_report_the_same_in_either_order() {
    let with_login = "p1\nca\nLalice\nn*:80\n";
    let with_id = "p2\ncb\nu7\nn*:81\n";
    let other_id = "p3\ncc\nu5\nn*:79\nn[::]:79\n";
    let expected = vec![
        listener(79, Some(3), "c", "5", "*:79"),
        listener(79, Some(3), "c", "5", "[::]:79"),
        listener(80, Some(1), "a", "alice", "*:80"),
        listener(81, Some(2), "b", "7", "*:81"),
    ];
    let orders = [
        [with_login, with_id, other_id],
        [with_login, other_id, with_id],
        [with_id, with_login, other_id],
        [with_id, other_id, with_login],
        [other_id, with_login, with_id],
        [other_id, with_id, with_login],
    ];
    for order in orders {
        assert_eq!(parse_lsof_output(&order.concat()), expected);
    }
}

#[test]
fn lsof_user_runs_on_where_a_process_names_none() {
    assert_eq!(
        parse_lsof_output("p1\nca\nLalice\nn*:80\np2\ncb\nn*:81\n"),
        vec![
            listener(80, Some(1), "a", "alice", "*:80"),
            listener(81, Some(2), "b", "alice", "*:81"),
        ]
    );
    assert_eq!(
        parse_lsof_output("u9\np1\nca\nn*:80\n"),
        vec![listener(80, Some(1), "a", "9", "*:80")]
    );
}

#[test]
fn lsof_state_runs_on_to_the_next_block() {
    let raw = "p1\ncone\nLu\nn*:9\np2\nn*:8\n";
    assert_eq!(
        parse_lsof_output(raw),
        vec![
            listener(8, Some(2), "one", "u", "*:8"),
            listener(9, Some(1), "one", "u", "*:9"),
        ]
    );
}

#[test]
fn lsof_incomplete_blocks_report_nothing() {
    assert_eq!(parse_lsof_output(""), vec![]);
    assert_eq!(parse_lsof_output("n*:80\n"), vec![]);
    assert_eq!(parse_lsof_output("p1\ncx\nn*:80\n"), vec![]);
    assert_eq!(parse_lsof_output("p1\nLroot\nn*:80\n"), vec![]);
    assert_eq!(parse_lsof_output("p1\ncx\nLroot\nn*:*\n"), vec![]);
    assert_eq!(parse_lsof_output("p1\ncx\nLroot\nnlocalhost\n"), vec![]);
}

#[test]
fn lsof_process_id_may_be_unknown() {
    assert_eq!(
        parse_lsof_output("cx\nLroot\nn*:80\n"),
        vec![listener(80, None, "x", "root", "*:80")]
    );
    assert_eq!(
        parse_lsof_output("p12\npabc\ncx\nLroot\nn*:80\n"),
        vec![listener(80, None, "x", "root", "*:80")]
    );
    assert_eq!(
        parse_lsof_output("p4294967296\ncx\nLroot\nn*:80\n"),
        vec![listener(80, None, "x", "root", "*:80")]
    );
    assert_eq!(
        parse_lsof_output("p4294967295\ncx\nLroot\nn*:80\n"),
        vec![listener(80, Some(4294967295), "x", "root", "*:80")]
    );
}

#[test]
fn lsof_passes_over_what_it_does_not_know() {
    let raw = "\n\np1\nf12\ncx\nTST=LISTEN\nLroot\n\nétrange\n→\nn*:80\nxyz\n";
    assert_eq!(
        parse_lsof_output(raw),
        vec![listener(80, Some(1), "x", "root", "*:80")]
    );
}

#[test]
fn lsof_values_may_be_empty_or_hold_any_character() {
    assert_eq!(
        parse_lsof_output("p1\nc\nL\nn:80\n"),
        vec![listener(80, Some(1), "", "", ":80")]
    );
    assert_eq!(
        parse_lsof_output("p1\ncmy app\nLjosé\nn[::1]:80"),
        vec![listener(80, Some(1), "my app", "josé", "[::1]:80")]
    );
}

#[test]
fn lsof_lines_may_end_with_carriage_return_and_line_feed() {
    assert_eq!(
        parse_lsof_output("p1\r\ncx\r\nLroot\r\nn*:80\r\n"),
        vec![listener(80, Some(1), "x", "root", "*:80")]
    );
}

#[test]
fn lsof_leaves_out_repetitions_and_sorts_by_port_and_pid() {
    let raw = [
        "p30\ncc\nLu\nn*:443\nn*:80\n",
        "p20\ncb\nLu\nn*:443\nn*:443\n",
        "cx\npzz\nn*:443\n",
        "p30\ncc\nLu\nn*:80\n",
    ]
    .concat();
    assert_eq!(
        parse_lsof_output(&raw),
        vec![
            listener(80, Some(30), "c", "u", "*:80"),
            listener(443, None, "x", "u", "*:443"),
            listener(443, Some(20), "b", "u", "*:443"),
            listener(443, Some(30), "c", "u", "*:443"),
        ]
    );
}

#[test]
fn lsof_unknown_pid_sorts_as_zero_and_keeps_its_place() {
    let raw = "p0\nca\nLu\nn*:80\npx\ncb\nn*:80\np0\ncc\nn*:80\n";
    assert_eq!(
        parse_lsof_output(raw),
        vec![
            listener(80, Some(0), "a", "u", "*:80"),
            listener(80, None, "b", "u", "*:80"),
            listener(80, Some(0), "c", "u", "*:80"),
        ]
    );
}

#[test]
fn ss_three_lines_give_three_listeners() {
    let raw = [
        "LISTEN 0 128 *:22 *:*\n",
        "LISTEN 0 4096 127.0.0.53%lo:53 0.0.0.0:* users:((\"systemd-resolve\",pid=728,fd=14))\n",
        "LISTEN 0 511 [::]:443 [::]:* users:((\"nginx\",pid=1000,fd=7))\n",
    ]
    .concat();
    assert_eq!(
        parse_ss_output(&raw),
        vec![
            listener(22, None, "unknown", "-", "*:22"),
            listener(53, Some(728), "systemd-resolve", "-", "127.0.0.53%lo:53"),
            listener(443, Some(1000), "nginx", "-", "[::]:443"),
        ]
    );
}

#[test]
fn ss_passes_over_lines_it_cannot_read() {
    assert_eq!(parse_ss_output(""), vec![]);
    assert_eq!(parse_ss_output("\n   \n\t\n"), vec![]);
    assert_eq!(parse_ss_output("LISTEN 0 128\n"), vec![]);
    assert_eq!(parse_ss_output("LISTEN 0 128 *:* *:*\n"), vec![]);
    assert_eq!(parse_ss_output("LISTEN 0 128 localhost *:*\n"), vec![]);
    assert_eq!(
        parse_ss_output("garbage\nLISTEN 0 128 *:22\nState Recv-Q Send-Q Local Peer\n"),
        vec![listener(22, None, "unknown", "-", "*:22")]
    );
}

#[test]
fn ss_process_column_starts_at_the_sixth_column() {
    assert_eq!(
        parse_ss_output("LISTEN 0 128 *:22 users:((\"sshd\",pid=5,fd=3))\n"),
        vec![listener(22, None, "unknown", "-", "*:22")]
    );
    assert_eq!(
        parse_ss_output("  LISTEN\t0  128   *:22   *:*   users:((\"my   app\",pid=5,fd=3))  x\n"),
        vec![listener(22, Some(5), "my app", "-", "*:22")]
    );
}

#[test]
fn ss_leaves_out_repetitions_and_sorts() {
    let raw = [
        "LISTEN 0 128 *:443 *:* users:((\"b\",pid=9,fd=1))\n",
        "LISTEN 0 128 *:80 *:* users:((\"a\",pid=9,fd=1))\n",
        "LISTEN 0 1 *:443 *:* users:((\"b\",pid=9,fd=1))\n",
        "LISTEN 0 128 *:443 *:* users:((\"c\",pid=3,fd=1))\n",
    ]
    .concat();
    assert_eq!(
        parse_ss_output(&raw),
        vec![
            listener(80, Some(9), "a", "-", "*:80"),
            listener(443, Some(3), "c", "-", "*:443"),
            listener(443, Some(9), "b", "-", "*:443"),
        ]
    );
}

#[test]
fn ss_process_info_scans_are_independent() {
    assert_eq!(
        parse_ss_process_info("pid=42"),
        (Some(42), "unknown".to_string())
    );
    assert_eq!(
        parse_ss_process_info("users:((\"nginx\"))"),
        (None, "nginx".to_string())
    );
    assert_eq!(
        parse_ss_process_info("pid=7 then \"late\""),
        (Some(7), "late".to_string())
    );
    assert_eq!(
        parse_ss_process_info("\"a\",pid=1,\"b\",pid=2"),
        (Some(1), "a".to_string())
    );
    assert_eq!(
        parse_ss_process_info("\"pid=3\""),
        (Some(3), "pid=3".to_string())
    );
}

#[test]
fn ss_process_info_edge_cases() {
    assert_eq!(
        parse_ss_process_info("\"unclosed,pid=1"),
        (Some(1), "unknown".to_string())
    );
    assert_eq!(parse_ss_process_info("\"\""), (None, "".to_string()));
    assert_eq!(parse_ss_process_info("pid="), (None, "unknown".to_string()));
    assert_eq!(parse_ss_process_info("pid=x1"), (None, "unknown".to_string()));
    assert_eq!(
        parse_ss_process_info("pid=+1"),
        (None, "unknown".to_string())
    );
    assert_eq!(
        parse_ss_process_info("pid=0012,"),
        (Some(12), "unknown".to_string())
    );
    assert_eq!(
        parse_ss_process_info("pid=4294967295"),
        (Some(4294967295), "unknown".to_string())
    );
    assert_eq!(
        parse_ss_process_info("pid=4294967296"),
        (None, "unknown".to_string())
    );
    assert_eq!(
        parse_ss_process_info("ppid=5,pid=6"),
        (Some(5), "unknown".to_string())
    );
    assert_eq!(
        parse_ss_process_info("é\"ü\"pid=8"),
        (Some(8), "ü".to_string())
    );
}

#[test]
fn parsing_twice_gives_the_same() {
    let lsof = "p30\ncc\nLu\nn*:443\nn*:80\np20\ncb\nLu\nn*:443\n";
    assert_eq!(parse_lsof_output(lsof), parse_lsof_output(lsof));
    let ss = "LISTEN 0 128 *:443 *:* users:((\"b\",pid=9,fd=1))\nLISTEN 0 128 *:80 *:*\n";
    assert_eq!(parse_ss_output(ss), parse_ss_output(ss));
}
