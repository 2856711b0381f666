use whichport::collect::{
    collect_listeners, collect_listeners_from_lsof, collect_listeners_from_ss, interpret,
    strategies, CollectStep, Tool, ToolOutcome, WhichportError,
};

const SS: &str = "LISTEN 0 128 *:22 *:* users:((\"sshd\",pid=5,fd=3))\n";
const LSOF: &str = "p5\ncsshd\nLroot\nn*:22\n";

fn output(text: &str) -> ToolOutcome {
    ToolOutcome::Output(text.to_string())
}

fn spawn_failed(text: &str) -> ToolOutcome {
    ToolOutcome::SpawnFailed(text.to_string())
}

fn exit_failure(text: &str) -> ToolOutcome {
    ToolOutcome::ExitFailure(text.to_string())
}

#[test]
fn tools_and_their_arguments() {
    assert_eq!(Tool::Ss.name(), "ss");
    assert_eq!(Tool::Lsof.name(), "lsof");
    assert_eq!(Tool::Ss.arguments(), vec!["-lntpH"]);
    assert_eq!(
        Tool::Lsof.arguments(),
        vec!["-nP", "-iTCP", "-sTCP:LISTEN", "-FpcLnTu"]
    );
}

#[test]
fn strategies_of_the_platforms() {
    assert_eq!(strategies(true), vec![Tool::Ss, Tool::Lsof]);
    assert_eq!(strategies(false), vec![Tool::Lsof]);
}

#[test]
fn error_messages() {
    assert_eq!(
        WhichportError::NoPorts.message(),
        "no ports specified and --all not provided"
    );
    assert_eq!(
        WhichportError::CommandFailed {
            command: "ss".to_string(),
            details: "No such file or directory (os error 2)".to_string(),
        }
        .message(),
        "failed to run ss: No such file or directory (os error 2)"
    );
    assert_eq!(
        WhichportError::CommandError {
            command: "lsof".to_string(),
            stderr: "permission denied".to_string(),
        }
        .message(),
        "command lsof returned error: permission denied"
    );
    assert_eq!(
        WhichportError::AllMethodsFailed("a | b".to_string()).message(),
        "all collection methods failed: a | b"
    );
}

#[test]
fn a_tool_that_printed_is_parsed_by_its_own_parser() {
    let listeners = collect_listeners_from_ss(&output(SS)).unwrap();
    assert_eq!(listeners.len(), 1);
    assert_eq!(listeners[0].user, "-");
    assert_eq!(listeners[0].pid, Some(5));
    let listeners = collect_listeners_from_lsof(&output(LSOF)).unwrap();
    assert_eq!(listeners.len(), 1);
    assert_eq!(listeners[0].user, "root");
    assert!(collect_listeners_from_lsof(&output(SS)).unwrap().is_empty());
    assert!(interpret(Tool::Ss, &output(LSOF)).unwrap().is_empty());
}

#[test]
fn empty_output_is_no_error() {
    assert!(collect_listeners_from_ss(&output("")).unwrap().is_empty());
    assert!(collect_listeners_from_lsof(&output("")).unwrap().is_empty());
}

#[test]
fn a_tool_that_could_not_start_fails_with_the_system_message() {
    match collect_listeners_from_lsof(&spawn_failed(" No such file \n")) {
        Err(WhichportError::CommandFailed { command, details }) => {
            assert_eq!(command, "lsof");
            assert_eq!(details, " No such file \n");
        }
        other => panic!("{other:?}"),
    }
    match collect_listeners_from_ss(&spawn_failed("denied")) {
        Err(WhichportError::CommandFailed { command, details }) => {
            assert_eq!(command, "ss");
            assert_eq!(details, "denied");
        }
        other => panic!("{other:?}"),
    }
}

#[test]
fn a_tool_that_failed_fails_with_its_trimmed_error_text() {
    match collect_listeners_from_ss(&exit_failure("\n  ss: bad option \n\n")) {
        Err(WhichportError::CommandError { command, stderr }) => {
            assert_eq!(command, "ss");
            assert_eq!(stderr, "ss: bad option");
        }
        other => panic!("{other:?}"),
    }
    match collect_listeners_from_lsof(&exit_failure("")) {
        Err(WhichportError::CommandError { command, stderr }) => {
            assert_eq!(command, "lsof");
            assert_eq!(stderr, "");
        }
        other => panic!("{other:?}"),
    }
}

#[test]
fn collection_starts_with_the_first_tool() {
    assert!(matches!(
        collect_listeners(true, &vec![]),
        CollectStep::Invoke(Tool::Ss)
    ));
    assert!(matches!(
        collect_listeners(false, &vec![]),
        CollectStep::Invoke(Tool::Lsof)
    ));
}

#[test]
fn collection_ends_with_the_first_tool_that_succeeds() {
    match collect_listeners(true, &vec![output(SS)]) {
        CollectStep::Done(result) => {
            assert_eq!(result.source, "ss");
            assert!(result.errors.is_empty());
            assert_eq!(result.listeners.len(), 1);
            assert_eq!(result.listeners[0].user, "-");
        }
        other => panic!("{other:?}"),
    }
    match collect_listeners(false, &vec![output(LSOF)]) {
        CollectStep::Done(result) => {
            assert_eq!(result.source, "lsof");
            assert!(result.errors.is_empty());
            assert_eq!(result.listeners[0].user, "root");
        }
        other => panic!("{other:?}"),
    }
    match collect_listeners(true, &vec![output(""), output(LSOF)]) {
        CollectStep::Done(result) => {
            assert_eq!(result.source, "ss");
            assert!(result.listeners.is_empty());
        }
        other => panic!("{other:?}"),
    }
}

#[test]
fn collection_falls_back_to_the_next_tool() {
    let first = vec![spawn_failed("not found")];
    assert!(matches!(
        collect_listeners(true, &first),
        CollectStep::Invoke(Tool::Lsof)
    ));
    match collect_listeners(true, &vec![spawn_failed("not found"), output(LSOF)]) {
        CollectStep::Done(result) => {
            assert_eq!(result.source, "lsof");
            assert_eq!(result.errors, vec!["failed to run ss: not found"]);
            assert_eq!(result.listeners.len(), 1);
            assert_eq!(result.listeners[0].user, "root");
        }
        other => panic!("{other:?}"),
    }
    match collect_listeners(true, &vec![exit_failure(" boom\n"), output("")]) {
        CollectStep::Done(result) => {
            assert_eq!(result.source, "lsof");
            assert_eq!(result.errors, vec!["command ss returned error: boom"]);
            assert!(result.listeners.is_empty());
        }
        other => panic!("{other:?}"),
    }
}

#[test]
fn collection_fails_when_every_tool_failed() {
    match collect_listeners(true, &vec![exit_failure("a\n"), spawn_failed("b")]) {
        CollectStep::Failed(error) => {
            assert!(matches!(error, WhichportError::AllMethodsFailed(_)));
            assert_eq!(
                error.message(),
                "all collection methods failed: command ss returned error: a | failed to run lsof: b"
            );
        }
        other => panic!("{other:?}"),
    }
    match collect_listeners(false, &vec![spawn_failed("b")]) {
        CollectStep::Failed(WhichportError::AllMethodsFailed(text)) => {
            assert_eq!(text, "failed to run lsof: b");
        }
        other => panic!("{other:?}"),
    }
}

#[test]
fn collecting_twice_decides_the_same() {
    let outcomes = vec![exit_failure("x"), output(LSOF)];
    let first = format!("{:?}", collect_listeners(true, &outcomes));
    let second = format!("{:?}", collect_listeners(true, &outcomes.clone()));
    assert_eq!(first, second);
}
