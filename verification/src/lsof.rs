//! The parser for the field output of `lsof -F`: one field per line, the
//! first character of the line naming the field.

use crate::endpoint::{endpoint_port, port_of_chars};
use crate::listener::{
    first_occurrences, holds_listener, lemma_reported, listener_views, ordered, sort_listeners,
    sorted, Listener, ListenerView,
};
use crate::number::{parse_bounded, u32_literal};
use crate::split::{lines, split_lines};
use crate::text::{chars_of, string_of, views};
use vstd::prelude::*;

verus! {

/// What the lines read so far say of the process whose sockets follow.
pub struct Running {
    /// The process id, if the last `p` line held a number.
    pub pid: Option<u32>,
    /// The command name of the last `c` line.
    pub command: Option<Seq<char>>,
    /// The user named last: by the login name of an `L` line, or by the user
    /// id of a `u` line of a process that had named no login name.
    pub user: Option<Seq<char>>,
    /// Whether the process named a login name: whether an `L` line has come
    /// since the last `p` line.
    pub login: bool,
}

/// Nothing is known before the first line.
pub open spec fn nothing_known() -> Running {
    Running { pid: None, command: None, user: None, login: false }
}

/// What is known after `line`. A `p`, `c` or `L` line replaces what it names;
/// a `p` line whose value is no number leaves the process id unknown. A `p`
/// line starts a process, which has named no login name yet. A `u` line
/// names the user unless its process has named a login name, before it or
/// after it: the login name goes first. Any other line, and an empty one,
/// changes nothing. What one process names stays known for the next, as far
/// as that one does not name it anew.
pub open spec fn after_line(state: Running, line: Seq<char>) -> Running {
    if line.len() == 0 {
        state
    } else if line[0] == 'p' {
        Running { pid: u32_literal(line.skip(1)), login: false, ..state }
    } else if line[0] == 'c' {
        Running { command: Some(line.skip(1)), ..state }
    } else if line[0] == 'L' {
        Running { user: Some(line.skip(1)), login: true, ..state }
    } else if line[0] == 'u' && !state.login {
        Running { user: Some(line.skip(1)), ..state }
    } else {
        state
    }
}

/// The listener that `line` reports: an `n` line whose value ends in a port
/// reports one, once a command and a user are known.
pub open spec fn record_of_line(state: Running, line: Seq<char>) -> Option<ListenerView> {
    if line.len() > 0 && line[0] == 'n' {
        match (endpoint_port(line.skip(1)), state.command, state.user) {
            (Some(port), Some(command), Some(user)) => Some(
                ListenerView { port, pid: state.pid, command, user, endpoint: line.skip(1) },
            ),
            _ => None,
        }
    } else {
        None
    }
}

/// The listeners that `lines` report, in order, when `state` is known before
/// the first of them.
pub open spec fn records_from(state: Running, lines: Seq<Seq<char>>) -> Seq<ListenerView>
    decreases lines.len(),
{
    if lines.len() == 0 {
        seq![]
    } else {
        let rest = records_from(after_line(state, lines[0]), lines.skip(1));
        match record_of_line(state, lines[0]) {
            Some(record) => seq![record] + rest,
            None => rest,
        }
    }
}

/// What `lsof -F` output means: the listeners its lines report, each once,
/// in ascending order of port and process id.
pub open spec fn lsof_listeners(raw: Seq<char>) -> Seq<ListenerView> {
    sorted(first_occurrences(records_from(nothing_known(), lines(raw))))
}

/// The view of a string that may be absent.
pub open spec fn optional_view(s: Option<String>) -> Option<Seq<char>> {
    match s {
        Some(s) => Some(s@),
        None => None,
    }
}

/// Parses the field output of `lsof -F`. Lines that report nothing are
/// passed over. The user of a process is its login name, or its user id
/// where it names no login name.
pub fn parse_lsof_output(raw: &str) -> (out: Vec<Listener>)
    ensures
        listener_views(out@) == lsof_listeners(raw@),
        ordered(listener_views(out@)),
        listener_views(out@).no_duplicates(),
{
    let chars = chars_of(raw);
    let all = split_lines(&chars);
    let mut pid: Option<u32> = None;
    let mut command: Option<String> = None;
    let mut user: Option<String> = None;
    let mut login = false;
    let mut out: Vec<Listener> = Vec::new();
    let ghost mut seen: Seq<ListenerView> = seq![];
    let mut i: usize = 0;
    proof {
        assert(views(all@).skip(0) =~= views(all@));
        assert(listener_views(out@) =~= first_occurrences(seen));
    }
    while i < all.len()
        invariant
            i <= all.len(),
            records_from(nothing_known(), views(all@)) == seen + records_from(
                Running { pid, command: optional_view(command), user: optional_view(user), login },
                views(all@).skip(i as int),
            ),
            listener_views(out@) == first_occurrences(seen),
        decreases all.len() - i,
    {
        let line = &all[i];
        let ghost state = Running {
            pid,
            command: optional_view(command),
            user: optional_view(user),
            login,
        };
        let ghost rest = views(all@).skip(i as int);
        proof {
            assert(rest[0] == line@);
            assert(rest.skip(1) =~= views(all@).skip(i + 1));
        }
        if line.len() > 0 {
            let tag = line[0];
            proof {
                assert(line@.skip(1) =~= line@.subrange(1, line.len() as int));
            }
            if tag == 'p' {
                pid = parse_bounded(line, 1, line.len(), 0xffff_ffff);
                login = false;
            } else if tag == 'c' {
                command = Some(string_of(line, 1, line.len()));
            } else if tag == 'L' {
                user = Some(string_of(line, 1, line.len()));
                login = true;
            } else if tag == 'u' {
                if !login {
                    user = Some(string_of(line, 1, line.len()));
                }
            } else if tag == 'n' {
                match (port_of_chars(line, 1), &command, &user) {
                    (Some(port), Some(command), Some(user)) => {
                        let record = Listener {
                            port,
                            pid,
                            command: command.clone(),
                            user: user.clone(),
                            endpoint: string_of(line, 1, line.len()),
                        };
                        proof {
                            assert(record_of_line(state, line@) == Some(record@));
                            assert(seen.push(record@).drop_last() =~= seen);
                            assert(seen.push(record@) + records_from(state, rest.skip(1)) =~= seen
                                + (seq![record@] + records_from(state, rest.skip(1))));
                        }
                        if !holds_listener(&out, &record) {
                            out.push(record);
                            proof {
                                assert(listener_views(out@) =~= first_occurrences(seen).push(
                                    record@,
                                ));
                            }
                        }
                        proof {
                            seen = seen.push(record@);
                        }
                    },
                    _ => {},
                }
            }
        }
        i += 1;
    }
    proof {
        assert(views(all@).skip(all.len() as int) =~= Seq::<Seq<char>>::empty());
        assert(seen + Seq::<ListenerView>::empty() =~= seen);
    }
    sort_listeners(&mut out);
    proof {
        lemma_reported(seen);
    }
    out
}

} // verus!
