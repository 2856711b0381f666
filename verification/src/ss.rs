//! The parser for the socket table that `ss` prints: one socket per line, in
//! columns separated by white space.

use crate::endpoint::{endpoint_port, port_of_chars};
use crate::listener::{
    first_occurrences, holds_listener, lemma_reported, listener_views, ordered, sort_listeners,
    sorted, Listener, ListenerView,
};
use crate::number::{parse_bounded, u32_literal};
use crate::search::{find, first_occurrence};
use crate::split::{join_from, joined, lines, split_lines, split_tokens, tokens};
use crate::text::{
    chars_of, digit, is_ascii_digit, lemma_prefix_len_unique, prefix_len, string_of, views,
};
use vstd::prelude::*;

verus! {

/// The predicate "is not a double quote".
pub open spec fn non_quote() -> spec_fn(char) -> bool {
    |c: char| c != '"'
}

/// The command name in the process column: what stands between the first
/// double quote and the next one, or `unknown` where there are not two.
pub open spec fn command_name(blob: Seq<char>) -> Seq<char> {
    let open = prefix_len(blob, non_quote()) as int;
    let rest = blob.skip(open + 1);
    let close = prefix_len(rest, non_quote()) as int;
    if open < blob.len() && close < rest.len() {
        rest.take(close)
    } else {
        "unknown"@
    }
}

/// The process id in the process column: the digits that follow the first
/// `pid=`, as far as they go, if they are a number that fits in 32 bits.
pub open spec fn process_id(blob: Seq<char>) -> Option<u32> {
    match first_occurrence(blob, "pid="@) {
        None => None,
        Some(i) => {
            let rest = blob.skip(i + "pid="@.len());
            u32_literal(rest.take(prefix_len(rest, digit()) as int))
        },
    }
}

/// The listener that one line of the table reports. The fourth column is the
/// local address, which must end in a port. The process column is what
/// follows the fifth, its parts joined by single spaces.
pub open spec fn record_of_line(line: Seq<char>) -> Option<ListenerView> {
    let columns = tokens(line);
    if columns.len() < 4 {
        None
    } else {
        let blob = if columns.len() > 5 {
            joined(columns.skip(5), " "@)
        } else {
            seq![]
        };
        match endpoint_port(columns[3]) {
            None => None,
            Some(port) => Some(
                ListenerView {
                    port,
                    pid: process_id(blob),
                    command: command_name(blob),
                    user: "-"@,
                    endpoint: columns[3],
                },
            ),
        }
    }
}

/// The listeners that `lines` report, in order.
pub open spec fn records_of(lines: Seq<Seq<char>>) -> Seq<ListenerView>
    decreases lines.len(),
{
    if lines.len() == 0 {
        seq![]
    } else {
        let init = records_of(lines.drop_last());
        match record_of_line(lines.last()) {
            Some(record) => init.push(record),
            None => init,
        }
    }
}

/// What the output of `ss` means: the listeners its lines report, each once,
/// in ascending order of port and process id.
pub open spec fn ss_listeners(raw: Seq<char>) -> Seq<ListenerView> {
    sorted(first_occurrences(records_of(lines(raw))))
}

/// Reads the process column `blob`: the process id and the command name.
pub fn process_info(blob: &Vec<char>) -> (r: (Option<u32>, String))
    ensures
        r.0 == process_id(blob@),
        r.1@ == command_name(blob@),
{
    let len = blob.len();
    let mut open: usize = 0;
    while open < len && blob[open] != '"'
        invariant
            open <= len == blob.len(),
            forall|j: int| 0 <= j < open ==> blob@[j] != '"',
        decreases len - open,
    {
        open += 1;
    }
    proof {
        lemma_prefix_len_unique(blob@, non_quote(), open as int);
    }
    let mut command: Option<String> = None;
    if open < len {
        let mut close: usize = open + 1;
        while close < len && blob[close] != '"'
            invariant
                open < close <= len == blob.len(),
                forall|j: int| open < j < close ==> blob@[j] != '"',
            decreases len - close,
        {
            close += 1;
        }
        proof {
            let rest = blob@.skip(open + 1);
            assert forall|j: int| 0 <= j < close - open - 1 implies non_quote()(
                #[trigger] rest[j],
            ) by {
                assert(rest[j] == blob@[open + 1 + j]);
            }
            if close < len {
                assert(rest[close - open - 1] == blob@[close as int]);
            }
            lemma_prefix_len_unique(rest, non_quote(), close - open - 1);
            assert(rest.take(close - open - 1) =~= blob@.subrange(open + 1, close as int));
        }
        if close < len {
            command = Some(string_of(blob, open + 1, close));
        }
    }
    let command = match command {
        Some(name) => name,
        None => String::from_str("unknown"),
    };
    let marker = chars_of("pid=");
    let pid = match find(blob, &marker) {
        None => None,
        Some(i) => {
            let start: usize = i + marker.len();
            let mut end: usize = start;
            while end < len && is_ascii_digit(blob[end])
                invariant
                    start <= end <= len == blob.len(),
                    forall|j: int| start <= j < end ==> digit()(blob@[j]),
                decreases len - end,
            {
                end += 1;
            }
            proof {
                let rest = blob@.skip(start as int);
                assert forall|j: int| 0 <= j < end - start implies digit()(#[trigger] rest[j]) by {
                    assert(rest[j] == blob@[start + j]);
                }
                if end < len {
                    assert(rest[end - start] == blob@[end as int]);
                }
                lemma_prefix_len_unique(rest, digit(), end - start);
                assert(rest.take(end - start) =~= blob@.subrange(start as int, end as int));
            }
            parse_bounded(blob, start, end, 0xffff_ffff)
        },
    };
    (pid, command)
}

/// Reads the process column of one `ss` line, such as
/// `users:(("nginx",pid=1000,fd=7))`. The command name and the process id
/// are looked for independently of each other.
pub fn parse_ss_process_info(raw: &str) -> (r: (Option<u32>, String))
    ensures
        r.0 == process_id(raw@),
        r.1@ == command_name(raw@),
{
    let blob = chars_of(raw);
    process_info(&blob)
}

/// Parses the socket table that `ss` prints without a header. Lines with
/// fewer than four columns, or without a port in the fourth, are passed over.
pub fn parse_ss_output(raw: &str) -> (out: Vec<Listener>)
    ensures
        listener_views(out@) == ss_listeners(raw@),
        ordered(listener_views(out@)),
        listener_views(out@).no_duplicates(),
{
    let chars = chars_of(raw);
    let all = split_lines(&chars);
    let space = chars_of(" ");
    let mut out: Vec<Listener> = Vec::new();
    let ghost mut seen: Seq<ListenerView> = seq![];
    let mut i: usize = 0;
    proof {
        assert(views(all@).take(0) =~= Seq::<Seq<char>>::empty());
        assert(listener_views(out@) =~= first_occurrences(seen));
    }
    while i < all.len()
        invariant
            i <= all.len(),
            space@ == " "@,
            seen == records_of(views(all@).take(i as int)),
            listener_views(out@) == first_occurrences(seen),
        decreases all.len() - i,
    {
        let line = &all[i];
        proof {
            let upto = views(all@).take(i + 1);
            assert(upto.drop_last() =~= views(all@).take(i as int));
            assert(upto.last() == line@);
        }
        let columns = split_tokens(line);
        if columns.len() >= 4 {
            let endpoint = &columns[3];
            proof {
                assert(endpoint@.skip(0) =~= endpoint@);
                assert(views(columns@)[3] == endpoint@);
            }
            match port_of_chars(endpoint, 0) {
                None => {},
                Some(port) => {
                    let blob = if columns.len() > 5 {
                        join_from(&columns, 5, &space)
                    } else {
                        Vec::new()
                    };
                    let (pid, command) = process_info(&blob);
                    proof {
                        assert(endpoint@.subrange(0, endpoint.len() as int) =~= endpoint@);
                    }
                    let record = Listener {
                        port,
                        pid,
                        command,
                        user: String::from_str("-"),
                        endpoint: string_of(endpoint, 0, endpoint.len()),
                    };
                    proof {
                        assert(record_of_line(line@) == Some(record@));
                        assert(seen.push(record@).drop_last() =~= seen);
                    }
                    if !holds_listener(&out, &record) {
                        out.push(record);
                        proof {
                            assert(listener_views(out@) =~= first_occurrences(seen).push(record@));
                        }
                    }
                    proof {
                        seen = seen.push(record@);
                    }
                },
            }
        }
        i += 1;
    }
    proof {
        assert(views(all@).take(all.len() as int) =~= views(all@));
    }
    sort_listeners(&mut out);
    proof {
        lemma_reported(seen);
    }
    out
}

} // verus!
