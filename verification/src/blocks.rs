//! The process blocks of `lsof -F` output, and why the order of complete
//! blocks does not change which listeners are reported.

use crate::aggregate::aggregated;
use crate::grouping::lemma_aggregation_ignores_order;
use crate::listener::{first_occurrences, lemma_reported, sorted, ListenerView};
use crate::lsof::{
    after_line, lsof_listeners, nothing_known, record_of_line, records_from, Running,
};
use crate::split::{lines, without_cr};
use crate::text::{lemma_prefix_len, lemma_prefix_len_unique, non_newline, prefix_len};
use vstd::prelude::*;

verus! {

/// Whether `line` is a line of the field `tag`.
pub open spec fn tagged(line: Seq<char>, tag: char) -> bool {
    line.len() > 0 && line[0] == tag
}

/// Whether one of the first `h` lines of `block` is a line of the field
/// `tag`.
pub open spec fn names(block: Seq<Seq<char>>, h: int, tag: char) -> bool {
    exists|i: int| 0 <= i < h && tagged(#[trigger] block[i], tag)
}

/// Whether the first `h` lines of `block` name a user id for the process
/// they name: whether a `u` line stands among them behind a `p` line.
pub open spec fn names_user_id(block: Seq<Seq<char>>, h: int) -> bool {
    exists|i: int, j: int|
        0 <= i < j < h && tagged(#[trigger] block[i], 'p') && tagged(#[trigger] block[j], 'u')
}

/// Whether the first `h` lines of `block` are a full header: they name a
/// process id, a command and a user, and report no socket. The user is named
/// by a login name, or by a user id behind the process id.
pub open spec fn headed(block: Seq<Seq<char>>, h: int) -> bool {
    &&& 0 <= h <= block.len()
    &&& names(block, h, 'p')
    &&& names(block, h, 'c')
    &&& (names(block, h, 'L') || names_user_id(block, h))
    &&& forall|i: int| 0 <= i < h ==> !tagged(#[trigger] block[i], 'n')
}

/// Whether `block` is a complete process block: it starts with a full
/// header.
pub open spec fn complete_block(block: Seq<Seq<char>>) -> bool {
    exists|h: int| headed(block, h)
}

/// What is known after `lines`, when `state` is known before the first of
/// them.
pub open spec fn after_lines(state: Running, lines: Seq<Seq<char>>) -> Running
    decreases lines.len(),
{
    if lines.len() == 0 {
        state
    } else {
        after_lines(after_line(state, lines[0]), lines.skip(1))
    }
}

/// The listeners that `lines` report, each once, in ascending order of port
/// and process id.
pub open spec fn listeners_of_lines(lines: Seq<Seq<char>>) -> Seq<ListenerView> {
    sorted(first_occurrences(records_from(nothing_known(), lines)))
}

/// The lines of a text that ends with a line feed, followed by another
/// text, are the lines of the one and then the lines of the other.
pub proof fn lemma_lines_of_texts(a: Seq<char>, b: Seq<char>)
    requires
        a.len() == 0 || a.last() == '\n',
    ensures
        lines(a + b) == lines(a) + lines(b),
    decreases a.len(),
{
    if a.len() == 0 {
        assert(a + b =~= b);
        assert(lines(a) + lines(b) =~= lines(b));
    } else {
        let s = a + b;
        lemma_prefix_len(a, non_newline());
        let n = prefix_len(a, non_newline()) as int;
        assert(n < a.len()) by {
            if n == a.len() {
                assert(non_newline()(a[a.len() - 1]));
            }
        }
        assert forall|i: int| 0 <= i < n implies non_newline()(#[trigger] s[i]) by {
            assert(s[i] == a[i]);
        }
        assert(s[n] == a[n]);
        lemma_prefix_len_unique(s, non_newline(), n);
        let rest = a.skip(n + 1);
        assert(s.take(n) =~= a.take(n));
        assert(s.skip(n + 1) =~= rest + b);
        if rest.len() > 0 {
            assert(rest.last() == a.last());
        }
        lemma_lines_of_texts(rest, b);
        assert(lines(s) =~= seq![without_cr(a.take(n))] + (lines(rest) + lines(b)));
        assert(lines(a) =~= seq![without_cr(a.take(n))] + lines(rest));
        assert(lines(s) =~= lines(a) + lines(b));
    }
}

/// The listeners that two runs of lines report are those of the first run
/// and then those of the second, read with what the first run left known.
pub proof fn lemma_records_of_runs(state: Running, x: Seq<Seq<char>>, y: Seq<Seq<char>>)
    ensures
        records_from(state, x + y) == records_from(state, x) + records_from(
            after_lines(state, x),
            y,
        ),
    decreases x.len(),
{
    if x.len() == 0 {
        assert(x + y =~= y);
        assert(records_from(state, x) + records_from(state, y) =~= records_from(state, y));
    } else {
        let next = after_line(state, x[0]);
        lemma_records_of_runs(next, x.skip(1), y);
        assert((x + y).skip(1) =~= x.skip(1) + y);
        assert((x + y)[0] == x[0]);
        let tail = records_from(next, x.skip(1));
        let last = records_from(after_lines(next, x.skip(1)), y);
        match record_of_line(state, x[0]) {
            Some(record) => {
                assert(seq![record] + (tail + last) =~= (seq![record] + tail) + last);
            },
            None => {},
        }
    }
}

/// Whether two readers agree on the user and on whether the process has
/// named a login name.
spec fn agreed(s1: Running, s2: Running) -> bool {
    s1.login == s2.login && s1.user == s2.user
}

/// Whether two readers will agree on the user once the process names one:
/// they agree on whether it has named a login name, and on the user unless
/// a user id may still name it.
spec fn started(s1: Running, s2: Running) -> bool {
    s1.login == s2.login && (s1.user == s2.user || !s1.login)
}

/// What is known after lines that name a field does not depend on what was
/// known of that field before them. The user is named by a login name, or
/// by a user id behind a process id; a process id alone leaves two readers
/// so that the next line that names the user makes them agree on it.
proof fn lemma_header_decides(s1: Running, s2: Running, x: Seq<Seq<char>>, h: int)
    requires
        0 <= h <= x.len(),
    ensures
        s1.pid == s2.pid || names(x, h, 'p') ==> after_lines(s1, x.take(h)).pid == after_lines(
            s2,
            x.take(h),
        ).pid,
        s1.command == s2.command || names(x, h, 'c') ==> after_lines(s1, x.take(h)).command
            == after_lines(s2, x.take(h)).command,
        started(s1, s2) || names(x, h, 'p') ==> started(
            after_lines(s1, x.take(h)),
            after_lines(s2, x.take(h)),
        ),
        agreed(s1, s2) || names(x, h, 'L') || names_user_id(x, h) || (started(s1, s2) && names(
            x,
            h,
            'u',
        )) ==> agreed(after_lines(s1, x.take(h)), after_lines(s2, x.take(h))),
    decreases h,
{
    if h > 0 {
        let head = x.take(h);
        let n1 = after_line(s1, x[0]);
        let n2 = after_line(s2, x[0]);
        let rest = x.skip(1);
        assert(head[0] == x[0]);
        assert(head.skip(1) =~= rest.take(h - 1));
        lemma_header_decides(n1, n2, rest, h - 1);
        lemma_names_later(x, h, 'p');
        lemma_names_later(x, h, 'c');
        lemma_names_later(x, h, 'L');
        lemma_names_later(x, h, 'u');
        lemma_names_user_id_later(x, h);
        assert(agreed(s1, s2) ==> agreed(n1, n2));
        assert(started(s1, s2) ==> started(n1, n2));
        assert(tagged(x[0], 'p') ==> started(n1, n2));
        assert(tagged(x[0], 'L') ==> agreed(n1, n2));
        assert(started(s1, s2) && tagged(x[0], 'u') ==> agreed(n1, n2));
    }
}

/// A user id that the first `h` lines name behind a process id stands behind
/// the first line, which names the process id, or the lines after the first
/// name both.
proof fn lemma_names_user_id_later(x: Seq<Seq<char>>, h: int)
    requires
        0 < h <= x.len(),
    ensures
        names_user_id(x, h) ==> (tagged(x[0], 'p') && names(x.skip(1), h - 1, 'u'))
            || names_user_id(x.skip(1), h - 1),
{
    if names_user_id(x, h) {
        let (i, j) = choose|i: int, j: int|
            0 <= i < j < h && tagged(#[trigger] x[i], 'p') && tagged(#[trigger] x[j], 'u');
        assert(x.skip(1)[j - 1] == x[j]);
        if i > 0 {
            assert(x.skip(1)[i - 1] == x[i]);
        }
    }
}

/// A field that the first `h` lines name is named by the first line or by
/// the lines after it.
proof fn lemma_names_later(x: Seq<Seq<char>>, h: int, tag: char)
    requires
        0 < h <= x.len(),
    ensures
        names(x, h, tag) ==> tagged(x[0], tag) || names(x.skip(1), h - 1, tag),
{
    if names(x, h, tag) {
        let i = choose|i: int| 0 <= i < h && tagged(#[trigger] x[i], tag);
        if i > 0 {
            assert(x.skip(1)[i - 1] == x[i]);
        }
    }
}

/// Lines that report no socket report no listener.
proof fn lemma_header_is_silent(state: Running, x: Seq<Seq<char>>)
    requires
        forall|i: int| 0 <= i < x.len() ==> !tagged(#[trigger] x[i], 'n'),
    ensures
        records_from(state, x) == Seq::<ListenerView>::empty(),
    decreases x.len(),
{
    if x.len() > 0 {
        assert(!tagged(x[0], 'n'));
        assert forall|i: int| 0 <= i < x.skip(1).len() implies !tagged(
            #[trigger] x.skip(1)[i],
            'n',
        ) by {
            assert(x.skip(1)[i] == x[i + 1]);
        }
        lemma_header_is_silent(after_line(state, x[0]), x.skip(1));
    }
}

/// A complete block reports the same listeners whatever was read before it.
pub proof fn lemma_block_stands_alone(s1: Running, s2: Running, block: Seq<Seq<char>>)
    requires
        complete_block(block),
    ensures
        records_from(s1, block) == records_from(s2, block),
{
    let h = choose|h: int| headed(block, h);
    let head = block.take(h);
    let body = block.skip(h);
    assert(block =~= head + body);
    lemma_records_of_runs(s1, head, body);
    lemma_records_of_runs(s2, head, body);
    assert forall|i: int| 0 <= i < head.len() implies !tagged(#[trigger] head[i], 'n') by {
        assert(head[i] == block[i]);
    }
    lemma_header_is_silent(s1, head);
    lemma_header_is_silent(s2, head);
    lemma_header_decides(s1, s2, block, h);
    let a1 = after_lines(s1, head);
    let a2 = after_lines(s2, head);
    assert(a1 == a2);
}

/// Two complete process blocks report the same listeners in either order.
pub proof fn lemma_blocks_commute(b1: Seq<Seq<char>>, b2: Seq<Seq<char>>)
    requires
        complete_block(b1),
        complete_block(b2),
    ensures
        forall|l: ListenerView|
            listeners_of_lines(b1 + b2).contains(l) <==> listeners_of_lines(b2 + b1).contains(l),
        aggregated(listeners_of_lines(b1 + b2)) == aggregated(listeners_of_lines(b2 + b1)),
{
    let start = nothing_known();
    let r1 = records_from(start, b1);
    let r2 = records_from(start, b2);
    lemma_records_of_runs(start, b1, b2);
    lemma_records_of_runs(start, b2, b1);
    lemma_block_stands_alone(after_lines(start, b1), start, b2);
    lemma_block_stands_alone(after_lines(start, b2), start, b1);
    let forth = records_from(start, b1 + b2);
    let back = records_from(start, b2 + b1);
    assert(forth == r1 + r2);
    assert(back == r2 + r1);
    lemma_reported(forth);
    lemma_reported(back);
    assert forall|l: ListenerView|
        listeners_of_lines(b1 + b2).contains(l) <==> listeners_of_lines(b2 + b1).contains(l) by {
        if forth.contains(l) {
            let i = choose|i: int| 0 <= i < forth.len() && forth[i] == l;
            if i < r1.len() {
                assert(back[r2.len() + i] == l);
            } else {
                assert(back[i - r1.len()] == l);
            }
        }
        if back.contains(l) {
            let i = choose|i: int| 0 <= i < back.len() && back[i] == l;
            if i < r2.len() {
                assert(forth[r1.len() + i] == l);
            } else {
                assert(forth[i - r2.len()] == l);
            }
        }
    }
    lemma_aggregation_ignores_order(listeners_of_lines(b1 + b2), listeners_of_lines(b2 + b1));
}

/// Two texts that end with a line feed, each a complete process block,
/// parse to the same listeners in either order, and so to the same logical
/// listeners.
pub proof fn lemma_block_texts_commute(a: Seq<char>, b: Seq<char>)
    requires
        a.len() == 0 || a.last() == '\n',
        b.len() == 0 || b.last() == '\n',
        complete_block(lines(a)),
        complete_block(lines(b)),
    ensures
        forall|l: ListenerView|
            lsof_listeners(a + b).contains(l) <==> lsof_listeners(b + a).contains(l),
        aggregated(lsof_listeners(a + b)) == aggregated(lsof_listeners(b + a)),
{
    lemma_lines_of_texts(a, b);
    lemma_lines_of_texts(b, a);
    lemma_blocks_commute(lines(a), lines(b));
}

} // verus!
