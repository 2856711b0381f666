//! Splitting text into lines and into white-space separated words, and
//! joining words again.

use crate::text::{
    is_space, is_whitespace, lemma_prefix_len, lemma_prefix_len_unique, non_newline, non_space,
    prefix_len, space, string_views, subvec, views,
};
use vstd::prelude::*;

verus! {

/// `line` without the carriage return that ends it, if one does.
pub open spec fn without_cr(line: Seq<char>) -> Seq<char> {
    if line.len() > 0 && line.last() == '\r' {
        line.drop_last()
    } else {
        line
    }
}

/// The lines of `s`. A line ends with a line feed, or with a carriage return
/// and a line feed, neither of which belongs to it. What follows the last
/// line feed is a line too unless it is empty, and it keeps a carriage return
/// that ends it.
pub open spec fn lines(s: Seq<char>) -> Seq<Seq<char>>
    decreases s.len(),
    via lines_decreases
{
    let n = prefix_len(s, non_newline()) as int;
    if s.len() == 0 {
        seq![]
    } else if n == s.len() {
        seq![s]
    } else {
        seq![without_cr(s.take(n))] + lines(s.skip(n + 1))
    }
}

#[via_fn]
proof fn lines_decreases(s: Seq<char>) {
    lemma_prefix_len(s, non_newline());
}

/// The words of `s`: its longest runs of characters that are not white space,
/// in order.
pub open spec fn tokens(s: Seq<char>) -> Seq<Seq<char>>
    decreases s.len(),
    via tokens_decreases
{
    let t = s.skip(prefix_len(s, space()) as int);
    let n = prefix_len(t, non_space()) as int;
    if t.len() == 0 {
        seq![]
    } else {
        seq![t.take(n)] + tokens(t.skip(n))
    }
}

#[via_fn]
proof fn tokens_decreases(s: Seq<char>) {
    lemma_prefix_len(s, space());
    let t = s.skip(prefix_len(s, space()) as int);
    lemma_prefix_len(t, non_space());
    if t.len() > 0 {
        assert(prefix_len(t, non_space()) > 0);
    }
}

/// `parts` written one after the other with `sep` between each two.
pub open spec fn joined(parts: Seq<Seq<char>>, sep: Seq<char>) -> Seq<char>
    decreases parts.len(),
{
    if parts.len() == 0 {
        seq![]
    } else if parts.len() == 1 {
        parts[0]
    } else {
        joined(parts.drop_last(), sep) + sep + parts.last()
    }
}

/// Splits `chars` into its lines.
pub fn split_lines(chars: &Vec<char>) -> (out: Vec<Vec<char>>)
    ensures
        views(out@) == lines(chars@),
{
    let mut out: Vec<Vec<char>> = Vec::new();
    let mut pos: usize = 0;
    let len = chars.len();
    assert(chars@.skip(0) =~= chars@);
    while pos < len
        invariant
            pos <= len == chars.len(),
            lines(chars@) == views(out@) + lines(chars@.skip(pos as int)),
        decreases len - pos,
    {
        let mut end: usize = pos;
        while end < len && chars[end] != '\n'
            invariant
                pos <= end <= len == chars.len(),
                forall|i: int| pos <= i < end ==> chars@[i] != '\n',
            decreases len - end,
        {
            end += 1;
        }
        let ghost rest = chars@.skip(pos as int);
        let ghost done = views(out@);
        proof {
            assert forall|i: int| 0 <= i < end - pos implies non_newline()(#[trigger] rest[i]) by {
                assert(rest[i] == chars@[pos + i]);
            }
            lemma_prefix_len_unique(rest, non_newline(), end - pos);
        }
        if end == len {
            let line = subvec(chars, pos, len);
            out.push(line);
            proof {
                assert(line@ =~= rest);
                assert(views(out@) =~= done.push(rest));
                assert(chars@.skip(len as int) =~= Seq::<char>::empty());
                assert(lines(chars@.skip(len as int)) =~= Seq::<Seq<char>>::empty());
                assert(lines(rest) =~= seq![rest]);
            }
            pos = len;
        } else {
            let stop = if end > pos && chars[end - 1] == '\r' {
                end - 1
            } else {
                end
            };
            let line = subvec(chars, pos, stop);
            out.push(line);
            proof {
                let whole = rest.take(end - pos);
                assert(whole =~= chars@.subrange(pos as int, end as int));
                assert(line@ =~= without_cr(whole));
                assert(views(out@) =~= done.push(without_cr(whole)));
                assert(rest.skip(end - pos + 1) =~= chars@.skip(end + 1));
                assert(lines(rest) =~= seq![without_cr(whole)] + lines(chars@.skip(end + 1)));
            }
            pos = end + 1;
        }
    }
    proof {
        assert(chars@.skip(len as int) =~= Seq::<char>::empty());
    }
    out
}

/// Splits `line` into its words.
pub fn split_tokens(line: &Vec<char>) -> (out: Vec<Vec<char>>)
    ensures
        views(out@) == tokens(line@),
{
    let mut out: Vec<Vec<char>> = Vec::new();
    let mut pos: usize = 0;
    let len = line.len();
    assert(line@.skip(0) =~= line@);
    while pos < len
        invariant
            pos <= len == line.len(),
            tokens(line@) == views(out@) + tokens(line@.skip(pos as int)),
        decreases len - pos,
    {
        let mut start: usize = pos;
        while start < len && is_whitespace(line[start])
            invariant
                pos <= start <= len == line.len(),
                forall|i: int| pos <= i < start ==> is_space(line@[i]),
            decreases len - start,
        {
            start += 1;
        }
        let mut end: usize = start;
        while end < len && !is_whitespace(line[end])
            invariant
                start <= end <= len == line.len(),
                forall|i: int| start <= i < end ==> !is_space(line@[i]),
            decreases len - end,
        {
            end += 1;
        }
        let ghost rest = line@.skip(pos as int);
        let ghost done = views(out@);
        proof {
            assert forall|i: int| 0 <= i < start - pos implies space()(#[trigger] rest[i]) by {
                assert(rest[i] == line@[pos + i]);
            }
            lemma_prefix_len_unique(rest, space(), start - pos);
            let t = rest.skip(start - pos);
            assert(t =~= line@.skip(start as int));
            assert forall|i: int| 0 <= i < end - start implies non_space()(#[trigger] t[i]) by {
                assert(t[i] == line@[start + i]);
            }
            lemma_prefix_len_unique(t, non_space(), end - start);
            assert(t.skip(end - start) =~= line@.skip(end as int));
            assert(t.take(end - start) =~= line@.subrange(start as int, end as int));
        }
        if start < len {
            let word = subvec(line, start, end);
            out.push(word);
            proof {
                assert(views(out@) =~= done.push(word@));
                assert(tokens(rest) =~= seq![word@] + tokens(line@.skip(end as int)));
            }
        } else {
            proof {
                assert(tokens(rest) =~= Seq::<Seq<char>>::empty());
                assert(tokens(line@.skip(end as int)) =~= Seq::<Seq<char>>::empty());
            }
        }
        pos = end;
    }
    proof {
        assert(line@.skip(len as int) =~= Seq::<char>::empty());
    }
    out
}

/// Writes `parts[from..]` one after the other with `sep` between each two.
pub(crate) fn join_from(parts: &Vec<Vec<char>>, from: usize, sep: &Vec<char>) -> (out: Vec<char>)
    requires
        from <= parts.len(),
    ensures
        out@ == joined(views(parts@).skip(from as int), sep@),
{
    let mut out: Vec<char> = Vec::new();
    let mut i: usize = from;
    let ghost all = views(parts@).skip(from as int);
    assert(all.take(0) =~= Seq::<Seq<char>>::empty());
    while i < parts.len()
        invariant
            from <= i <= parts.len(),
            all == views(parts@).skip(from as int),
            out@ == joined(all.take(i - from), sep@),
        decreases parts.len() - i,
    {
        let ghost before = out@;
        if i > from {
            let mut k: usize = 0;
            while k < sep.len()
                invariant
                    k <= sep.len(),
                    out@ == before + sep@.take(k as int),
                decreases sep.len() - k,
            {
                out.push(sep[k]);
                k += 1;
            }
            assert(sep@.take(sep.len() as int) =~= sep@);
        }
        let ghost middle = out@;
        let part = &parts[i];
        let mut k: usize = 0;
        while k < part.len()
            invariant
                k <= part.len(),
                out@ == middle + part@.take(k as int),
            decreases part.len() - k,
        {
            out.push(part[k]);
            k += 1;
        }
        proof {
            assert(part@.take(part.len() as int) =~= part@);
            let next = all.take(i + 1 - from);
            assert(next.drop_last() =~= all.take(i - from));
            assert(next.last() == part@);
            if i == from {
                assert(out@ =~= part@);
            }
        }
        i += 1;
    }
    assert(all.take(parts.len() - from) =~= all);
    out
}

/// Writes `parts` one after the other with `sep` between each two.
pub fn join_strings(parts: &Vec<String>, sep: &str) -> (out: String)
    ensures
        out@ == joined(string_views(parts@), sep@),
{
    let mut out = String::new();
    let mut i: usize = 0;
    let ghost all = string_views(parts@);
    assert(all.take(0) =~= Seq::<Seq<char>>::empty());
    while i < parts.len()
        invariant
            i <= parts.len(),
            all == string_views(parts@),
            out@ == joined(all.take(i as int), sep@),
        decreases parts.len() - i,
    {
        let ghost before = out@;
        if i > 0 {
            out.append(sep);
        }
        out.append(parts[i].as_str());
        proof {
            let next = all.take(i + 1);
            assert(next.drop_last() =~= all.take(i as int));
            assert(next.last() == parts@[i as int]@);
            if i == 0 {
                assert(out@ =~= parts@[i as int]@);
            }
        }
        i += 1;
    }
    assert(all.take(parts.len() as int) =~= all);
    out
}

} // verus!
