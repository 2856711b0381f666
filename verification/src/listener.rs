//! One observed listening socket, and the order and uniqueness of a list of
//! them.

use vstd::prelude::*;

verus! {

/// One observation of a process that holds a listening TCP socket.
#[derive(Debug, Clone, PartialEq, Eq, Hash)]
pub struct Listener {
    /// The port listened on.
    pub port: u16,
    /// The owning process, where the tool could tell.
    pub pid: Option<u32>,
    /// The name of the process, as far as the tool printed it.
    pub command: String,
    /// The owning user, or a placeholder.
    pub user: String,
    /// The socket address as the tool printed it.
    pub endpoint: String,
}

/// A `Listener` with its strings as sequences of characters.
pub struct ListenerView {
    pub port: u16,
    pub pid: Option<u32>,
    pub command: Seq<char>,
    pub user: Seq<char>,
    pub endpoint: Seq<char>,
}

impl View for Listener {
    type V = ListenerView;

    open spec fn view(&self) -> ListenerView {
        ListenerView {
            port: self.port,
            pid: self.pid,
            command: self.command@,
            user: self.user@,
            endpoint: self.endpoint@,
        }
    }
}

/// The views of a sequence of listeners.
pub open spec fn listener_views(s: Seq<Listener>) -> Seq<ListenerView> {
    s.map_values(|l: Listener| l@)
}

/// The process id by which listeners are ordered: zero where there is none.
pub open spec fn pid_or_zero(pid: Option<u32>) -> int {
    match pid {
        Some(p) => p as int,
        None => 0,
    }
}

/// Whether `a` comes before `b` by port and then by process id.
pub open spec fn before(a: ListenerView, b: ListenerView) -> bool {
    a.port < b.port || (a.port == b.port && pid_or_zero(a.pid) < pid_or_zero(b.pid))
}

/// Whether no listener of `s` comes before an earlier one.
pub open spec fn ordered(s: Seq<ListenerView>) -> bool {
    forall|i: int, j: int| 0 <= i < j < s.len() ==> !before(#[trigger] s[j], #[trigger] s[i])
}

/// `s` without the repetitions: of equal items only the first stays.
pub open spec fn first_occurrences<A>(s: Seq<A>) -> Seq<A>
    decreases s.len(),
{
    if s.len() == 0 {
        s
    } else {
        let init = first_occurrences(s.drop_last());
        if init.contains(s.last()) {
            init
        } else {
            init.push(s.last())
        }
    }
}

/// The ordered sequence `s` with `x` put behind the last item that `x` does
/// not come before.
pub open spec fn inserted(s: Seq<ListenerView>, x: ListenerView) -> Seq<ListenerView>
    decreases s.len(),
{
    if s.len() > 0 && before(x, s.last()) {
        inserted(s.drop_last(), x).push(s.last())
    } else {
        s.push(x)
    }
}

/// `s` in ascending order of port and process id. Listeners that agree in
/// both keep the order they have in `s`.
pub open spec fn sorted(s: Seq<ListenerView>) -> Seq<ListenerView>
    decreases s.len(),
{
    if s.len() == 0 {
        s
    } else {
        inserted(sorted(s.drop_last()), s.last())
    }
}

/// `first_occurrences(s)` holds what `s` holds, each item once.
pub proof fn lemma_first_occurrences<A>(s: Seq<A>)
    ensures
        first_occurrences(s).no_duplicates(),
        forall|x: A|
            #![trigger first_occurrences(s).contains(x)]
            #![trigger s.contains(x)]
            first_occurrences(s).contains(x) <==> s.contains(x),
    decreases s.len(),
{
    if s.len() > 0 {
        let init = first_occurrences(s.drop_last());
        let last = s.last();
        lemma_first_occurrences(s.drop_last());
        let out = first_occurrences(s);
        assert forall|x: A|
            #![trigger out.contains(x)]
            #![trigger s.contains(x)]
            out.contains(x) <==> s.contains(x) by {
            if out.contains(x) {
                let i = choose|i: int| 0 <= i < out.len() && out[i] == x;
                if i < init.len() {
                    assert(init.contains(x));
                    let j = choose|j: int| 0 <= j < s.drop_last().len() && s.drop_last()[j] == x;
                    assert(s[j] == x);
                } else {
                    assert(s[s.len() - 1] == x);
                }
            }
            if s.contains(x) {
                let j = choose|j: int| 0 <= j < s.len() && s[j] == x;
                if j < s.len() - 1 {
                    assert(s.drop_last()[j] == x);
                    assert(init.contains(x));
                    let i = choose|i: int| 0 <= i < init.len() && init[i] == x;
                    assert(out[i] == x);
                } else if !init.contains(last) {
                    assert(out[out.len() - 1] == x);
                }
            }
        }
    }
}

/// Where `inserted` puts `x`: at the one place `k` with `x` before every
/// later item and not before the item just ahead.
pub proof fn lemma_inserted_at(s: Seq<ListenerView>, x: ListenerView, k: int)
    requires
        0 <= k <= s.len(),
        forall|j: int| k <= j < s.len() ==> before(x, #[trigger] s[j]),
        k > 0 ==> !before(x, s[k - 1]),
    ensures
        inserted(s, x) == s.insert(k, x),
    decreases s.len(),
{
    if k == s.len() {
        assert(s.insert(k, x) =~= s.push(x));
    } else {
        assert(before(x, s.last()));
        let init = s.drop_last();
        assert forall|j: int| k <= j < init.len() implies before(x, #[trigger] init[j]) by {
            assert(init[j] == s[j]);
        }
        lemma_inserted_at(init, x, k);
        assert(init.insert(k, x).push(s.last()) =~= s.insert(k, x));
    }
}

/// Putting `x` into an ordered sequence leaves it ordered, and adds `x` to
/// what it holds and nothing else.
pub proof fn lemma_inserted(s: Seq<ListenerView>, x: ListenerView)
    requires
        ordered(s),
    ensures
        ordered(inserted(s, x)),
        inserted(s, x).to_multiset() == s.to_multiset().insert(x),
        inserted(s, x).len() == s.len() + 1,
    decreases s.len(),
{
    broadcast use vstd::seq_lib::group_to_multiset_ensures;

    if s.len() > 0 && before(x, s.last()) {
        let init = s.drop_last();
        let last = s.last();
        lemma_inserted(init, x);
        let mid = inserted(init, x);
        let out = mid.push(last);
        assert(s =~= init.push(last));
        assert(out.to_multiset() =~= s.to_multiset().insert(x));
        assert forall|i: int, j: int| 0 <= i < j < out.len() implies !before(
            #[trigger] out[j],
            #[trigger] out[i],
        ) by {
            if j < mid.len() {
                assert(out[i] == mid[i] && out[j] == mid[j]);
            } else {
                assert(mid.to_multiset().count(mid[i]) > 0);
                if mid[i] != x {
                    assert(init.to_multiset().count(mid[i]) > 0);
                    assert(init.contains(mid[i]));
                    let m = choose|m: int| 0 <= m < init.len() && init[m] == mid[i];
                    assert(s[m] == mid[i]);
                    assert(!before(s[s.len() - 1], s[m]));
                }
            }
        }
    } else {
        let out = s.push(x);
        assert forall|i: int, j: int| 0 <= i < j < out.len() implies !before(
            #[trigger] out[j],
            #[trigger] out[i],
        ) by {
            if j < s.len() {
                assert(out[i] == s[i] && out[j] == s[j]);
            } else if s.len() > 0 {
                assert(out[i] == s[i]);
                assert(!before(s[s.len() - 1], s[i]));
            }
        }
    }
}

/// `sorted(s)` is ordered and holds exactly what `s` holds, each item as
/// often.
pub proof fn lemma_sorted(s: Seq<ListenerView>)
    ensures
        ordered(sorted(s)),
        sorted(s).to_multiset() == s.to_multiset(),
        sorted(s).len() == s.len(),
    decreases s.len(),
{
    broadcast use vstd::seq_lib::group_to_multiset_ensures;

    if s.len() > 0 {
        lemma_sorted(s.drop_last());
        lemma_inserted(sorted(s.drop_last()), s.last());
        assert(s =~= s.drop_last().push(s.last()));
    }
}

/// What a parser reports of the records it found: it puts them in order
/// and leaves out repetitions, and neither adds nor loses a listener.
pub proof fn lemma_reported(records: Seq<ListenerView>)
    ensures
        ordered(sorted(first_occurrences(records))),
        sorted(first_occurrences(records)).no_duplicates(),
        forall|l: ListenerView|
            sorted(first_occurrences(records)).contains(l) <==> records.contains(l),
{
    broadcast use vstd::seq_lib::group_to_multiset_ensures;

    let unique = first_occurrences(records);
    lemma_first_occurrences(records);
    lemma_sorted(unique);
    unique.lemma_multiset_has_no_duplicates();
    sorted(unique).lemma_multiset_has_no_duplicates_conv();
    assert forall|l: ListenerView| sorted(unique).contains(l) <==> records.contains(l) by {
        assert(sorted(unique).contains(l) <==> sorted(unique).to_multiset().count(l) > 0);
        assert(unique.contains(l) <==> unique.to_multiset().count(l) > 0);
    }
}

/// Tells whether two listeners agree in every field.
pub fn same_listener(a: &Listener, b: &Listener) -> (r: bool)
    ensures
        r == (a@ == b@),
{
    let pids = match (a.pid, b.pid) {
        (Some(x), Some(y)) => x == y,
        (None, None) => true,
        _ => false,
    };
    a.port == b.port && pids && a.command == b.command && a.user == b.user && a.endpoint
        == b.endpoint
}

/// Tells whether `list` holds a listener that agrees with `x` in every field.
pub fn holds_listener(list: &Vec<Listener>, x: &Listener) -> (r: bool)
    ensures
        r == listener_views(list@).contains(x@),
{
    let mut i: usize = 0;
    while i < list.len()
        invariant
            i <= list.len(),
            forall|j: int| 0 <= j < i ==> listener_views(list@)[j] != x@,
        decreases list.len() - i,
    {
        if same_listener(&list[i], x) {
            assert(listener_views(list@)[i as int] == x@);
            return true;
        }
        i += 1;
    }
    false
}

/// Tells whether `a` comes before `b` by port and then by process id.
pub fn comes_before(a: &Listener, b: &Listener) -> (r: bool)
    ensures
        r == before(a@, b@),
{
    let pa: u32 = match a.pid {
        Some(p) => p,
        None => 0,
    };
    let pb: u32 = match b.pid {
        Some(p) => p,
        None => 0,
    };
    a.port < b.port || (a.port == b.port && pa < pb)
}

/// Sorts by port and then by process id, zero standing for an unknown one.
/// Listeners that agree in both keep their order.
pub fn sort_listeners(list: &mut Vec<Listener>)
    ensures
        listener_views(final(list)@) == sorted(listener_views(old(list)@)),
{
    let ghost start = listener_views(list@);
    let mut i: usize = 0;
    assert(start.take(0) =~= Seq::<ListenerView>::empty());
    assert(start.skip(0) =~= start);
    while i < list.len()
        invariant
            i <= list.len(),
            list.len() == start.len(),
            listener_views(list@) == sorted(start.take(i as int)) + start.skip(i as int),
            sorted(start.take(i as int)).len() == i,
            ordered(sorted(start.take(i as int))),
        decreases list.len() - i,
    {
        let ghost done = sorted(start.take(i as int));
        let ghost all = listener_views(list@);
        let x = list.remove(i);
        assert(x@ == start[i as int]) by {
            assert(all[i as int] == start.skip(i as int)[0]);
        }
        assert(listener_views(list@) =~= done + start.skip(i + 1)) by {
            assert(listener_views(list@) =~= all.remove(i as int));
        }
        let mut k: usize = i;
        while k > 0 && comes_before(&x, &list[k - 1])
            invariant
                k <= i < start.len(),
                list.len() == start.len() - 1,
                listener_views(list@) == done + start.skip(i + 1),
                done.len() == i,
                forall|j: int| k <= j < i ==> before(x@, #[trigger] done[j]),
            decreases k,
        {
            assert(listener_views(list@)[k - 1] == done[k - 1]);
            k -= 1;
        }
        proof {
            if k > 0 {
                assert(listener_views(list@)[k - 1] == done[k - 1]);
            }
            lemma_inserted_at(done, x@, k as int);
            lemma_inserted(done, x@);
            assert(start.take(i + 1).drop_last() =~= start.take(i as int));
        }
        let ghost rest = listener_views(list@);
        list.insert(k, x);
        proof {
            assert(listener_views(list@) =~= rest.insert(k as int, x@));
            assert(rest.insert(k as int, x@) =~= done.insert(k as int, x@) + start.skip(i + 1));
        }
        i += 1;
    }
    assert(start.take(start.len() as int) =~= start);
    assert(sorted(start) + start.skip(start.len() as int) =~= sorted(start));
}

} // verus!
