//! Merging the sockets of one process on one port into one logical listener.

use crate::grouping::{key_of_aggregated, key_order, lemma_aggregated};
use crate::listener::{listener_views, pid_or_zero, Listener, ListenerView};
use crate::order::{
    ascending, compare_text, lemma_text_less_irreflexive, text_less, text_order, Rank,
};
use crate::role::{infer_role, inferred_role, Role, RoleView};
use crate::text::{
    chars_of, lemma_prefix_len, lemma_prefix_len_unique, prefix_len, string_of, string_views,
    views,
};
use vstd::prelude::*;

verus! {

/// One logical service: every socket address that one process, named by
/// port, process id, command and user, listens on.
#[derive(Debug, Clone)]
pub struct AggregatedListener {
    /// The port listened on.
    pub port: u16,
    /// The owning process, where known.
    pub pid: Option<u32>,
    /// The name of the process.
    pub command: String,
    /// The owning user, or a placeholder.
    pub user: String,
    /// The least of `endpoints`, for those who want one address.
    pub endpoint: String,
    /// Every socket address of the listener, in ascending order, each once.
    pub endpoints: Vec<String>,
    /// What the listener is taken to be for.
    pub role: Role,
}

/// An `AggregatedListener` with its strings as sequences of characters.
pub struct AggregatedView {
    pub port: u16,
    pub pid: Option<u32>,
    pub command: Seq<char>,
    pub user: Seq<char>,
    pub endpoint: Seq<char>,
    pub endpoints: Seq<Seq<char>>,
    pub role: RoleView,
}

impl View for AggregatedListener {
    type V = AggregatedView;

    open spec fn view(&self) -> AggregatedView {
        AggregatedView {
            port: self.port,
            pid: self.pid,
            command: self.command@,
            user: self.user@,
            endpoint: self.endpoint@,
            endpoints: string_views(self.endpoints@),
            role: self.role@,
        }
    }
}

/// The views of a sequence of aggregated listeners.
pub open spec fn aggregated_views(s: Seq<AggregatedListener>) -> Seq<AggregatedView> {
    s.map_values(|a: AggregatedListener| a@)
}

/// Whether a logical listener is as an aggregation leaves it: it has at
/// least one address, its addresses stand in ascending order, so that none
/// is repeated, its primary address is the least of them, and its role goes
/// by its port and command.
pub open spec fn well_formed(a: AggregatedView) -> bool {
    &&& a.endpoints.len() > 0
    &&& ascending(a.endpoints, text_order())
    &&& a.endpoint == a.endpoints[0]
    &&& a.role == inferred_role(a.port, a.command)
}

/// What listeners are grouped by.
pub struct GroupKey {
    pub port: u16,
    pub pid: Option<u32>,
    pub command: Seq<char>,
    pub user: Seq<char>,
}

/// The key of the group that `l` belongs to.
pub open spec fn key_of(l: ListenerView) -> GroupKey {
    GroupKey { port: l.port, pid: l.pid, command: l.command, user: l.user }
}

/// The order of groups: by port, then by process id with zero for an
/// unknown one, then by command, then by user. Of two keys that differ only
/// in that one has no process id and the other has the process id zero, the
/// one without comes first.
pub open spec fn key_less(a: GroupKey, b: GroupKey) -> bool {
    if a.port != b.port {
        a.port < b.port
    } else if pid_or_zero(a.pid) != pid_or_zero(b.pid) {
        pid_or_zero(a.pid) < pid_or_zero(b.pid)
    } else if a.command != b.command {
        text_less(a.command, b.command)
    } else if a.user != b.user {
        text_less(a.user, b.user)
    } else {
        a.pid is None && b.pid is Some
    }
}

/// A group while it is gathered: its key and the addresses found so far.
pub struct GroupView {
    pub key: GroupKey,
    pub endpoints: Seq<Seq<char>>,
}

/// The predicate "comes before `e` in the order of texts".
pub open spec fn below(e: Seq<char>) -> spec_fn(Seq<char>) -> bool {
    |x: Seq<char>| text_less(x, e)
}

/// The predicate "has a key that comes before `key`".
pub open spec fn ahead_of(key: GroupKey) -> spec_fn(GroupView) -> bool {
    |g: GroupView| key_less(g.key, key)
}

/// The ascending addresses `endpoints` with `e` at its place among them,
/// unless they hold it already.
pub open spec fn placed(endpoints: Seq<Seq<char>>, e: Seq<char>) -> Seq<Seq<char>> {
    let k = prefix_len(endpoints, below(e)) as int;
    if k < endpoints.len() && endpoints[k] == e {
        endpoints
    } else {
        endpoints.insert(k, e)
    }
}

/// The ascending groups `groups` with `l` taken in: its address joins the
/// group of its key, which is made at its place where there is none yet.
pub open spec fn with_listener(groups: Seq<GroupView>, l: ListenerView) -> Seq<GroupView> {
    let key = key_of(l);
    let k = prefix_len(groups, ahead_of(key)) as int;
    if k < groups.len() && groups[k].key == key {
        groups.update(k, GroupView { key, endpoints: placed(groups[k].endpoints, l.endpoint) })
    } else {
        groups.insert(k, GroupView { key, endpoints: seq![l.endpoint] })
    }
}

/// The groups of `listeners`, in ascending order of key.
pub open spec fn grouped(listeners: Seq<ListenerView>) -> Seq<GroupView>
    decreases listeners.len(),
{
    if listeners.len() == 0 {
        seq![]
    } else {
        with_listener(grouped(listeners.drop_last()), listeners.last())
    }
}

/// The logical listener that a gathered group stands for. Its primary
/// address is the least one, and its role goes by port and command.
pub open spec fn finished(g: GroupView) -> AggregatedView {
    AggregatedView {
        port: g.key.port,
        pid: g.key.pid,
        command: g.key.command,
        user: g.key.user,
        endpoint: g.endpoints[0],
        endpoints: g.endpoints,
        role: inferred_role(g.key.port, g.key.command),
    }
}

/// The logical listeners that `listeners` make up, in ascending order of
/// key.
pub open spec fn aggregated(listeners: Seq<ListenerView>) -> Seq<AggregatedView> {
    grouped(listeners).map_values(|g: GroupView| finished(g))
}

/// A group while it is gathered, its texts as characters.
struct Group {
    port: u16,
    pid: Option<u32>,
    command: Vec<char>,
    user: Vec<char>,
    endpoints: Vec<Vec<char>>,
}

impl View for Group {
    type V = GroupView;

    closed spec fn view(&self) -> GroupView {
        GroupView {
            key: GroupKey {
                port: self.port,
                pid: self.pid,
                command: self.command@,
                user: self.user@,
            },
            endpoints: views(self.endpoints@),
        }
    }
}

/// The views of a sequence of groups.
closed spec fn group_views(s: Seq<Group>) -> Seq<GroupView> {
    s.map_values(|g: Group| g@)
}

/// How the key of `g` stands to the key made of the other arguments.
fn key_rank(g: &Group, port: u16, pid: Option<u32>, command: &Vec<char>, user: &Vec<char>) -> (r:
    Rank)
    ensures
        r is Below <==> key_less(g@.key, GroupKey { port, pid, command: command@, user: user@ }),
        r is Same <==> g@.key == (GroupKey { port, pid, command: command@, user: user@ }),
{
    let mine: u32 = match g.pid {
        Some(p) => p,
        None => 0,
    };
    let other: u32 = match pid {
        Some(p) => p,
        None => 0,
    };
    if g.port != port {
        return if g.port < port {
            Rank::Below
        } else {
            Rank::Above
        };
    }
    if mine != other {
        return if mine < other {
            Rank::Below
        } else {
            Rank::Above
        };
    }
    match compare_text(&g.command, command) {
        Rank::Below => { return Rank::Below; },
        Rank::Above => { return Rank::Above; },
        Rank::Same => {},
    }
    match compare_text(&g.user, user) {
        Rank::Below => { return Rank::Below; },
        Rank::Above => { return Rank::Above; },
        Rank::Same => {},
    }
    match (g.pid, pid) {
        (None, Some(_)) => Rank::Below,
        (Some(_), None) => Rank::Above,
        _ => Rank::Same,
    }
}

/// Puts `e` at its place among the ascending `endpoints`, unless they hold
/// it already.
fn place_endpoint(endpoints: &mut Vec<Vec<char>>, e: Vec<char>)
    ensures
        views(final(endpoints)@) == placed(views(old(endpoints)@), e@),
{
    let ghost before = views(endpoints@);
    let mut k: usize = 0;
    let mut found = false;
    while k < endpoints.len()
        invariant_except_break
            !found,
        invariant
            k <= endpoints.len(),
            forall|j: int| 0 <= j < k ==> below(e@)(#[trigger] views(endpoints@)[j]),
        ensures
            k <= endpoints.len(),
            forall|j: int| 0 <= j < k ==> below(e@)(#[trigger] views(endpoints@)[j]),
            k < endpoints.len() ==> !below(e@)(views(endpoints@)[k as int]),
            found == (k < endpoints.len() && views(endpoints@)[k as int] == e@),
        decreases endpoints.len() - k,
    {
        match compare_text(&endpoints[k], &e) {
            Rank::Below => {
                k += 1;
            },
            Rank::Same => {
                found = true;
                proof {
                    lemma_text_less_irreflexive(e@);
                }
                break ;
            },
            Rank::Above => {
                break ;
            },
        }
    }
    proof {
        lemma_prefix_len_unique(before, below(e@), k as int);
    }
    if !found {
        endpoints.insert(k, e);
        assert(views(endpoints@) =~= before.insert(k as int, e@));
    }
}

/// Takes one listener into the ascending `groups`.
fn take_in(groups: &mut Vec<Group>, listener: &Listener)
    ensures
        group_views(final(groups)@) == with_listener(group_views(old(groups)@), listener@),
{
    let command = chars_of(listener.command.as_str());
    let user = chars_of(listener.user.as_str());
    let endpoint = chars_of(listener.endpoint.as_str());
    let ghost before = group_views(groups@);
    let ghost key = key_of(listener@);
    let mut k: usize = 0;
    let mut found = false;
    while k < groups.len()
        invariant_except_break
            !found,
        invariant
            k <= groups.len(),
            key == (GroupKey {
                port: listener.port,
                pid: listener.pid,
                command: command@,
                user: user@,
            }),
            forall|j: int| 0 <= j < k ==> ahead_of(key)(#[trigger] group_views(groups@)[j]),
        ensures
            k <= groups.len(),
            forall|j: int| 0 <= j < k ==> ahead_of(key)(#[trigger] group_views(groups@)[j]),
            k < groups.len() ==> !ahead_of(key)(group_views(groups@)[k as int]),
            found == (k < groups.len() && group_views(groups@)[k as int].key == key),
        decreases groups.len() - k,
    {
        match key_rank(&groups[k], listener.port, listener.pid, &command, &user) {
            Rank::Below => {
                k += 1;
            },
            Rank::Same => {
                found = true;
                proof {
                    lemma_text_less_irreflexive(key.command);
                    lemma_text_less_irreflexive(key.user);
                }
                break ;
            },
            Rank::Above => {
                break ;
            },
        }
    }
    proof {
        lemma_prefix_len_unique(before, ahead_of(key), k as int);
    }
    if found {
        let mut group = groups.remove(k);
        assert(group@ == before[k as int]);
        place_endpoint(&mut group.endpoints, endpoint);
        let ghost changed = group@;
        groups.insert(k, group);
        assert(group_views(groups@) =~= before.update(k as int, changed));
    } else {
        let mut endpoints: Vec<Vec<char>> = Vec::new();
        endpoints.push(endpoint);
        let group = Group { port: listener.port, pid: listener.pid, command, user, endpoints };
        assert(views(group.endpoints@) =~= seq![endpoint@]);
        let ghost made = group@;
        groups.insert(k, group);
        assert(group_views(groups@) =~= before.insert(k as int, made));
    }
}

/// Every group that `grouped` makes has an address.
pub proof fn lemma_grouped_have_endpoints(listeners: Seq<ListenerView>)
    ensures
        forall|i: int|
            0 <= i < grouped(listeners).len() ==> (#[trigger] grouped(listeners)[i]).endpoints.len()
                > 0,
    decreases listeners.len(),
{
    if listeners.len() > 0 {
        let init = grouped(listeners.drop_last());
        let l = listeners.last();
        let key = key_of(l);
        lemma_grouped_have_endpoints(listeners.drop_last());
        lemma_prefix_len(init, ahead_of(key));
        let k = prefix_len(init, ahead_of(key)) as int;
        let out = grouped(listeners);
        assert forall|i: int| 0 <= i < out.len() implies (#[trigger] out[i]).endpoints.len()
            > 0 by {
            if k < init.len() && init[k].key == key {
                if i == k {
                    lemma_prefix_len(init[k].endpoints, below(l.endpoint));
                } else {
                    assert(out[i] == init[i]);
                }
            } else {
                if i < k {
                    assert(out[i] == init[i]);
                } else if i > k {
                    assert(out[i] == init[i - 1]);
                }
            }
        }
    }
}

/// The logical listener that a gathered group stands for.
fn finish(group: &Group) -> (out: AggregatedListener)
    requires
        group@.endpoints.len() > 0,
    ensures
        out@ == finished(group@),
{
    let command = string_of(&group.command, 0, group.command.len());
    let user = string_of(&group.user, 0, group.user.len());
    assert(group.command@.subrange(0, group.command.len() as int) =~= group.command@);
    assert(group.user@.subrange(0, group.user.len() as int) =~= group.user@);
    let mut endpoints: Vec<String> = Vec::new();
    let mut i: usize = 0;
    while i < group.endpoints.len()
        invariant
            i <= group.endpoints.len(),
            string_views(endpoints@) == views(group.endpoints@).take(i as int),
        decreases group.endpoints.len() - i,
    {
        let e = &group.endpoints[i];
        let text = string_of(e, 0, e.len());
        let ghost before = string_views(endpoints@);
        endpoints.push(text);
        proof {
            assert(e@.subrange(0, e.len() as int) =~= e@);
            assert(views(group.endpoints@)[i as int] == e@);
            assert(string_views(endpoints@) =~= before.push(text@));
            assert(views(group.endpoints@).take(i + 1) =~= before.push(e@));
        }
        i += 1;
    }
    assert(views(group.endpoints@).take(group.endpoints.len() as int) =~= views(group.endpoints@));
    let first = &group.endpoints[0];
    let endpoint = string_of(first, 0, first.len());
    assert(first@.subrange(0, first.len() as int) =~= first@);
    assert(views(group.endpoints@)[0] == first@);
    let role = infer_role(group.port, command.as_str());
    AggregatedListener {
        port: group.port,
        pid: group.pid,
        command,
        user,
        endpoint,
        endpoints,
        role,
    }
}

/// Groups listeners by port, process id, command and user, and merges the
/// socket addresses of each group. The result does not depend on the order
/// of `listeners`, nor on how often one is repeated.
pub fn aggregate_listeners(listeners: &[Listener]) -> (out: Vec<AggregatedListener>)
    ensures
        aggregated_views(out@) == aggregated(listener_views(listeners@)),
        forall|i: int| 0 <= i < out.len() ==> well_formed(#[trigger] aggregated_views(out@)[i]),
        ascending(
            aggregated_views(out@).map_values(|a: AggregatedView| key_of_aggregated(a)),
            key_order(),
        ),
{
    let ghost all = listener_views(listeners@);
    let mut groups: Vec<Group> = Vec::new();
    let mut i: usize = 0;
    assert(all.take(0) =~= Seq::<ListenerView>::empty());
    assert(group_views(groups@) =~= grouped(all.take(0)));
    while i < listeners.len()
        invariant
            i <= listeners.len(),
            all == listener_views(listeners@),
            group_views(groups@) == grouped(all.take(i as int)),
        decreases listeners.len() - i,
    {
        proof {
            let upto = all.take(i + 1);
            assert(upto.drop_last() =~= all.take(i as int));
            assert(upto.last() == listeners@[i as int]@);
        }
        take_in(&mut groups, &listeners[i]);
        i += 1;
    }
    proof {
        assert(all.take(listeners.len() as int) =~= all);
        lemma_grouped_have_endpoints(all);
    }
    let mut out: Vec<AggregatedListener> = Vec::new();
    let mut k: usize = 0;
    while k < groups.len()
        invariant
            k <= groups.len(),
            group_views(groups@) == grouped(all),
            forall|j: int|
                0 <= j < grouped(all).len() ==> (#[trigger] grouped(all)[j]).endpoints.len() > 0,
            aggregated_views(out@) == aggregated(all).take(k as int),
        decreases groups.len() - k,
    {
        assert(group_views(groups@)[k as int] == groups@[k as int]@);
        let done = finish(&groups[k]);
        let ghost before = aggregated_views(out@);
        out.push(done);
        proof {
            assert(aggregated(all)[k as int] == finished(grouped(all)[k as int]));
            assert(aggregated_views(out@) =~= before.push(done@));
            assert(aggregated(all).take(k + 1) =~= before.push(done@));
        }
        k += 1;
    }
    proof {
        assert(aggregated(all).take(groups.len() as int) =~= aggregated(all));
        lemma_aggregated(all);
    }
    out
}

} // verus!
