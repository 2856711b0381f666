//! What the groups of an aggregation are, said without the way they are
//! made, and why they depend neither on the order of the listeners nor on
//! how often one is repeated.

use crate::aggregate::{
    aggregated, ahead_of, below, grouped, key_less, key_of, placed, with_listener, AggregatedView,
    GroupKey, GroupView,
};
use crate::listener::{pid_or_zero, ListenerView};
use crate::role::inferred_role;
use crate::order::{
    ascending, lemma_ascending_unique, lemma_text_less_irreflexive, lemma_text_less_transitive,
    lemma_text_order_strict, lemma_text_order_total, strict_order, text_less, text_order,
};
use crate::text::{lemma_prefix_len, prefix_len};
use vstd::prelude::*;

verus! {

/// The order of group keys as a value.
pub open spec fn key_order() -> spec_fn(GroupKey, GroupKey) -> bool {
    |a: GroupKey, b: GroupKey| key_less(a, b)
}

/// The keys of `groups`, in order.
pub open spec fn keys_of(groups: Seq<GroupView>) -> Seq<GroupKey> {
    groups.map_values(|g: GroupView| g.key)
}

/// Whether `groups` are as an aggregation leaves them: in ascending order of
/// key, so that no key occurs twice, and each with at least one address and
/// its addresses in ascending order, so that none occurs twice.
pub open spec fn well_grouped(groups: Seq<GroupView>) -> bool {
    &&& ascending(keys_of(groups), key_order())
    &&& forall|i: int|
        0 <= i < groups.len() ==> (#[trigger] groups[i]).endpoints.len() > 0 && ascending(
            groups[i].endpoints,
            text_order(),
        )
}

/// Whether the group of `key` in `groups` has the address `e`.
pub open spec fn holds(groups: Seq<GroupView>, key: GroupKey, e: Seq<char>) -> bool {
    exists|i: int|
        0 <= i < groups.len() && (#[trigger] groups[i]).key == key && groups[i].endpoints.contains(
            e,
        )
}

/// Whether one of `listeners` has the key `key` and the address `e`.
pub open spec fn reports(listeners: Seq<ListenerView>, key: GroupKey, e: Seq<char>) -> bool {
    exists|j: int|
        0 <= j < listeners.len() && key_of(#[trigger] listeners[j]) == key && listeners[j].endpoint
            == e
}

/// No key comes before itself.
pub proof fn lemma_key_less_irreflexive(a: GroupKey)
    ensures
        !key_less(a, a),
{
}

/// A key that comes before a second one comes before every key that the
/// second one comes before.
pub proof fn lemma_key_less_transitive(a: GroupKey, b: GroupKey, c: GroupKey)
    requires
        key_less(a, b),
        key_less(b, c),
    ensures
        key_less(a, c),
{
    lemma_text_less_irreflexive(a.command);
    lemma_text_less_irreflexive(a.user);
    if a.port == b.port && b.port == c.port && pid_or_zero(a.pid) == pid_or_zero(b.pid)
        && pid_or_zero(b.pid) == pid_or_zero(c.pid) {
        if a.command != b.command && b.command != c.command {
            lemma_text_less_transitive(a.command, b.command, c.command);
        } else if a.command == b.command && b.command == c.command {
            if a.user != b.user && b.user != c.user {
                lemma_text_less_transitive(a.user, b.user, c.user);
            }
        }
    }
}

/// Of two keys that differ, one comes before the other.
pub proof fn lemma_key_order_total(a: GroupKey, b: GroupKey)
    ensures
        a == b || key_less(a, b) || key_less(b, a),
{
    lemma_text_order_total(a.command, b.command);
    lemma_text_order_total(a.user, b.user);
}

/// The order of keys is a strict order.
pub proof fn lemma_key_order_strict()
    ensures
        strict_order(key_order()),
{
    assert forall|x: GroupKey| !#[trigger] key_order()(x, x) by {
        lemma_key_less_irreflexive(x);
    }
    assert forall|x: GroupKey, y: GroupKey, z: GroupKey| #[trigger]
        key_order()(x, y) && #[trigger] key_order()(y, z) implies key_order()(x, z) by {
        lemma_key_less_transitive(x, y, z);
    }
}

/// Putting an address at its place keeps the addresses in ascending order,
/// and adds that address to what they hold and nothing else.
pub proof fn lemma_placed(endpoints: Seq<Seq<char>>, e: Seq<char>)
    requires
        ascending(endpoints, text_order()),
    ensures
        ascending(placed(endpoints, e), text_order()),
        placed(endpoints, e).len() > 0,
        forall|x: Seq<char>|
            placed(endpoints, e).contains(x) <==> (x == e || endpoints.contains(x)),
{
    lemma_prefix_len(endpoints, below(e));
    let k = prefix_len(endpoints, below(e)) as int;
    let out = placed(endpoints, e);
    if k < endpoints.len() && endpoints[k] == e {
        assert(endpoints.contains(e));
    } else {
        assert(out =~= endpoints.insert(k, e));
        assert forall|i: int, j: int| 0 <= i < j < out.len() implies text_order()(
            #[trigger] out[i],
            #[trigger] out[j],
        ) by {
            if j < k {
                assert(out[i] == endpoints[i] && out[j] == endpoints[j]);
            } else if j == k {
                assert(out[i] == endpoints[i]);
                assert(below(e)(endpoints[i]));
            } else {
                assert(out[j] == endpoints[j - 1]);
                lemma_text_order_total(e, endpoints[k]);
                if j - 1 > k {
                    assert(text_order()(endpoints[k], endpoints[j - 1]));
                    lemma_text_less_transitive(e, endpoints[k], endpoints[j - 1]);
                }
                assert(text_less(e, endpoints[j - 1]));
                if i < k {
                    assert(out[i] == endpoints[i]);
                    assert(below(e)(endpoints[i]));
                    lemma_text_less_transitive(endpoints[i], e, endpoints[j - 1]);
                } else if i > k {
                    assert(out[i] == endpoints[i - 1]);
                    assert(text_order()(endpoints[i - 1], endpoints[j - 1]));
                }
            }
        }
        assert forall|x: Seq<char>| out.contains(x) <==> (x == e || endpoints.contains(x)) by {
            if out.contains(x) {
                let i = choose|i: int| 0 <= i < out.len() && out[i] == x;
                if i < k {
                    assert(endpoints[i] == x);
                } else if i > k {
                    assert(endpoints[i - 1] == x);
                }
            }
            if x == e {
                assert(out[k] == x);
            }
            if endpoints.contains(x) {
                let i = choose|i: int| 0 <= i < endpoints.len() && endpoints[i] == x;
                if i < k {
                    assert(out[i] == x);
                } else {
                    assert(out[i + 1] == x);
                }
            }
        }
    }
}

/// Taking a listener in keeps the groups as an aggregation leaves them, and
/// adds the listener's address to the group of its key and nothing else.
pub proof fn lemma_with_listener(groups: Seq<GroupView>, l: ListenerView)
    requires
        well_grouped(groups),
    ensures
        well_grouped(with_listener(groups, l)),
        forall|key: GroupKey, e: Seq<char>|
            holds(with_listener(groups, l), key, e) <==> (holds(groups, key, e) || (key == key_of(l)
                && e == l.endpoint)),
{
    let key = key_of(l);
    lemma_prefix_len(groups, ahead_of(key));
    let k = prefix_len(groups, ahead_of(key)) as int;
    let out = with_listener(groups, l);
    let old_keys = keys_of(groups);
    if k < groups.len() && groups[k].key == key {
        let changed = GroupView { key, endpoints: placed(groups[k].endpoints, l.endpoint) };
        lemma_placed(groups[k].endpoints, l.endpoint);
        assert(out == groups.update(k, changed));
        assert(keys_of(out) =~= old_keys);
        assert forall|i: int| 0 <= i < out.len() implies (#[trigger] out[i]).endpoints.len() > 0
            && ascending(out[i].endpoints, text_order()) by {
            if i != k {
                assert(out[i] == groups[i]);
            }
        }
        assert forall|q: GroupKey, e: Seq<char>|
            holds(out, q, e) <==> (holds(groups, q, e) || (q == key && e == l.endpoint)) by {
            if holds(out, q, e) {
                let i = choose|i: int|
                    0 <= i < out.len() && (#[trigger] out[i]).key == q && out[i].endpoints.contains(
                        e,
                    );
                if i != k {
                    assert(groups[i] == out[i]);
                } else if e != l.endpoint {
                    assert(groups[k].endpoints.contains(e));
                }
            }
            if holds(groups, q, e) {
                let i = choose|i: int|
                    0 <= i < groups.len() && (#[trigger] groups[i]).key == q
                        && groups[i].endpoints.contains(e);
                if i != k {
                    assert(out[i] == groups[i]);
                } else {
                    assert(out[k].key == q && out[k].endpoints.contains(e));
                }
            }
            if q == key && e == l.endpoint {
                assert(out[k].key == q && out[k].endpoints.contains(e));
            }
        }
    } else {
        let made = GroupView { key, endpoints: seq![l.endpoint] };
        assert(out == groups.insert(k, made));
        assert(made.endpoints[0] == l.endpoint);
        let new_keys = keys_of(out);
        assert forall|i: int, j: int| 0 <= i < j < new_keys.len() implies key_order()(
            #[trigger] new_keys[i],
            #[trigger] new_keys[j],
        ) by {
            if j < k {
                assert(out[i] == groups[i] && out[j] == groups[j]);
                assert(key_order()(old_keys[i], old_keys[j]));
            } else if j == k {
                assert(out[i] == groups[i]);
                assert(ahead_of(key)(groups[i]));
            } else {
                assert(out[j] == groups[j - 1]);
                lemma_key_order_total(key, groups[k].key);
                assert(!ahead_of(key)(groups[k]));
                if j - 1 > k {
                    assert(key_order()(old_keys[k], old_keys[j - 1]));
                    lemma_key_less_transitive(key, groups[k].key, groups[j - 1].key);
                }
                assert(key_less(key, groups[j - 1].key));
                if i < k {
                    assert(out[i] == groups[i]);
                    assert(ahead_of(key)(groups[i]));
                    lemma_key_less_transitive(groups[i].key, key, groups[j - 1].key);
                } else if i > k {
                    assert(out[i] == groups[i - 1]);
                    assert(key_order()(old_keys[i - 1], old_keys[j - 1]));
                }
            }
        }
        assert forall|i: int| 0 <= i < out.len() implies (#[trigger] out[i]).endpoints.len() > 0
            && ascending(out[i].endpoints, text_order()) by {
            if i < k {
                assert(out[i] == groups[i]);
            } else if i > k {
                assert(out[i] == groups[i - 1]);
            }
        }
        assert forall|q: GroupKey, e: Seq<char>|
            holds(out, q, e) <==> (holds(groups, q, e) || (q == key && e == l.endpoint)) by {
            if holds(out, q, e) {
                let i = choose|i: int|
                    0 <= i < out.len() && (#[trigger] out[i]).key == q && out[i].endpoints.contains(
                        e,
                    );
                if i < k {
                    assert(groups[i] == out[i]);
                } else if i > k {
                    assert(groups[i - 1] == out[i]);
                } else {
                    let m = choose|m: int| 0 <= m < made.endpoints.len() && made.endpoints[m] == e;
                    assert(e == l.endpoint);
                }
            }
            if holds(groups, q, e) {
                let i = choose|i: int|
                    0 <= i < groups.len() && (#[trigger] groups[i]).key == q
                        && groups[i].endpoints.contains(e);
                if i < k {
                    assert(out[i] == groups[i]);
                } else {
                    assert(out[i + 1] == groups[i]);
                }
            }
            if q == key && e == l.endpoint {
                assert(out[k] == made);
                assert(made.endpoints.contains(e));
            }
        }
    }
}

/// What the groups of `listeners` are: they are as an aggregation leaves
/// them, and the group of a key has an address exactly where a listener of
/// that key has it.
pub proof fn lemma_grouped(listeners: Seq<ListenerView>)
    ensures
        well_grouped(grouped(listeners)),
        forall|key: GroupKey, e: Seq<char>|
            holds(grouped(listeners), key, e) <==> reports(listeners, key, e),
    decreases listeners.len(),
{
    if listeners.len() > 0 {
        let init = listeners.drop_last();
        let l = listeners.last();
        lemma_grouped(init);
        lemma_with_listener(grouped(init), l);
        assert forall|key: GroupKey, e: Seq<char>|
            holds(grouped(listeners), key, e) <==> reports(listeners, key, e) by {
            if reports(init, key, e) {
                let j = choose|j: int|
                    0 <= j < init.len() && key_of(#[trigger] init[j]) == key && init[j].endpoint
                        == e;
                assert(listeners[j] == init[j]);
            }
            if reports(listeners, key, e) {
                let j = choose|j: int|
                    0 <= j < listeners.len() && key_of(#[trigger] listeners[j]) == key
                        && listeners[j].endpoint == e;
                if j < init.len() {
                    assert(init[j] == listeners[j]);
                }
            }
            if key == key_of(l) && e == l.endpoint {
                assert(listeners[listeners.len() - 1] == l);
            }
        }
    }
}

/// Groups are what they hold: two sequences of groups that are as an
/// aggregation leaves them, and in which each key has the same addresses,
/// are equal.
pub proof fn lemma_groups_unique(a: Seq<GroupView>, b: Seq<GroupView>)
    requires
        well_grouped(a),
        well_grouped(b),
        forall|key: GroupKey, e: Seq<char>| holds(a, key, e) <==> holds(b, key, e),
    ensures
        a == b,
{
    lemma_key_order_strict();
    lemma_text_order_strict();
    let ka = keys_of(a);
    let kb = keys_of(b);
    assert forall|x: GroupKey| ka.contains(x) <==> kb.contains(x) by {
        if ka.contains(x) {
            let i = choose|i: int| 0 <= i < ka.len() && ka[i] == x;
            assert(a[i].endpoints.contains(a[i].endpoints[0]));
            assert(holds(a, x, a[i].endpoints[0]));
            assert(holds(b, x, a[i].endpoints[0]));
            let m = choose|m: int|
                0 <= m < b.len() && (#[trigger] b[m]).key == x && b[m].endpoints.contains(
                    a[i].endpoints[0],
                );
            assert(kb[m] == x);
        }
        if kb.contains(x) {
            let i = choose|i: int| 0 <= i < kb.len() && kb[i] == x;
            assert(b[i].endpoints.contains(b[i].endpoints[0]));
            assert(holds(b, x, b[i].endpoints[0]));
            assert(holds(a, x, b[i].endpoints[0]));
            let m = choose|m: int|
                0 <= m < a.len() && (#[trigger] a[m]).key == x && a[m].endpoints.contains(
                    b[i].endpoints[0],
                );
            assert(ka[m] == x);
        }
    }
    lemma_ascending_unique(ka, kb, key_order());
    assert(a.len() == ka.len() && b.len() == kb.len());
    assert forall|i: int| 0 <= i < a.len() implies a[i] == b[i] by {
        assert(a[i].key == ka[i] && b[i].key == kb[i]);
        let key = a[i].key;
        assert forall|e: Seq<char>| a[i].endpoints.contains(e) <==> b[i].endpoints.contains(e) by {
            if a[i].endpoints.contains(e) {
                assert(holds(a, key, e));
                let m = choose|m: int|
                    0 <= m < b.len() && (#[trigger] b[m]).key == key && b[m].endpoints.contains(e);
                lemma_same_key_same_place(b, m, i);
            }
            if b[i].endpoints.contains(e) {
                assert(holds(b, key, e));
                let m = choose|m: int|
                    0 <= m < a.len() && (#[trigger] a[m]).key == key && a[m].endpoints.contains(e);
                lemma_same_key_same_place(a, m, i);
            }
        }
        lemma_ascending_unique(a[i].endpoints, b[i].endpoints, text_order());
    }
    assert(a =~= b);
}

/// Among groups in ascending order of key, a key has one place only.
proof fn lemma_same_key_same_place(groups: Seq<GroupView>, m: int, i: int)
    requires
        well_grouped(groups),
        0 <= m < groups.len(),
        0 <= i < groups.len(),
        groups[m].key == groups[i].key,
    ensures
        m == i,
{
    let keys = keys_of(groups);
    lemma_key_less_irreflexive(groups[i].key);
    if m < i {
        assert(key_order()(keys[m], keys[i]));
    } else if i < m {
        assert(key_order()(keys[i], keys[m]));
    }
}

/// Aggregation is commutative in the order of its input, and merges
/// repetitions: listeners that are the same but for their order, and for how
/// often each is repeated, aggregate into the same logical listeners.
pub proof fn lemma_aggregation_ignores_order(xs: Seq<ListenerView>, ys: Seq<ListenerView>)
    requires
        forall|l: ListenerView| xs.contains(l) <==> ys.contains(l),
    ensures
        aggregated(xs) == aggregated(ys),
{
    lemma_grouped(xs);
    lemma_grouped(ys);
    assert forall|key: GroupKey, e: Seq<char>| reports(xs, key, e) <==> reports(ys, key, e) by {
        if reports(xs, key, e) {
            let j = choose|j: int|
                0 <= j < xs.len() && key_of(#[trigger] xs[j]) == key && xs[j].endpoint == e;
            assert(xs.contains(xs[j]));
            let m = choose|m: int| 0 <= m < ys.len() && ys[m] == xs[j];
            assert(key_of(ys[m]) == key && ys[m].endpoint == e);
        }
        if reports(ys, key, e) {
            let j = choose|j: int|
                0 <= j < ys.len() && key_of(#[trigger] ys[j]) == key && ys[j].endpoint == e;
            assert(ys.contains(ys[j]));
            let m = choose|m: int| 0 <= m < xs.len() && xs[m] == ys[j];
            assert(key_of(xs[m]) == key && xs[m].endpoint == e);
        }
    }
    assert forall|key: GroupKey, e: Seq<char>|
        holds(grouped(xs), key, e) <==> holds(grouped(ys), key, e) by {
        assert(holds(grouped(xs), key, e) <==> reports(xs, key, e));
        assert(holds(grouped(ys), key, e) <==> reports(ys, key, e));
    }
    lemma_groups_unique(grouped(xs), grouped(ys));
}

/// Aggregation is commutative: a rearrangement of the listeners aggregates
/// into the same logical listeners.
pub proof fn lemma_aggregation_commutes(xs: Seq<ListenerView>, ys: Seq<ListenerView>)
    requires
        xs.to_multiset() == ys.to_multiset(),
    ensures
        aggregated(xs) == aggregated(ys),
{
    broadcast use vstd::seq_lib::group_to_multiset_ensures;

    assert forall|l: ListenerView| xs.contains(l) <==> ys.contains(l) by {
        assert(xs.contains(l) <==> xs.to_multiset().count(l) > 0);
        assert(ys.contains(l) <==> ys.to_multiset().count(l) > 0);
    }
    lemma_aggregation_ignores_order(xs, ys);
}

/// The key of the group that the logical listener `a` stands for.
pub open spec fn key_of_aggregated(a: AggregatedView) -> GroupKey {
    GroupKey { port: a.port, pid: a.pid, command: a.command, user: a.user }
}

/// What the logical listeners of `listeners` are. They stand in ascending
/// order of key, so that each key has one. Each has at least one address;
/// its addresses are in ascending order, so that none is repeated; they are
/// the addresses of the listeners of its key, all of them and no others;
/// its primary address is the least of them; and its role goes by its port
/// and command. Every listener belongs to one of them.
pub proof fn lemma_aggregated(listeners: Seq<ListenerView>)
    ensures
        forall|i: int, j: int|
            0 <= i < j < aggregated(listeners).len() ==> key_less(
                key_of_aggregated(#[trigger] aggregated(listeners)[i]),
                key_of_aggregated(#[trigger] aggregated(listeners)[j]),
            ),
        forall|i: int|
            0 <= i < aggregated(listeners).len() ==> {
                let a = #[trigger] aggregated(listeners)[i];
                &&& a.endpoints.len() > 0
                &&& ascending(a.endpoints, text_order())
                &&& a.endpoints.no_duplicates()
                &&& a.endpoint == a.endpoints[0]
                &&& a.role == inferred_role(a.port, a.command)
                &&& forall|e: Seq<char>|
                    a.endpoints.contains(e) <==> reports(listeners, key_of_aggregated(a), e)
            },
        forall|k: int|
            0 <= k < listeners.len() ==> exists|i: int|
                0 <= i < aggregated(listeners).len() && key_of_aggregated(
                    #[trigger] aggregated(listeners)[i],
                ) == key_of(#[trigger] listeners[k]),
{
    let groups = grouped(listeners);
    let out = aggregated(listeners);
    let keys = keys_of(groups);
    lemma_grouped(listeners);
    assert forall|i: int, j: int| 0 <= i < j < out.len() implies key_less(
        key_of_aggregated(#[trigger] out[i]),
        key_of_aggregated(#[trigger] out[j]),
    ) by {
        assert(key_order()(keys[i], keys[j]));
    }
    assert forall|i: int| 0 <= i < out.len() implies {
        let a = #[trigger] out[i];
        &&& a.endpoints.len() > 0
        &&& ascending(a.endpoints, text_order())
        &&& a.endpoints.no_duplicates()
        &&& a.endpoint == a.endpoints[0]
        &&& a.role == inferred_role(a.port, a.command)
        &&& forall|e: Seq<char>|
            a.endpoints.contains(e) <==> reports(listeners, key_of_aggregated(a), e)
    } by {
        let a = out[i];
        let g = groups[i];
        assert(a.endpoints == g.endpoints);
        assert(key_of_aggregated(a) == g.key);
        assert forall|p: int, q: int| 0 <= p < q < a.endpoints.len() implies a.endpoints[p]
            != a.endpoints[q] by {
            assert(text_order()(a.endpoints[p], a.endpoints[q]));
            lemma_text_less_irreflexive(a.endpoints[p]);
        }
        assert forall|e: Seq<char>|
            a.endpoints.contains(e) <==> reports(listeners, key_of_aggregated(a), e) by {
            assert(holds(groups, g.key, e) <==> reports(listeners, g.key, e));
            if holds(groups, g.key, e) {
                let m = choose|m: int|
                    0 <= m < groups.len() && (#[trigger] groups[m]).key == g.key
                        && groups[m].endpoints.contains(e);
                lemma_same_key_same_place(groups, m, i);
            }
        }
    }
    assert forall|k: int| 0 <= k < listeners.len() implies exists|i: int|
        0 <= i < out.len() && key_of_aggregated(#[trigger] out[i]) == key_of(
            #[trigger] listeners[k],
        ) by {
        let l = listeners[k];
        assert(reports(listeners, key_of(l), l.endpoint));
        assert(holds(groups, key_of(l), l.endpoint));
        let m = choose|m: int|
            0 <= m < groups.len() && (#[trigger] groups[m]).key == key_of(l)
                && groups[m].endpoints.contains(l.endpoint);
        assert(key_of_aggregated(out[m]) == key_of(l));
    }
}

} // verus!
