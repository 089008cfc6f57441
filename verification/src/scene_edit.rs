//! Bookkeeping of the working scene as primitives come and go: unique
//! primitive names and the prototype indices that nodes refer to.

use vstd::prelude::*;

use crate::node_graph::GraphNodeId;
use crate::prim_path::digits_value;
use crate::text::{decimal, digit_char, push_decimal, same_text};

verus! {

/// How many primitives named after `base` were made so far.
pub open spec fn name_count(counters: Seq<(String, usize)>, base: Seq<char>) -> nat
    decreases counters.len(),
{
    if counters.len() == 0 {
        0
    } else if counters.last().0@ == base {
        counters.last().1 as nat
    } else {
        name_count(counters.drop_last(), base)
    }
}

/// The name of the `n`-th primitive named after `base`: `base` for the
/// first, `base_n` after that.
pub open spec fn numbered_name(base: Seq<char>, n: nat) -> Seq<char> {
    if n == 1 {
        base
    } else {
        base + "_"@ + decimal(n)
    }
}

/// Position of the counter of `base`, searching from the end.
fn find_counter(counters: &Vec<(String, usize)>, base: &str) -> (r: Option<usize>)
    ensures
        match r {
            Some(i) => i < counters@.len() && counters@[i as int].0@ == base@ && name_count(
                counters@,
                base@,
            ) == counters@[i as int].1 as nat && forall|j: int|
                i < j < counters@.len() ==> counters@[j].0@ != base@,
            None => name_count(counters@, base@) == 0 && forall|j: int|
                0 <= j < counters@.len() ==> counters@[j].0@ != base@,
        },
{
    let mut i = counters.len();
    assert(counters@.take(i as int) == counters@);
    while i > 0
        invariant
            i <= counters@.len(),
            name_count(counters@, base@) == name_count(counters@.take(i as int), base@),
            forall|j: int| i <= j < counters@.len() ==> counters@[j].0@ != base@,
        decreases i,
    {
        let ghost t = counters@.take(i as int);
        assert(t.last() == counters@[i - 1]);
        assert(t.drop_last() == counters@.take(i - 1));
        if same_text(counters[i - 1].0.as_str(), base) {
            return Some(i - 1);
        }
        i = i - 1;
    }
    None
}

/// Counts one more primitive named after `base` and returns its unique name:
/// `base` for the first, then `base_2`, `base_3`, and so on.
pub fn unique_primitive_name(counters: &mut Vec<(String, usize)>, base: &str) -> (name: String)
    requires
        name_count(old(counters)@, base@) < usize::MAX,
    ensures
        name_count(final(counters)@, base@) == name_count(old(counters)@, base@) + 1,
        forall|other: Seq<char>|
            other != base@ ==> name_count(final(counters)@, other) == name_count(
                old(counters)@,
                other,
            ),
        name@ == numbered_name(base@, name_count(old(counters)@, base@) + 1),
{
    let ghost c0 = counters@;
    let n: usize;
    match find_counter(counters, base) {
        Some(i) => {
            n = counters[i].1 + 1;
            let key = String::from_str(base);
            counters.set(i, (key, n));
            proof {
                assert(counters@ == c0.update(i as int, counters@[i as int]));
                lemma_name_count_update(c0, i as int, counters@[i as int], base@);
            }
        },
        None => {
            n = 1;
            counters.push((String::from_str(base), 1));
            proof {
                assert(counters@.drop_last() == c0);
            }
        },
    }
    if n == 1 {
        String::from_str(base)
    } else {
        let mut s = String::from_str(base);
        s.append("_");
        push_decimal(&mut s, n as u64);
        s
    }
}

/// Replacing the last counter of `base` by a counter of `base` changes the
/// count of `base` only.
proof fn lemma_name_count_update(
    c: Seq<(String, usize)>,
    i: int,
    e: (String, usize),
    base: Seq<char>,
)
    requires
        0 <= i < c.len(),
        c[i].0@ == base,
        e.0@ == base,
        forall|j: int| i < j < c.len() ==> c[j].0@ != base,
    ensures
        name_count(c.update(i, e), base) == e.1 as nat,
        forall|other: Seq<char>|
            other != base ==> name_count(c.update(i, e), other) == name_count(c, other),
    decreases c.len(),
{
    let u = c.update(i, e);
    if i == c.len() - 1 {
        assert(u.drop_last() == c.drop_last());
        assert(u.last() == e);
        assert forall|other: Seq<char>| other != base implies name_count(u, other) == name_count(c, other) by {
            assert(u.last().0@ != other);
            assert(c.last().0@ != other);
        }
    } else {
        assert(u.drop_last() == c.drop_last().update(i, e));
        assert(u.last() == c.last());
        lemma_name_count_update(c.drop_last(), i, e, base);
        assert forall|other: Seq<char>| other != base implies name_count(u, other) == name_count(c, other) by {
            if u.last().0@ != other {
                assert(name_count(u, other) == name_count(u.drop_last(), other));
                assert(name_count(c, other) == name_count(c.drop_last(), other));
            }
        }
    }
}

/// Prototype indices after prototype `removed` is taken out: its own index
/// goes, later ones shift down by one.
pub open spec fn reindexed(ids: Seq<usize>, removed: usize) -> Seq<usize>
    decreases ids.len(),
{
    if ids.len() == 0 {
        seq![]
    } else {
        let rest = reindexed(ids.drop_last(), removed);
        let x = ids.last();
        if x == removed {
            rest
        } else if x > removed {
            rest.push((x - 1) as usize)
        } else {
            rest.push(x)
        }
    }
}

/// `ids` after prototype `removed` is taken out of the scene.
pub fn reindex_ids(ids: &Vec<usize>, removed: usize) -> (r: Vec<usize>)
    ensures
        r@ == reindexed(ids@, removed),
{
    let mut r: Vec<usize> = Vec::new();
    let mut i: usize = 0;
    while i < ids.len()
        invariant
            i <= ids@.len(),
            r@ == reindexed(ids@.take(i as int), removed),
        decreases ids@.len() - i,
    {
        assert(ids@.take(i + 1).drop_last() == ids@.take(i as int));
        assert(ids@.take(i + 1).last() == ids@[i as int]);
        let x = ids[i];
        if x > removed {
            r.push(x - 1);
        } else if x < removed {
            r.push(x);
        }
        i = i + 1;
    }
    assert(ids@.take(ids@.len() as int) == ids@);
    r
}

/// Whether `ids` holds `x`.
fn holds(ids: &Vec<usize>, x: usize) -> (b: bool)
    ensures
        b == ids@.contains(x),
{
    let mut j: usize = 0;
    while j < ids.len()
        invariant
            j <= ids@.len(),
            forall|k: int| 0 <= k < j ==> ids@[k] != x,
        decreases ids@.len() - j,
    {
        if ids[j] == x {
            assert(ids@[j as int] == x);
            return true;
        }
        j = j + 1;
    }
    false
}

/// The prototype indices that nodes own, and the prototype of every instance
/// that instancer nodes made, after prototype `removed` is taken out: every
/// node's indices are reindexed; an instancer result that instanced the
/// removed prototype goes, the others are reindexed.
fn reindex_after_prototype_removal(
    node_proto_map: &mut Vec<(GraphNodeId, Vec<usize>)>,
    instancer_results: &mut Vec<(GraphNodeId, Vec<usize>)>,
    removed: usize,
)
    ensures
        final(node_proto_map)@.len() == old(node_proto_map)@.len(),
        forall|i: int|
            0 <= i < old(node_proto_map)@.len() ==> #[trigger] final(node_proto_map)@[i].0
                == old(node_proto_map)@[i].0 && final(node_proto_map)@[i].1@ == reindexed(
                old(node_proto_map)@[i].1@,
                removed,
            ),
        final(instancer_results)@.len() == kept_results(old(instancer_results)@, removed).len(),
        forall|k: int|
            0 <= k < final(instancer_results)@.len() ==> #[trigger] final(instancer_results)@[k].0
                == kept_results(old(instancer_results)@, removed)[k].0
                && final(instancer_results)@[k].1@ == reindexed(kept_results(old(instancer_results)@, removed)[k].1@, removed),
{
    let mut new_map: Vec<(GraphNodeId, Vec<usize>)> = Vec::new();
    let mut i: usize = 0;
    while i < node_proto_map.len()
        invariant
            i <= node_proto_map@.len(),
            new_map@.len() == i,
            forall|j: int|
                0 <= j < i ==> #[trigger] new_map@[j].0 == node_proto_map@[j].0 && new_map@[j].1@
                    == reindexed(node_proto_map@[j].1@, removed),
        decreases node_proto_map@.len() - i,
    {
        let ids = reindex_ids(&node_proto_map[i].1, removed);
        new_map.push((node_proto_map[i].0, ids));
        i = i + 1;
    }
    *node_proto_map = new_map;
    let ghost r0 = instancer_results@;
    let mut new_results: Vec<(GraphNodeId, Vec<usize>)> = Vec::new();
    let mut k: usize = 0;
    while k < instancer_results.len()
        invariant
            r0 == instancer_results@,
            k <= r0.len(),
            new_results@.len() == kept_results(r0.take(k as int), removed).len(),
            forall|j: int|
                0 <= j < new_results@.len() ==> #[trigger] new_results@[j].0 == kept_results(
                    r0.take(k as int),
                    removed,
                )[j].0 && new_results@[j].1@ == reindexed(
                    kept_results(r0.take(k as int), removed)[j].1@,
                    removed,
                ),
        decreases r0.len() - k,
    {
        let ghost before = kept_results(r0.take(k as int), removed);
        assert(r0.take(k + 1).drop_last() == r0.take(k as int));
        assert(r0.take(k + 1).last() == r0[k as int]);
        if !holds(&instancer_results[k].1, removed) {
            let ids = reindex_ids(&instancer_results[k].1, removed);
            new_results.push((instancer_results[k].0, ids));
            assert(kept_results(r0.take(k + 1), removed) == before.push(r0[k as int]));
        }
        k = k + 1;
    }
    assert(r0.take(r0.len() as int) == r0);
    *instancer_results = new_results;
}

/// The instancer results that did not instance prototype `removed`, in order.
pub open spec fn kept_results(results: Seq<(GraphNodeId, Vec<usize>)>, removed: usize) -> Seq<
    (GraphNodeId, Vec<usize>),
>
    decreases results.len(),
{
    if results.len() == 0 {
        seq![]
    } else if results.last().1@.contains(removed) {
        kept_results(results.drop_last(), removed)
    } else {
        kept_results(results.drop_last(), removed).push(results.last())
    }
}

/// Takes prototype `proto_id` out of a scene of `proto_count` prototypes:
/// when it exists, the prototype indices of the nodes and of the instancer
/// results are reindexed (results that instanced it go) and `true` is
/// returned; otherwise nothing changes and `false` is returned.
pub fn remove_and_reindex_prototype(
    node_proto_map: &mut Vec<(GraphNodeId, Vec<usize>)>,
    instancer_results: &mut Vec<(GraphNodeId, Vec<usize>)>,
    proto_count: usize,
    proto_id: usize,
) -> (existed: bool)
    ensures
        existed == (proto_id < proto_count),
        !existed ==> *final(node_proto_map) == *old(node_proto_map) && *final(instancer_results)
            == *old(instancer_results),
        existed ==> final(node_proto_map)@.len() == old(node_proto_map)@.len() && (forall|i: int|
            0 <= i < old(node_proto_map)@.len() ==> #[trigger] final(node_proto_map)@[i].0
                == old(node_proto_map)@[i].0 && final(node_proto_map)@[i].1@ == reindexed(
                old(node_proto_map)@[i].1@,
                proto_id,
            )),
        existed ==> final(instancer_results)@.len() == kept_results(
            old(instancer_results)@,
            proto_id,
        ).len() && (forall|k: int|
            0 <= k < final(instancer_results)@.len() ==> #[trigger] final(instancer_results)@[k].0
                == kept_results(old(instancer_results)@, proto_id)[k].0
                && final(instancer_results)@[k].1@ == reindexed(
                kept_results(old(instancer_results)@, proto_id)[k].1@,
                proto_id,
            )),
{
    if proto_id >= proto_count {
        return false;
    }
    let ghost m0 = node_proto_map@;
    reindex_after_prototype_removal(node_proto_map, instancer_results, proto_id);
    assert forall|i: int| 0 <= i < m0.len() implies #[trigger] node_proto_map@[i].0 == m0[i].0
        && node_proto_map@[i].1@ == reindexed(m0[i].1@, proto_id) by {
        assert(node_proto_map@[i].0 == m0[i].0);
    }
    true
}

/// Reading the decimal representation of `n` back gives `n`.
pub proof fn lemma_decimal_value(n: nat)
    ensures
        digits_value(decimal(n)) == n,
        decimal(n).len() > 0,
    decreases n,
{
    let d = (n % 10) as nat;
    assert(digit_char(d) as u32 == d + 48);
    if n >= 10 {
        lemma_decimal_value(n / 10);
        let s = decimal(n / 10).push(digit_char(d));
        assert(s.drop_last() == decimal(n / 10));
        assert(s.last() == digit_char(d));
        assert((n / 10) * 10 + d == n) by (nonlinear_arith)
            requires
                d == n % 10,
        ;
        assert(decimal(n) == s);
        assert(digits_value(s) == digits_value(decimal(n / 10)) * 10 + d);
    } else {
        let s = seq![digit_char(n)];
        assert(decimal(n) == s);
        assert(n % 10 == n);
        assert(s.drop_last() == Seq::<char>::empty());
        assert(s.last() == digit_char(n));
        assert(digits_value(Seq::<char>::empty()) == 0);
        assert(digits_value(s) == digits_value(s.drop_last()) * 10 + ((s.last() as u32) - 48) as nat);
    }
}

/// Unique names are unique: the names of the `n`-th and the `m`-th
/// primitive made after the same base differ whenever `n` and `m` do, so the
/// counter that [`unique_primitive_name`] advances never hands a name out
/// twice.
pub proof fn lemma_numbered_names_distinct(base: Seq<char>, n: nat, m: nat)
    requires
        1 <= n,
        1 <= m,
        n != m,
    ensures
        numbered_name(base, n) != numbered_name(base, m),
{
    lemma_decimal_value(n);
    lemma_decimal_value(m);
    let sep: Seq<char> = "_"@;
    reveal_strlit("_");
    if n != 1 && m != 1 {
        let a = base + sep + decimal(n);
        let b = base + sep + decimal(m);
        if a == b {
            assert(a.skip(base.len() + 1int) == decimal(n));
            assert(b.skip(base.len() + 1int) == decimal(m));
        }
    } else if n == 1 {
        assert((base + sep + decimal(m)).len() > base.len());
    } else {
        assert((base + sep + decimal(n)).len() > base.len());
    }
}

/// Reindexing keeps indices valid: indices into a scene of `count`
/// prototypes become, once prototype `removed` is taken out, indices into
/// the `count - 1` prototypes that remain; the removed index never stays.
pub proof fn lemma_reindexed_in_range(ids: Seq<usize>, removed: usize, count: nat)
    requires
        removed < count,
        forall|i: int| 0 <= i < ids.len() ==> #[trigger] ids[i] < count,
    ensures
        forall|i: int|
            0 <= i < reindexed(ids, removed).len() ==> #[trigger] reindexed(ids, removed)[i] < count
                - 1,
        reindexed(ids, removed).len() <= ids.len(),
    decreases ids.len(),
{
    if ids.len() > 0 {
        let init = ids.drop_last();
        assert forall|i: int| 0 <= i < init.len() implies #[trigger] init[i] < count by {
            assert(init[i] == ids[i]);
        }
        lemma_reindexed_in_range(init, removed, count);
        assert(ids.last() == ids[ids.len() - 1]);
        let r = reindexed(ids, removed);
        let r0 = reindexed(init, removed);
        assert forall|i: int| 0 <= i < r.len() implies #[trigger] r[i] < count - 1 by {
            if i < r0.len() {
                assert(r[i] == r0[i]);
            }
        }
    }
}

} // verus!
