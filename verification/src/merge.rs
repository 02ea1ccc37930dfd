//! The merger: combines the results of all successfully-parsed backend
//! responses into one deterministic envelope. Results are grouped
//! strictly by metric name; groups come out sorted by name. Within a
//! group, tags merge as a deduplicating union per key preserving
//! first-seen order, and value lists concatenate in arrival order —
//! arrival order itself follows backend completion and is the one
//! deliberately non-deterministic input here.

use vstd::prelude::*;

use crate::json::json_clone;
use crate::model::{results_view, tags_view, MetricResult, MetricResultV, TagEntry, TagEntryV};
use crate::text::{lemma_lex_lt_connected, lemma_lex_lt_transitive, lex_lt, str_eq, str_lt};

verus! {

/// Concatenation, in arrival order, of the value lists of every result
/// named `name`.
pub open spec fn spec_group_values(flat: Seq<MetricResultV>, name: Seq<char>) -> Seq<
    serde_json::Value,
>
    decreases flat.len(),
{
    if flat.len() == 0 {
        Seq::empty()
    } else {
        let rest = spec_group_values(flat.drop_last(), name);
        if flat.last().name == name {
            rest + flat.last().values
        } else {
            rest
        }
    }
}

/// The (key, value) pairs one tag entry contributes, in order.
pub open spec fn spec_entry_pairs(e: TagEntryV) -> Seq<(Seq<char>, Seq<char>)> {
    e.values.map_values(|v: Seq<char>| (e.key, v))
}

/// The (key, value) pairs a result's tag list contributes, in order.
pub open spec fn spec_tags_pairs(tags: Seq<TagEntryV>) -> Seq<(Seq<char>, Seq<char>)>
    decreases tags.len(),
{
    if tags.len() == 0 {
        Seq::empty()
    } else {
        spec_tags_pairs(tags.drop_last()) + spec_entry_pairs(tags.last())
    }
}

/// All tag pairs contributed for metric `name`, across the results in
/// arrival order.
pub open spec fn spec_group_pairs(flat: Seq<MetricResultV>, name: Seq<char>) -> Seq<
    (Seq<char>, Seq<char>),
>
    decreases flat.len(),
{
    if flat.len() == 0 {
        Seq::empty()
    } else {
        let rest = spec_group_pairs(flat.drop_last(), name);
        if flat.last().name == name {
            rest + spec_tags_pairs(flat.last().tags)
        } else {
            rest
        }
    }
}

/// The values carried by pairs with key `key`, in order.
pub open spec fn spec_key_values(pairs: Seq<(Seq<char>, Seq<char>)>, key: Seq<char>) -> Seq<
    Seq<char>,
>
    decreases pairs.len(),
{
    if pairs.len() == 0 {
        Seq::empty()
    } else {
        let rest = spec_key_values(pairs.drop_last(), key);
        if pairs.last().0 == key {
            rest.push(pairs.last().1)
        } else {
            rest
        }
    }
}

/// First-seen-order deduplication: keeps the first occurrence of each
/// element and drops the rest.
pub open spec fn spec_dedup(s: Seq<Seq<char>>) -> Seq<Seq<char>>
    decreases s.len(),
{
    if s.len() == 0 {
        Seq::empty()
    } else {
        let rest = spec_dedup(s.drop_last());
        if rest.contains(s.last()) {
            rest
        } else {
            rest.push(s.last())
        }
    }
}

/// Position of the first occurrence of `x` in `s`, or `s.len()` when
/// `x` does not occur.
pub open spec fn spec_first_pos(s: Seq<Seq<char>>, x: Seq<char>) -> int {
    match s.index_of_first(x) {
        Some(i) => i,
        None => s.len() as int,
    }
}

/// Per-key values distribute over concatenation of pair sequences.
pub proof fn lemma_key_values_concat(
    p1: Seq<(Seq<char>, Seq<char>)>,
    p2: Seq<(Seq<char>, Seq<char>)>,
    k: Seq<char>,
)
    ensures
        spec_key_values(p1 + p2, k) == spec_key_values(p1, k) + spec_key_values(p2, k),
    decreases p2.len(),
{
    if p2.len() == 0 {
        assert(p1 + p2 =~= p1);
        assert(spec_key_values(p1, k) + spec_key_values(p2, k) =~= spec_key_values(p1, k));
    } else {
        let q = p2.drop_last();
        lemma_key_values_concat(p1, q, k);
        assert((p1 + p2).drop_last() =~= p1 + q);
        assert((p1 + p2).last() == p2.last());
        if p2.last().0 == k {
            assert((spec_key_values(p1, k) + spec_key_values(q, k)).push(p2.last().1)
                =~= spec_key_values(p1, k) + spec_key_values(q, k).push(p2.last().1));
        }
    }
}

/// Group values distribute over concatenation of result sequences.
pub proof fn lemma_group_values_concat(
    f1: Seq<MetricResultV>,
    f2: Seq<MetricResultV>,
    name: Seq<char>,
)
    ensures
        spec_group_values(f1 + f2, name) == spec_group_values(f1, name) + spec_group_values(
            f2,
            name,
        ),
    decreases f2.len(),
{
    if f2.len() == 0 {
        assert(f1 + f2 =~= f1);
        assert(spec_group_values(f1, name) + spec_group_values(f2, name) =~= spec_group_values(
            f1,
            name,
        ));
    } else {
        let q = f2.drop_last();
        lemma_group_values_concat(f1, q, name);
        assert((f1 + f2).drop_last() =~= f1 + q);
        assert((f1 + f2).last() == f2.last());
        if f2.last().name == name {
            assert((spec_group_values(f1, name) + spec_group_values(q, name)) + f2.last().values
                =~= spec_group_values(f1, name) + (spec_group_values(q, name)
                + f2.last().values));
        }
    }
}

/// Group tag pairs distribute over concatenation of result sequences.
pub proof fn lemma_group_pairs_concat(
    f1: Seq<MetricResultV>,
    f2: Seq<MetricResultV>,
    name: Seq<char>,
)
    ensures
        spec_group_pairs(f1 + f2, name) == spec_group_pairs(f1, name) + spec_group_pairs(
            f2,
            name,
        ),
    decreases f2.len(),
{
    if f2.len() == 0 {
        assert(f1 + f2 =~= f1);
        assert(spec_group_pairs(f1, name) + spec_group_pairs(f2, name) =~= spec_group_pairs(
            f1,
            name,
        ));
    } else {
        let q = f2.drop_last();
        lemma_group_pairs_concat(f1, q, name);
        assert((f1 + f2).drop_last() =~= f1 + q);
        assert((f1 + f2).last() == f2.last());
        if f2.last().name == name {
            assert((spec_group_pairs(f1, name) + spec_group_pairs(q, name)) + spec_tags_pairs(
                f2.last().tags,
            ) =~= spec_group_pairs(f1, name) + (spec_group_pairs(q, name) + spec_tags_pairs(
                f2.last().tags,
            )));
        }
    }
}

/// Deduplication keeps no duplicates and exactly the elements of its
/// input.
pub proof fn lemma_dedup_properties(s: Seq<Seq<char>>)
    ensures
        spec_dedup(s).no_duplicates(),
        forall|x: Seq<char>| #[trigger] spec_dedup(s).contains(x) == s.contains(x),
    decreases s.len(),
{
    if s.len() == 0 {
    } else {
        let q = s.drop_last();
        let a = s.last();
        lemma_dedup_properties(q);
        assert forall|x: Seq<char>| #[trigger] spec_dedup(s).contains(x) == s.contains(x) by {
            if spec_dedup(s).contains(x) {
                let i = choose|i: int|
                    0 <= i < spec_dedup(s).len() && spec_dedup(s)[i] == x;
                if spec_dedup(q).contains(a) {
                    assert(spec_dedup(q).contains(x));
                    assert(q.contains(x));
                    let m = choose|m: int| 0 <= m < q.len() && q[m] == x;
                    assert(s[m] == x);
                } else {
                    if i < spec_dedup(q).len() {
                        assert(spec_dedup(q).contains(x));
                        assert(q.contains(x));
                        let m = choose|m: int| 0 <= m < q.len() && q[m] == x;
                        assert(s[m] == x);
                    } else {
                        assert(x == a);
                        assert(s[s.len() - 1] == x);
                    }
                }
            }
            if s.contains(x) {
                let i = choose|i: int| 0 <= i < s.len() && s[i] == x;
                if i < s.len() - 1 {
                    assert(q[i] == x);
                    assert(q.contains(x));
                    assert(spec_dedup(q).contains(x));
                    if spec_dedup(q).contains(a) {
                    } else {
                        let m = choose|m: int|
                            0 <= m < spec_dedup(q).len() && spec_dedup(q)[m] == x;
                        assert(spec_dedup(s)[m] == x);
                    }
                } else {
                    assert(x == a);
                    if spec_dedup(q).contains(a) {
                    } else {
                        assert(spec_dedup(s)[spec_dedup(s).len() - 1] == a);
                    }
                }
            }
        }
        if spec_dedup(q).contains(a) {
        } else {
            let d = spec_dedup(s);
            assert forall|i: int, j: int| 0 <= i < j < d.len() implies d[i] != d[j] by {
                if j < d.len() - 1 {
                    assert(spec_dedup(q)[i] == d[i]);
                    assert(spec_dedup(q)[j] == d[j]);
                } else {
                    assert(d[j] == a);
                    assert(spec_dedup(q)[i] == d[i]);
                    assert(spec_dedup(q).contains(d[i]));
                }
            }
        }
    }
}

/// Pushing an element onto a sequence that already contains `x` keeps
/// the first occurrence of `x` where it was.
proof fn lemma_first_pos_push_contains(s: Seq<Seq<char>>, a: Seq<char>, x: Seq<char>)
    requires
        s.contains(x),
    ensures
        s.push(a).index_of_first(x) == s.index_of_first(x),
{
    let s2 = s.push(a);
    s.index_of_first_ensures(x);
    s2.index_of_first_ensures(x);
    let i = choose|i: int| 0 <= i < s.len() && s[i] == x;
    assert(s2[i] == x);
    assert(s2.contains(x));
    let fi = s.index_of_first(x)->0;
    let fi2 = s2.index_of_first(x)->0;
    assert(s2[fi] == s[fi]);
    if fi2 < fi {
        assert(s[fi2] == s2[fi2]);
        assert(false);
    }
    if fi < fi2 {
        assert(false);
    }
}

/// The first occurrence of a newly pushed element is at the end.
proof fn lemma_first_pos_push_new(s: Seq<Seq<char>>, a: Seq<char>)
    requires
        !s.contains(a),
    ensures
        s.push(a).index_of_first(a) == Some(s.len() as int),
{
    let s2 = s.push(a);
    s2.index_of_first_ensures(a);
    assert(s2[s.len() as int] == a);
    assert(s2.contains(a));
    let fi2 = s2.index_of_first(a)->0;
    if fi2 < s.len() {
        assert(s[fi2] == s2[fi2]);
        assert(s.contains(a));
        assert(false);
    }
}

/// Deduplication preserves first-seen order: elements of the result
/// are ordered by the position of their first occurrence in the input.
pub proof fn lemma_dedup_first_seen_order(s: Seq<Seq<char>>)
    ensures
        forall|i: int, j: int|
            0 <= i < j < spec_dedup(s).len() ==> spec_first_pos(s, #[trigger] spec_dedup(s)[i])
                < spec_first_pos(s, #[trigger] spec_dedup(s)[j]),
    decreases s.len(),
{
    if s.len() == 0 {
    } else {
        let q = s.drop_last();
        let a = s.last();
        let d = spec_dedup(s);
        lemma_dedup_first_seen_order(q);
        lemma_dedup_properties(q);
        assert(s =~= q.push(a));
        assert forall|i: int, j: int| 0 <= i < j < d.len() implies spec_first_pos(
            s,
            #[trigger] d[i],
        ) < spec_first_pos(s, #[trigger] d[j]) by {
            if spec_dedup(q).contains(a) {
                assert(d == spec_dedup(q));
                assert(spec_dedup(q)[i] == d[i] && spec_dedup(q)[j] == d[j]);
                assert(spec_dedup(q).contains(d[i]) && spec_dedup(q).contains(d[j]));
                assert(q.contains(d[i]) && q.contains(d[j]));
                q.index_of_first_ensures(d[i]);
                q.index_of_first_ensures(d[j]);
                lemma_first_pos_push_contains(q, a, d[i]);
                lemma_first_pos_push_contains(q, a, d[j]);
            } else {
                assert(d == spec_dedup(q).push(a));
                if j < d.len() - 1 {
                    assert(spec_dedup(q)[i] == d[i] && spec_dedup(q)[j] == d[j]);
                    assert(spec_dedup(q).contains(d[i]) && spec_dedup(q).contains(d[j]));
                    assert(q.contains(d[i]) && q.contains(d[j]));
                    q.index_of_first_ensures(d[i]);
                    q.index_of_first_ensures(d[j]);
                    lemma_first_pos_push_contains(q, a, d[i]);
                    lemma_first_pos_push_contains(q, a, d[j]);
                } else {
                    assert(d[j] == a);
                    assert(!q.contains(a));
                    assert(spec_dedup(q)[i] == d[i]);
                    assert(spec_dedup(q).contains(d[i]));
                    assert(q.contains(d[i]));
                    q.index_of_first_ensures(d[i]);
                    lemma_first_pos_push_contains(q, a, d[i]);
                    lemma_first_pos_push_new(q, a);
                }
            }
        }
    }
}

/// Tag merge is a deduplicating union preserving first-seen order: for
/// a key `k`, merging the pairs of one contribution and then another
/// yields exactly the values either contributes for `k`, without
/// duplicates, ordered by first occurrence across the actual merge
/// sequence; merging in the other order yields the same set of values.
pub proof fn lemma_tag_merge_dedup_union(
    p1: Seq<(Seq<char>, Seq<char>)>,
    p2: Seq<(Seq<char>, Seq<char>)>,
    k: Seq<char>,
)
    ensures
        spec_key_values(p1 + p2, k) == spec_key_values(p1, k) + spec_key_values(p2, k),
        spec_dedup(spec_key_values(p1 + p2, k)).no_duplicates(),
        forall|x: Seq<char>|
            #[trigger] spec_dedup(spec_key_values(p1 + p2, k)).contains(x) == (spec_key_values(
                p1,
                k,
            ).contains(x) || spec_key_values(p2, k).contains(x)),
        forall|x: Seq<char>|
            #[trigger] spec_dedup(spec_key_values(p1 + p2, k)).contains(x) == spec_dedup(
                spec_key_values(p2 + p1, k),
            ).contains(x),
        forall|i: int, j: int|
            0 <= i < j < spec_dedup(spec_key_values(p1 + p2, k)).len() ==> spec_first_pos(
                spec_key_values(p1 + p2, k),
                #[trigger] spec_dedup(spec_key_values(p1 + p2, k))[i],
            ) < spec_first_pos(
                spec_key_values(p1 + p2, k),
                #[trigger] spec_dedup(spec_key_values(p1 + p2, k))[j],
            ),
{
    lemma_key_values_concat(p1, p2, k);
    lemma_key_values_concat(p2, p1, k);
    let v12 = spec_key_values(p1 + p2, k);
    let v21 = spec_key_values(p2 + p1, k);
    let a = spec_key_values(p1, k);
    let b = spec_key_values(p2, k);
    lemma_dedup_properties(v12);
    lemma_dedup_properties(v21);
    lemma_dedup_first_seen_order(v12);
    assert forall|x: Seq<char>| #[trigger] (a + b).contains(x) == (a.contains(x) || b.contains(
        x,
    )) by {
        if (a + b).contains(x) {
            let i = choose|i: int| 0 <= i < (a + b).len() && (a + b)[i] == x;
            if i < a.len() {
                assert(a[i] == x);
            } else {
                assert(b[i - a.len()] == x);
            }
        }
        if a.contains(x) {
            let i = choose|i: int| 0 <= i < a.len() && a[i] == x;
            assert((a + b)[i] == x);
        }
        if b.contains(x) {
            let i = choose|i: int| 0 <= i < b.len() && b[i] == x;
            assert((a + b)[a.len() + i] == x);
        }
    }
    assert forall|x: Seq<char>| #[trigger] (b + a).contains(x) == (b.contains(x) || a.contains(
        x,
    )) by {
        if (b + a).contains(x) {
            let i = choose|i: int| 0 <= i < (b + a).len() && (b + a)[i] == x;
            if i < b.len() {
                assert(b[i] == x);
            } else {
                assert(a[i - b.len()] == x);
            }
        }
        if b.contains(x) {
            let i = choose|i: int| 0 <= i < b.len() && b[i] == x;
            assert((b + a)[i] == x);
        }
        if a.contains(x) {
            let i = choose|i: int| 0 <= i < a.len() && a[i] == x;
            assert((b + a)[b.len() + i] == x);
        }
    }
}

/// Value merge is a multiset union: the merged value list of a metric
/// across two contributions holds exactly the values both contribute,
/// with multiplicity, and its length is the sum of the two
/// contributions' lengths. No order is promised: concatenation order
/// follows arrival order.
pub proof fn lemma_value_merge_multiset(
    f1: Seq<MetricResultV>,
    f2: Seq<MetricResultV>,
    name: Seq<char>,
)
    ensures
        spec_group_values(f1 + f2, name) == spec_group_values(f1, name) + spec_group_values(
            f2,
            name,
        ),
        spec_group_values(f1 + f2, name).to_multiset() == spec_group_values(
            f1,
            name,
        ).to_multiset().add(spec_group_values(f2, name).to_multiset()),
        spec_group_values(f1 + f2, name).len() == spec_group_values(f1, name).len()
            + spec_group_values(f2, name).len(),
{
    lemma_group_values_concat(f1, f2, name);
    let a = spec_group_values(f1, name);
    let b = spec_group_values(f2, name);
    vstd::seq_lib::lemma_multiset_commutative(a, b);
    assert((a + b).to_multiset() =~= a.to_multiset().add(b.to_multiset()));
}

/// Whether some string in `names` reads `x`.
pub open spec fn has_name(names: Seq<String>, x: Seq<char>) -> bool {
    exists|p: int| 0 <= p < names.len() && (#[trigger] names[p])@ == x
}

/// Whether some result in `flat` is named `x`.
pub open spec fn has_result_name(flat: Seq<MetricResultV>, x: Seq<char>) -> bool {
    exists|j: int| 0 <= j < flat.len() && (#[trigger] flat[j]).name == x
}

/// Extending the result prefix by one either keeps the name set or
/// adds the new result's name.
proof fn lemma_has_result_name_step(fv: Seq<MetricResultV>, i: int)
    requires
        0 <= i < fv.len(),
    ensures
        forall|x: Seq<char>|
            #![trigger has_result_name(fv.subrange(0, i + 1), x)]
            has_result_name(fv.subrange(0, i + 1), x) == (has_result_name(fv.subrange(0, i), x)
                || fv[i].name == x),
{
    let s1 = fv.subrange(0, i + 1);
    let s0 = fv.subrange(0, i);
    assert forall|x: Seq<char>|
        #![trigger has_result_name(s1, x)]
        has_result_name(s1, x) == (has_result_name(s0, x) || fv[i].name == x) by {
        if has_result_name(s1, x) {
            let j = choose|j: int| 0 <= j < s1.len() && s1[j].name == x;
            if j < i {
                assert(s0[j] == s1[j]);
                assert(has_result_name(s0, x));
            } else {
                assert(s1[j] == fv[i]);
            }
        }
        if has_result_name(s0, x) {
            let j = choose|j: int| 0 <= j < s0.len() && s0[j].name == x;
            assert(s1[j] == s0[j]);
            assert(has_result_name(s1, x));
        }
        if fv[i].name == x {
            assert(s1[i] == fv[i]);
            assert(has_result_name(s1, x));
        }
    }
}

/// What the merged tag list of one metric group must be, given the
/// pairs its results contribute in arrival order: keys strictly sorted,
/// exactly the keys that contribute at least one pair, and per key the
/// contributed values deduplicated in first-seen order.
pub open spec fn is_merged_tags(
    pairs: Seq<(Seq<char>, Seq<char>)>,
    tags: Seq<TagEntryV>,
) -> bool {
    &&& forall|i: int, j: int|
        0 <= i < j < tags.len() ==> lex_lt(#[trigger] tags[i].key, #[trigger] tags[j].key)
    &&& forall|i: int|
        0 <= i < tags.len() ==> (#[trigger] tags[i]).values == spec_dedup(
            spec_key_values(pairs, tags[i].key),
        )
    &&& forall|i: int|
        0 <= i < tags.len() ==> spec_key_values(pairs, (#[trigger] tags[i]).key).len() > 0
    &&& forall|k: Seq<char>|
        #[trigger] spec_key_values(pairs, k).len() > 0 ==> exists|i: int|
            0 <= i < tags.len() && tags[i].key == k
}

/// What the merged output must be, given the flattened results of all
/// contributing responses in arrival order: one group per distinct
/// name, groups strictly sorted by name, values concatenated in arrival
/// order and tags merged per `is_merged_tags`.
pub open spec fn is_merged(flat: Seq<MetricResultV>, out: Seq<MetricResultV>) -> bool {
    &&& forall|i: int, j: int|
        0 <= i < j < out.len() ==> lex_lt(#[trigger] out[i].name, #[trigger] out[j].name)
    &&& forall|x: Seq<char>|
        #![trigger has_result_name(out, x)]
        #![trigger has_result_name(flat, x)]
        has_result_name(out, x) == has_result_name(flat, x)
    &&& forall|i: int|
        0 <= i < out.len() ==> (#[trigger] out[i]).values == spec_group_values(flat, out[i].name)
    &&& forall|i: int|
        0 <= i < out.len() ==> is_merged_tags(
            spec_group_pairs(flat, (#[trigger] out[i]).name),
            out[i].tags,
        )
}

/// Appending one pair extends the per-key value lists of exactly that
/// pair's key.
proof fn lemma_key_values_push(pairs: Seq<(Seq<char>, Seq<char>)>, pr: (Seq<char>, Seq<char>))
    ensures
        forall|k: Seq<char>|
            #![trigger spec_key_values(pairs.push(pr), k)]
            spec_key_values(pairs.push(pr), k) == (if pr.0 == k {
                spec_key_values(pairs, k).push(pr.1)
            } else {
                spec_key_values(pairs, k)
            }),
{
    assert forall|k: Seq<char>|
        #![trigger spec_key_values(pairs.push(pr), k)]
        spec_key_values(pairs.push(pr), k) == (if pr.0 == k {
            spec_key_values(pairs, k).push(pr.1)
        } else {
            spec_key_values(pairs, k)
        }) by {
        assert(pairs.push(pr).drop_last() =~= pairs);
        assert(pairs.push(pr).last() == pr);
    }
}

/// Deduplicating after an append: a value already present leaves the
/// result unchanged, a new one lands at the end.
proof fn lemma_dedup_push(s: Seq<Seq<char>>, v: Seq<char>)
    ensures
        spec_dedup(s).contains(v) ==> spec_dedup(s.push(v)) == spec_dedup(s),
        !spec_dedup(s).contains(v) ==> spec_dedup(s.push(v)) == spec_dedup(s).push(v),
{
    assert(s.push(v).drop_last() =~= s);
    assert(s.push(v).last() == v);
}

/// Whether some string in `v` reads `s`.
fn vec_contains_str(v: &Vec<String>, s: &String) -> (r: bool)
    ensures
        r == v@.map_values(|x: String| x@).contains(s@),
{
    let n = v.len();
    let mut i: usize = 0;
    while i < n
        invariant
            n == v@.len(),
            i <= n,
            forall|j: int| 0 <= j < i ==> (#[trigger] v@[j])@ != s@,
        decreases n - i,
    {
        if str_eq(v[i].as_str(), s.as_str()) {
            assert(v@.map_values(|x: String| x@)[i as int] == s@);
            return true;
        }
        i = i + 1;
    }
    proof {
        let m = v@.map_values(|x: String| x@);
        if m.contains(s@) {
            let j = choose|j: int| 0 <= j < m.len() && m[j] == s@;
            assert(v@[j]@ == s@);
        }
    }
    false
}

/// Fold one contributed (key, value) pair into a merged tag list,
/// preserving `is_merged_tags`.
#[verifier::rlimit(60)]
fn add_tag_pair(
    tags: &mut Vec<TagEntry>,
    key: &String,
    value: &String,
    Ghost(pairs): Ghost<Seq<(Seq<char>, Seq<char>)>>,
)
    requires
        is_merged_tags(pairs, tags_view(old(tags)@)),
    ensures
        is_merged_tags(pairs.push((key@, value@)), tags_view(final(tags)@)),
{
    let ghost pairs2 = pairs.push((key@, value@));
    proof {
        lemma_key_values_push(pairs, (key@, value@));
    }
    let n = tags.len();
    let mut p: usize = 0;
    while p < n && str_lt(tags[p].key.as_str(), key.as_str())
        invariant
            n == tags@.len(),
            p <= n,
            tags@ == old(tags)@,
            forall|j: int| 0 <= j < p ==> lex_lt((#[trigger] tags@[j])@.key, key@),
        decreases n - p,
    {
        p = p + 1;
    }
    let ghost ov = tags_view(old(tags)@);
    if p < n && str_eq(tags[p].key.as_str(), key.as_str()) {
        proof {
            assert(ov[p as int].key == key@);
        }
        if vec_contains_str(&tags[p].values, value) {
            proof {
                assert(ov[p as int].values.contains(value@));
                assert(ov[p as int].values == spec_dedup(spec_key_values(pairs, key@)));
                lemma_dedup_push(spec_key_values(pairs, key@), value@);
                assert(spec_key_values(pairs2, key@) == spec_key_values(pairs, key@).push(
                    value@,
                ));
                assert(tags_view(tags@) == ov);
                assert forall|i: int|
                    0 <= i < ov.len() implies (#[trigger] ov[i]).values == spec_dedup(
                    spec_key_values(pairs2, ov[i].key),
                ) && spec_key_values(pairs2, ov[i].key).len() > 0 by {
                    if ov[i].key == key@ {
                        assert(ov[i].values == ov[p as int].values);
                    }
                }
                assert forall|k: Seq<char>|
                    #[trigger] spec_key_values(pairs2, k).len() > 0 implies exists|i: int|
                    0 <= i < ov.len() && ov[i].key == k by {
                    if k == key@ {
                        assert(ov[p as int].key == k);
                    } else {
                        assert(spec_key_values(pairs, k).len() > 0);
                    }
                }
            }
        } else {
            let mut e = tags.remove(p);
            e.values.push(value.clone());
            tags.insert(p, e);
            proof {
                let nv = tags_view(tags@);
                assert(tags@.len() == old(tags)@.len());
                assert forall|j: int| 0 <= j < nv.len() && j != p implies #[trigger] tags@[j]
                    == old(tags)@[j] by {
                    old(tags)@.remove_ensures(p as int);
                    old(tags)@.remove(p as int).insert_ensures(p as int, tags@[p as int]);
                }
                assert(forall|j: int| 0 <= j < nv.len() && j != p ==> #[trigger] nv[j] == ov[j]);
                assert(nv[p as int].key == ov[p as int].key);
                assert(tags@[p as int].values@ == old(tags)@[p as int].values@.push(*value));
                assert(nv[p as int].values =~= ov[p as int].values.push(value@));
                assert(!ov[p as int].values.contains(value@));
                lemma_dedup_push(spec_key_values(pairs, key@), value@);
                assert(nv[p as int].values == spec_dedup(spec_key_values(pairs2, key@)));
                assert forall|i: int, j: int| 0 <= i < j < nv.len() implies lex_lt(
                    #[trigger] nv[i].key,
                    #[trigger] nv[j].key,
                ) by {
                    assert(ov[i].key == nv[i].key);
                    assert(ov[j].key == nv[j].key);
                }
                assert forall|i: int|
                    0 <= i < nv.len() implies (#[trigger] nv[i]).values == spec_dedup(
                    spec_key_values(pairs2, nv[i].key),
                ) && spec_key_values(pairs2, nv[i].key).len() > 0 by {
                    if i != p {
                        assert(nv[i] == ov[i]);
                        if ov[i].key == key@ {
                            assert(ov[i].key == ov[p as int].key);
                            if i < p {
                                assert(lex_lt(ov[i].key, ov[p as int].key));
                                crate::text::lemma_lex_lt_asymmetric(ov[i].key, ov[p as int].key);
                                assert(false);
                            } else {
                                assert(lex_lt(ov[p as int].key, ov[i].key));
                                crate::text::lemma_lex_lt_asymmetric(ov[p as int].key, ov[i].key);
                                assert(false);
                            }
                        }
                    }
                }
                assert forall|k: Seq<char>|
                    #[trigger] spec_key_values(pairs2, k).len() > 0 implies exists|i: int|
                    0 <= i < nv.len() && nv[i].key == k by {
                    if k == key@ {
                        assert(nv[p as int].key == k);
                    } else {
                        assert(spec_key_values(pairs, k).len() > 0);
                        let i = choose|i: int| 0 <= i < ov.len() && ov[i].key == k;
                        assert(nv[i].key == k);
                    }
                }
            }
        }
    } else {
        proof {
            if p < n && !lex_lt(key@, ov[p as int].key) {
                lemma_lex_lt_connected(key@, ov[p as int].key);
                assert(false);
            }
            // no entry carries this key, so it contributed no pairs yet
            assert forall|i: int| 0 <= i < ov.len() implies (#[trigger] ov[i]).key != key@ by {
                if i < p {
                    assert(lex_lt(ov[i].key, key@));
                    if ov[i].key == key@ {
                        crate::text::lemma_lex_lt_asymmetric(ov[i].key, key@);
                        assert(lex_lt(key@, key@));
                        assert(false);
                    }
                } else if p < n {
                    if ov[i].key == key@ {
                        if i == p {
                            assert(false);
                        } else {
                            assert(lex_lt(ov[p as int].key, ov[i].key));
                            crate::text::lemma_lex_lt_asymmetric(key@, ov[p as int].key);
                            assert(false);
                        }
                    }
                }
            }
            if spec_key_values(pairs, key@).len() > 0 {
                let i = choose|i: int| 0 <= i < ov.len() && ov[i].key == key@;
                assert(false);
            }
            assert(spec_key_values(pairs, key@) =~= Seq::<Seq<char>>::empty());
        }
        let mut vals: Vec<String> = Vec::new();
        vals.push(value.clone());
        tags.insert(p, TagEntry { key: key.clone(), values: vals });
        proof {
            let nv = tags_view(tags@);
            old(tags)@.insert_ensures(p as int, tags@[p as int]);
            assert(nv.len() == ov.len() + 1);
            assert(forall|j: int| 0 <= j < p ==> #[trigger] tags@[j] == old(tags)@[j]);
            assert(forall|j: int| p < j < nv.len() ==> #[trigger] tags@[j] == old(tags)@[j - 1]);
            assert(forall|j: int| 0 <= j < p ==> #[trigger] nv[j] == ov[j]);
            assert(forall|j: int| p < j < nv.len() ==> #[trigger] nv[j] == ov[j - 1]);
            assert(nv[p as int].key == key@);
            assert(nv[p as int].values =~= Seq::<Seq<char>>::empty().push(value@));
            assert(spec_key_values(pairs2, key@) == spec_key_values(pairs, key@).push(value@));
            assert(spec_key_values(pairs2, key@) =~= Seq::<Seq<char>>::empty().push(value@));
            assert(spec_dedup(spec_key_values(pairs2, key@)) =~= Seq::<Seq<char>>::empty().push(
                value@,
            )) by {
                lemma_dedup_push(Seq::<Seq<char>>::empty(), value@);
            }
            assert forall|i: int, j: int| 0 <= i < j < nv.len() implies lex_lt(
                #[trigger] nv[i].key,
                #[trigger] nv[j].key,
            ) by {
                if j < p as int {
                } else if i < p as int && j == p as int {
                    assert(lex_lt(ov[i].key, key@));
                } else if i < p as int && j > p as int {
                    assert(lex_lt(ov[i].key, ov[j - 1].key));
                } else if i == p as int {
                    assert(lex_lt(key@, ov[p as int].key));
                    if j - 1 > p as int {
                        lemma_lex_lt_transitive(key@, ov[p as int].key, ov[j - 1].key);
                    }
                } else {
                    assert(lex_lt(ov[i - 1].key, ov[j - 1].key));
                }
            }
            assert forall|i: int|
                0 <= i < nv.len() implies (#[trigger] nv[i]).values == spec_dedup(
                spec_key_values(pairs2, nv[i].key),
            ) && spec_key_values(pairs2, nv[i].key).len() > 0 by {
                if i < p as int {
                    assert(nv[i] == ov[i]);
                    assert(ov[i].key != key@);
                } else if i == p as int {
                } else {
                    assert(nv[i] == ov[i - 1]);
                    assert(ov[i - 1].key != key@);
                }
            }
            assert forall|k: Seq<char>|
                #[trigger] spec_key_values(pairs2, k).len() > 0 implies exists|i: int|
                0 <= i < nv.len() && nv[i].key == k by {
                if k == key@ {
                    assert(nv[p as int].key == k);
                } else {
                    assert(spec_key_values(pairs, k).len() > 0);
                    let i = choose|i: int| 0 <= i < ov.len() && ov[i].key == k;
                    if i < p as int {
                        assert(nv[i].key == k);
                    } else {
                        assert(nv[i + 1].key == k);
                    }
                }
            }
        }
    }
}

/// The merged tag list for the group of results named `name`: every
/// contributed (key, value) pair folded in arrival order.
fn merge_tags_for(flat: &Vec<MetricResult>, name: &String) -> (tags: Vec<TagEntry>)
    ensures
        is_merged_tags(spec_group_pairs(results_view(flat@), name@), tags_view(tags@)),
{
    let ghost fv = results_view(flat@);
    let n = flat.len();
    let mut tags: Vec<TagEntry> = Vec::new();
    let mut i: usize = 0;
    while i < n
        invariant
            n == flat@.len(),
            i <= n,
            fv == results_view(flat@),
            is_merged_tags(spec_group_pairs(fv.subrange(0, i as int), name@), tags_view(tags@)),
        decreases n - i,
    {
        proof {
            assert(fv.subrange(0, i as int + 1).drop_last() =~= fv.subrange(0, i as int));
            assert(fv.subrange(0, i as int + 1).last() == fv[i as int]);
            assert(fv[i as int] == flat@[i as int]@);
        }
        if str_eq(flat[i].name.as_str(), name.as_str()) {
            let ghost base = spec_group_pairs(fv.subrange(0, i as int), name@);
            let ghost etags = fv[i as int].tags;
            proof {
                assert(etags == tags_view(flat@[i as int].tags@));
                assert(spec_tags_pairs(etags.subrange(0, 0)) =~= Seq::<
                    (Seq<char>, Seq<char>),
                >::empty());
                assert(base + spec_tags_pairs(etags.subrange(0, 0)) =~= base);
            }
            let tlen = flat[i].tags.len();
            let mut t: usize = 0;
            while t < tlen
                invariant
                    n == flat@.len(),
                    i < n,
                    fv == results_view(flat@),
                    etags == fv[i as int].tags,
                    base == spec_group_pairs(fv.subrange(0, i as int), name@),
                    tlen == flat@[i as int].tags@.len(),
                    t <= tlen,
                    is_merged_tags(
                        base + spec_tags_pairs(etags.subrange(0, t as int)),
                        tags_view(tags@),
                    ),
                decreases tlen - t,
            {
                let ghost entry = etags[t as int];
                let ghost tbase = base + spec_tags_pairs(etags.subrange(0, t as int));
                proof {
                    assert(entry == flat@[i as int].tags@[t as int]@);
                    assert(entry.values.subrange(0, 0).map_values(
                        |x: Seq<char>| (entry.key, x),
                    ) =~= Seq::<(Seq<char>, Seq<char>)>::empty());
                    assert(tbase + entry.values.subrange(0, 0).map_values(
                        |x: Seq<char>| (entry.key, x),
                    ) =~= tbase);
                }
                let vlen = flat[i].tags[t].values.len();
                let mut v: usize = 0;
                while v < vlen
                    invariant
                        n == flat@.len(),
                        i < n,
                        fv == results_view(flat@),
                        etags == fv[i as int].tags,
                        tlen == flat@[i as int].tags@.len(),
                        t < tlen,
                        entry == etags[t as int],
                        entry == flat@[i as int].tags@[t as int]@,
                        tbase == base + spec_tags_pairs(etags.subrange(0, t as int)),
                        vlen == flat@[i as int].tags@[t as int].values@.len(),
                        v <= vlen,
                        is_merged_tags(
                            tbase + entry.values.subrange(0, v as int).map_values(
                                (|x: Seq<char>| (entry.key, x)),
                            ),
                            tags_view(tags@),
                        ),
                    decreases vlen - v,
                {
                    let ghost cur = tbase + entry.values.subrange(0, v as int).map_values(
                        (|x: Seq<char>| (entry.key, x)),
                    );
                    let e = &flat[i].tags[t];
                    proof {
                        assert(e.key@ == entry.key);
                        assert(e.values@[v as int]@ == entry.values[v as int]);
                    }
                    add_tag_pair(&mut tags, &e.key, &e.values[v], Ghost(cur));
                    proof {
                        assert(cur.push((entry.key, entry.values[v as int])) =~= tbase
                            + entry.values.subrange(0, v as int + 1).map_values(
                            (|x: Seq<char>| (entry.key, x)),
                        ));
                    }
                    v = v + 1;
                }
                proof {
                    assert(entry.values.subrange(0, vlen as int) =~= entry.values);
                    assert(entry.values.subrange(0, vlen as int).map_values(
                        (|x: Seq<char>| (entry.key, x)),
                    ) == spec_entry_pairs(entry));
                    assert(etags.subrange(0, t as int + 1).drop_last() =~= etags.subrange(
                        0,
                        t as int,
                    ));
                    assert(etags.subrange(0, t as int + 1).last() == etags[t as int]);
                    assert(tbase + spec_entry_pairs(entry) =~= base + spec_tags_pairs(
                        etags.subrange(0, t as int + 1),
                    ));
                }
                t = t + 1;
            }
            proof {
                assert(etags.subrange(0, tlen as int) =~= etags);
                assert(fv[i as int].name == name@);
                assert(base + spec_tags_pairs(etags) == spec_group_pairs(
                    fv.subrange(0, i as int + 1),
                    name@,
                ));
            }
        } else {
            proof {
                assert(fv[i as int].name != name@);
                assert(spec_group_pairs(fv.subrange(0, i as int + 1), name@)
                    == spec_group_pairs(fv.subrange(0, i as int), name@));
            }
        }
        i = i + 1;
    }
    proof {
        assert(fv.subrange(0, n as int) =~= fv);
    }
    tags
}

/// All value lists of results named `name`, concatenated in arrival
/// order.
fn collect_values_for(flat: &Vec<MetricResult>, name: &String) -> (vals: Vec<serde_json::Value>)
    ensures
        vals@ == spec_group_values(results_view(flat@), name@),
{
    let ghost fv = results_view(flat@);
    let n = flat.len();
    let mut vals: Vec<serde_json::Value> = Vec::new();
    let mut i: usize = 0;
    while i < n
        invariant
            n == flat@.len(),
            i <= n,
            fv == results_view(flat@),
            vals@ == spec_group_values(fv.subrange(0, i as int), name@),
        decreases n - i,
    {
        proof {
            assert(fv.subrange(0, i as int + 1).drop_last() =~= fv.subrange(0, i as int));
            assert(fv.subrange(0, i as int + 1).last() == fv[i as int]);
            assert(fv[i as int] == flat@[i as int]@);
        }
        if str_eq(flat[i].name.as_str(), name.as_str()) {
            let m = flat[i].values.len();
            let mut j: usize = 0;
            while j < m
                invariant
                    n == flat@.len(),
                    i < n,
                    m == flat@[i as int].values@.len(),
                    j <= m,
                    fv == results_view(flat@),
                    vals@ == spec_group_values(fv.subrange(0, i as int), name@)
                        + flat@[i as int].values@.subrange(0, j as int),
                decreases m - j,
            {
                vals.push(json_clone(&flat[i].values[j]));
                proof {
                    assert(vals@ =~= spec_group_values(fv.subrange(0, i as int), name@)
                        + flat@[i as int].values@.subrange(0, j as int + 1));
                }
                j = j + 1;
            }
            proof {
                assert(flat@[i as int].values@.subrange(0, m as int) =~= flat@[i as int].values@);
                assert(fv[i as int].values == flat@[i as int].values@);
                assert(fv[i as int].name == name@);
            }
        } else {
            proof {
                assert(vals@ =~= spec_group_values(fv.subrange(0, i as int + 1), name@));
            }
        }
        i = i + 1;
    }
    proof {
        assert(fv.subrange(0, n as int) =~= fv);
    }
    vals
}

/// The distinct metric names occurring in `flat`, in strictly
/// ascending lexicographic order.
fn sorted_distinct_names(flat: &Vec<MetricResult>) -> (names: Vec<String>)
    ensures
        forall|i: int, j: int|
            0 <= i < j < names@.len() ==> lex_lt(#[trigger] names@[i]@, #[trigger] names@[j]@),
        forall|x: Seq<char>|
            #![trigger has_name(names@, x)]
            has_name(names@, x) == has_result_name(results_view(flat@), x),
{
    let ghost fv = results_view(flat@);
    let n = flat.len();
    let mut names: Vec<String> = Vec::new();
    let mut i: usize = 0;
    proof {
        assert forall|x: Seq<char>| #![trigger has_name(names@, x)]
            has_name(names@, x) == has_result_name(fv.subrange(0, 0), x) by {
            assert(!has_name(names@, x));
            assert(!has_result_name(fv.subrange(0, 0), x));
        }
    }
    while i < n
        invariant
            n == flat@.len(),
            i <= n,
            fv == results_view(flat@),
            forall|p: int, q: int|
                0 <= p < q < names@.len() ==> lex_lt(#[trigger] names@[p]@, #[trigger] names@[q]@),
            forall|x: Seq<char>|
                #![trigger has_name(names@, x)]
                has_name(names@, x) == has_result_name(fv.subrange(0, i as int), x),
        decreases n - i,
    {
        let ghost prev = names@;
        insert_sorted_unique(&mut names, &flat[i].name);
        proof {
            lemma_has_result_name_step(fv, i as int);
            assert(fv[i as int].name == flat@[i as int].name@);
            assert forall|x: Seq<char>| #![trigger has_name(names@, x)]
                has_name(names@, x) == has_result_name(fv.subrange(0, i as int + 1), x) by {
                assert(has_name(names@, x) == (has_name(prev, x) || x == flat@[i as int].name@));
                assert(has_result_name(fv.subrange(0, i as int + 1), x) == (has_result_name(
                    fv.subrange(0, i as int),
                    x,
                ) || fv[i as int].name == x));
            }
        }
        i = i + 1;
    }
    proof {
        assert(fv.subrange(0, n as int) =~= fv);
    }
    names
}

/// Merge the flattened results of all contributing backend responses,
/// in arrival order, into one group per distinct metric name, sorted
/// by name. Which metrics appear and in what order is deterministic;
/// the order inside a group's value list follows the arrival order of
/// the input.
pub fn merge_results(flat: &Vec<MetricResult>) -> (out: Vec<MetricResult>)
    ensures
        is_merged(results_view(flat@), results_view(out@)),
{
    let ghost fv = results_view(flat@);
    let names = sorted_distinct_names(flat);
    let mut out: Vec<MetricResult> = Vec::new();
    let k = names.len();
    let mut i: usize = 0;
    while i < k
        invariant
            fv == results_view(flat@),
            k == names@.len(),
            i <= k,
            out@.len() == i,
            forall|p: int, q: int|
                0 <= p < q < names@.len() ==> lex_lt(#[trigger] names@[p]@, #[trigger] names@[q]@),
            forall|x: Seq<char>|
                #![trigger has_name(names@, x)]
                has_name(names@, x) == has_result_name(fv, x),
            forall|j: int| 0 <= j < i ==> (#[trigger] out@[j]).name@ == names@[j]@,
            forall|j: int|
                0 <= j < i ==> (#[trigger] out@[j]).values@ == spec_group_values(fv, names@[j]@),
            forall|j: int|
                0 <= j < i ==> is_merged_tags(
                    spec_group_pairs(fv, names@[j]@),
                    tags_view((#[trigger] out@[j]).tags@),
                ),
        decreases k - i,
    {
        let name = names[i].clone();
        let tags = merge_tags_for(flat, &name);
        let values = collect_values_for(flat, &name);
        out.push(MetricResult { name, tags, values });
        i = i + 1;
    }
    proof {
        let ov = results_view(out@);
        assert(ov.len() == names@.len());
        assert(forall|j: int| 0 <= j < ov.len() ==> (#[trigger] ov[j]).name == out@[j].name@);
        assert forall|x: Seq<char>|
            #![trigger has_result_name(ov, x)]
            #![trigger has_result_name(fv, x)]
            has_result_name(ov, x) == has_result_name(fv, x) by {
            if has_result_name(ov, x) {
                let j = choose|j: int| 0 <= j < ov.len() && ov[j].name == x;
                assert(names@[j]@ == x);
                assert(has_name(names@, x));
            }
            if has_result_name(fv, x) {
                assert(has_name(names@, x));
                let p = choose|p: int| 0 <= p < names@.len() && names@[p]@ == x;
                assert(ov[p].name == x);
            }
        }
        assert(forall|j: int|
            0 <= j < ov.len() ==> (#[trigger] ov[j]).values == out@[j].values@);
        assert(forall|j: int|
            0 <= j < ov.len() ==> (#[trigger] ov[j]).tags == tags_view(out@[j].tags@));
    }
    out
}

/// Insert `name` into a strictly-sorted list of names, keeping it
/// sorted and duplicate-free.
#[verifier::rlimit(50)]
fn insert_sorted_unique(names: &mut Vec<String>, name: &String)
    requires
        forall|p: int, q: int|
            0 <= p < q < old(names)@.len() ==> lex_lt(
                #[trigger] old(names)@[p]@,
                #[trigger] old(names)@[q]@,
            ),
    ensures
        forall|p: int, q: int|
            0 <= p < q < final(names)@.len() ==> lex_lt(
                #[trigger] final(names)@[p]@,
                #[trigger] final(names)@[q]@,
            ),
        forall|x: Seq<char>|
            #![trigger has_name(final(names)@, x)]
            has_name(final(names)@, x) == (has_name(old(names)@, x) || x == name@),
{
    let n = names.len();
    let mut p: usize = 0;
    while p < n && str_lt(names[p].as_str(), name.as_str())
        invariant
            n == names@.len(),
            p <= n,
            names@ == old(names)@,
            forall|j: int| 0 <= j < p ==> lex_lt((#[trigger] names@[j])@, name@),
        decreases n - p,
    {
        p = p + 1;
    }
    if p < n && str_eq(names[p].as_str(), name.as_str()) {
        proof {
            assert(names@[p as int]@ == name@);
            assert forall|x: Seq<char>| #![trigger has_name(names@, x)]
                has_name(names@, x) == (has_name(old(names)@, x) || x == name@) by {
                if x == name@ {
                    assert(names@[p as int]@ == x);
                    assert(has_name(names@, x));
                }
            }
        }
        return ;
    }
    proof {
        if p < n && !lex_lt(name@, names@[p as int]@) {
            lemma_lex_lt_connected(name@, names@[p as int]@);
            assert(false);
        }
    }
    names.insert(p, name.clone());
    proof {
        let nv = names@;
        let ov = old(names)@;
        ov.insert_ensures(p as int, *name);
        assert(nv.len() == ov.len() + 1);
        assert(forall|j: int| 0 <= j < p ==> #[trigger] nv[j] == ov[j]);
        assert(nv[p as int]@ == name@);
        assert(forall|j: int| p < j < nv.len() ==> #[trigger] nv[j] == ov[j - 1]);
        assert forall|i: int, j: int| 0 <= i < j < nv.len() implies lex_lt(
            #[trigger] nv[i]@,
            #[trigger] nv[j]@,
        ) by {
            if j < p as int {
            } else if i < p as int && j == p as int {
                assert(lex_lt(ov[i]@, name@));
            } else if i < p as int && j > p as int {
                assert(lex_lt(ov[i]@, ov[j - 1]@));
            } else if i == p as int {
                assert(lex_lt(name@, ov[p as int]@));
                if j - 1 > p as int {
                    lemma_lex_lt_transitive(name@, ov[p as int]@, ov[j - 1]@);
                }
            } else {
                assert(lex_lt(ov[i - 1]@, ov[j - 1]@));
            }
        }
        assert forall|x: Seq<char>| #![trigger has_name(nv, x)]
            has_name(nv, x) == (has_name(ov, x) || x == name@) by {
            if has_name(nv, x) {
                let q = choose|q: int| 0 <= q < nv.len() && nv[q]@ == x;
                if q < p as int {
                    assert(ov[q]@ == x);
                    assert(has_name(ov, x));
                } else if q == p as int {
                    assert(x == name@);
                } else {
                    assert(ov[q - 1]@ == x);
                    assert(has_name(ov, x));
                }
            }
            if has_name(ov, x) {
                let q = choose|q: int| 0 <= q < ov.len() && ov[q]@ == x;
                if q < p as int {
                    assert(nv[q]@ == x);
                } else {
                    assert(nv[q + 1]@ == x);
                }
                assert(has_name(nv, x));
            }
            if x == name@ {
                assert(nv[p as int]@ == x);
                assert(has_name(nv, x));
            }
        }
    }
}

} // verus!
