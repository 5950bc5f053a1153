use vstd::prelude::*;

use crate::value::{entry_views, has_key, lemma_map_view, lemma_seq_view, views_of, wf, Val, Node};
use crate::Error;

verus! {

broadcast use vstd::std_specs::vec::group_vec_axioms, vstd::seq::group_seq_axioms;

/// The key under which a mapping declares that it inherits entries from
/// another mapping.
pub open spec fn merge_key() -> Seq<char> {
    "<<"@
}

/// Index of the first entry whose key is the merge key, or `es.len()` when
/// there is none.
pub open spec fn first_merge_idx(es: Seq<(Seq<char>, Val)>) -> int
    decreases es.len(),
{
    if es.len() == 0 {
        0
    } else if es[0].0 == merge_key() {
        0
    } else {
        1 + first_merge_idx(es.drop_first())
    }
}

pub proof fn lemma_first_merge_idx(es: Seq<(Seq<char>, Val)>)
    ensures
        0 <= first_merge_idx(es) <= es.len(),
        first_merge_idx(es) < es.len() ==> es[first_merge_idx(es)].0 == merge_key(),
        forall|j: int| 0 <= j < first_merge_idx(es) ==> es[j].0 != merge_key(),
        first_merge_idx(es) == es.len() ==> forall|j: int|
            0 <= j < es.len() ==> es[j].0 != merge_key(),
    decreases es.len(),
{
    if es.len() > 0 && es[0].0 != merge_key() {
        lemma_first_merge_idx(es.drop_first());
        assert forall|j: int| 0 <= j < first_merge_idx(es) implies es[j].0 != merge_key() by {
            if j > 0 {
                assert(es.drop_first()[j - 1] == es[j]);
            }
        }
        assert forall|j: int|
            first_merge_idx(es) == es.len() && 0 <= j < es.len() implies es[j].0
            != merge_key() by {
            if j > 0 {
                assert(es.drop_first()[j - 1] == es[j]);
            }
        }
    }
}

/// A merge source must be a mapping or a sequence made of mappings alone.
pub open spec fn merge_shape_ok(m: Val) -> bool {
    match m {
        Val::Dict(_) => true,
        Val::Arr(items) => forall|i: int| 0 <= i < items.len() ==> items[i] is Dict,
        _ => false,
    }
}

pub open spec fn entries_of(m: Val) -> Seq<(Seq<char>, Val)> {
    match m {
        Val::Dict(es) => es,
        _ => Seq::empty(),
    }
}

/// The entries contributed by a sequence of mappings, in sequence order.
pub open spec fn concat_entries(items: Seq<Val>) -> Seq<(Seq<char>, Val)>
    decreases items.len(),
{
    if items.len() == 0 {
        Seq::empty()
    } else {
        concat_entries(items.drop_last()) + entries_of(items.last())
    }
}

/// All entries a merge source contributes, in order of precedence.
pub open spec fn merge_entries(m: Val) -> Seq<(Seq<char>, Val)> {
    match m {
        Val::Dict(es) => es,
        Val::Arr(items) => concat_entries(items),
        _ => Seq::empty(),
    }
}

/// Appends each added entry whose key is not already present: entries of the
/// host mapping win, and among the added entries the earliest wins.
pub open spec fn add_absent(
    base: Seq<(Seq<char>, Val)>,
    adds: Seq<(Seq<char>, Val)>,
) -> Seq<(Seq<char>, Val)>
    decreases adds.len(),
{
    if adds.len() == 0 {
        base
    } else {
        let base2 = if has_key(base, adds[0].0) {
            base
        } else {
            base.push(adds[0])
        };
        add_absent(base2, adds.drop_first())
    }
}

/// The host mapping's entries once the merge entry at `i` is taken out, the
/// last entry swapped into its place.
pub open spec fn swap_removed(es: Seq<(Seq<char>, Val)>, i: int) -> Seq<(Seq<char>, Val)> {
    es.update(i, es.last()).drop_last()
}

/// Every element of a sequence resolved.
pub open spec fn resolve_all(items: Seq<Val>) -> Seq<Val>
    decreases items, 1int,
{
    Seq::new(
        items.len(),
        |i: int|
            if 0 <= i < items.len() {
                resolve(items[i])
            } else {
                Val::Null
            },
    )
}

/// Every entry's value resolved, keys untouched.
pub open spec fn resolve_vals(es: Seq<(Seq<char>, Val)>) -> Seq<(Seq<char>, Val)>
    decreases es, 1int,
{
    Seq::new(
        es.len(),
        |i: int|
            if 0 <= i < es.len() {
                (es[i].0, resolve(es[i].1))
            } else {
                (Seq::empty(), Val::Null)
            },
    )
}

/// Merge-directive resolution: inside every mapping, values are resolved
/// first; then, if the mapping holds a merge entry, that entry is taken out
/// (the mapping's last entry swapped into its place) and the entries of its
/// resolved value are appended, a key already present keeping its value.
/// Meaningful on `v` when `can_resolve(v)` holds.
pub open spec fn resolve(v: Val) -> Val
    decreases v, 0int,
{
    match v {
        Val::Arr(items) => Val::Arr(resolve_all(items)),
        Val::Dict(es) => {
            let res = resolve_vals(es);
            let i = first_merge_idx(es);
            if 0 <= i < es.len() {
                Val::Dict(add_absent(swap_removed(res, i), merge_entries(res[i].1)))
            } else {
                Val::Dict(res)
            }
        },
        _ => v,
    }
}

/// Whether every merge directive in `v` names a merge source of the accepted
/// shape, so that resolution goes through without error.
pub open spec fn can_resolve(v: Val) -> bool
    decreases v, 0int,
{
    match v {
        Val::Arr(items) => forall|i: int|
            0 <= i < items.len() ==> can_resolve(#[trigger] items[i]),
        Val::Dict(es) => {
            &&& forall|i: int| 0 <= i < es.len() ==> can_resolve(#[trigger] es[i].1)
            &&& {
                let i = first_merge_idx(es);
                0 <= i < es.len() ==> merge_shape_ok(resolve(es[i].1))
            }
        },
        _ => true,
    }
}

/// A value that carries no merge directive anywhere.
pub open spec fn merge_free(v: Val) -> bool
    decreases v,
{
    match v {
        Val::Arr(items) => forall|i: int|
            0 <= i < items.len() ==> merge_free(#[trigger] items[i]),
        Val::Dict(es) => {
            &&& forall|i: int| 0 <= i < es.len() ==> es[i].0 != merge_key()
            &&& forall|i: int| 0 <= i < es.len() ==> merge_free(#[trigger] es[i].1)
        },
        _ => true,
    }
}

/// Resolution is a no-op on an already-resolved value: a value free of merge
/// directives resolves, and resolves to itself.
pub proof fn lemma_resolve_resolved(v: Val)
    requires
        merge_free(v),
    ensures
        can_resolve(v),
        resolve(v) == v,
    decreases v,
{
    match v {
        Val::Arr(items) => {
            assert forall|i: int| 0 <= i < items.len() implies can_resolve(#[trigger] items[i])
                && resolve(items[i]) == items[i] by {
                lemma_resolve_resolved(items[i]);
            }
            assert(resolve_all(items) =~= items);
        },
        Val::Dict(es) => {
            assert forall|i: int| 0 <= i < es.len() implies can_resolve(#[trigger] es[i].1)
                && resolve(es[i].1) == es[i].1 by {
                lemma_resolve_resolved(es[i].1);
            }
            lemma_first_merge_idx(es);
            assert(first_merge_idx(es) == es.len());
            assert(resolve_vals(es) =~= es);
        },
        _ => {},
    }
}

/// Unique keys and well-formed values survive `add_absent`: an entry is
/// appended only under a key not yet present.
proof fn lemma_add_absent_wf(base: Seq<(Seq<char>, Val)>, adds: Seq<(Seq<char>, Val)>)
    requires
        forall|i: int, j: int| 0 <= i < j < base.len() ==> base[i].0 != base[j].0,
        forall|i: int| 0 <= i < base.len() ==> wf((#[trigger] base[i]).1),
        forall|i: int| 0 <= i < adds.len() ==> wf((#[trigger] adds[i]).1),
    ensures
        forall|i: int, j: int|
            0 <= i < j < add_absent(base, adds).len() ==> add_absent(base, adds)[i].0
                != add_absent(base, adds)[j].0,
        forall|i: int|
            0 <= i < add_absent(base, adds).len() ==> wf((#[trigger] add_absent(base, adds)[i]).1),
    decreases adds.len(),
{
    if adds.len() > 0 {
        let base2 = if has_key(base, adds[0].0) {
            base
        } else {
            base.push(adds[0])
        };
        assert forall|i: int, j: int| 0 <= i < j < base2.len() implies base2[i].0
            != base2[j].0 by {
            if j == base.len() {
                assert(!has_key(base, adds[0].0));
                assert(base2[j] == adds[0]);
            }
        }
        assert forall|i: int| 0 <= i < base2.len() implies wf((#[trigger] base2[i]).1) by {
            if i == base.len() {
                assert(base2[i] == adds[0]);
            }
        }
        assert forall|i: int| 0 <= i < adds.drop_first().len() implies wf(
            (#[trigger] adds.drop_first()[i]).1,
        ) by {
            assert(adds.drop_first()[i] == adds[i + 1]);
        }
        lemma_add_absent_wf(base2, adds.drop_first());
        assert(add_absent(base, adds) == add_absent(base2, adds.drop_first()));
    }
}

/// Unique keys and well-formed values survive taking one entry out by a
/// swap with the last entry.
proof fn lemma_swap_removed_wf(es: Seq<(Seq<char>, Val)>, i: int)
    requires
        0 <= i < es.len(),
        forall|a: int, b: int| 0 <= a < b < es.len() ==> es[a].0 != es[b].0,
        forall|a: int| 0 <= a < es.len() ==> wf((#[trigger] es[a]).1),
    ensures
        forall|a: int, b: int|
            0 <= a < b < swap_removed(es, i).len() ==> swap_removed(es, i)[a].0 != swap_removed(
                es,
                i,
            )[b].0,
        forall|a: int|
            0 <= a < swap_removed(es, i).len() ==> wf((#[trigger] swap_removed(es, i)[a]).1),
{
    let sr = swap_removed(es, i);
    assert forall|a: int| 0 <= a < sr.len() implies sr[a] == es[
        if a == i {
            es.len() - 1
        } else {
            a
        }
    ] by {}
    assert forall|a: int, b: int| 0 <= a < b < sr.len() implies sr[a].0 != sr[b].0 by {
        let ma: int = if a == i { es.len() - 1 } else { a };
        let mb: int = if b == i { es.len() - 1 } else { b };
        assert(ma != mb);
        if ma < mb {
            assert(es[ma].0 != es[mb].0);
        } else {
            assert(es[mb].0 != es[ma].0);
        }
    }
}

/// Entries gathered from a sequence of well-formed mappings carry
/// well-formed values.
proof fn lemma_concat_entries_wf(items: Seq<Val>)
    requires
        forall|i: int| 0 <= i < items.len() ==> wf(#[trigger] items[i]),
    ensures
        forall|i: int|
            0 <= i < concat_entries(items).len() ==> wf((#[trigger] concat_entries(items)[i]).1),
    decreases items.len(),
{
    if items.len() > 0 {
        assert forall|i: int| 0 <= i < items.drop_last().len() implies wf(
            #[trigger] items.drop_last()[i],
        ) by {
            assert(items.drop_last()[i] == items[i]);
        }
        lemma_concat_entries_wf(items.drop_last());
        let head = concat_entries(items.drop_last());
        let tail = entries_of(items.last());
        assert forall|i: int| 0 <= i < tail.len() implies wf((#[trigger] tail[i]).1) by {
            assert(wf(items.last()));
        }
        assert(concat_entries(items) == head + tail);
        assert forall|i: int| 0 <= i < concat_entries(items).len() implies wf(
            (#[trigger] concat_entries(items)[i]).1,
        ) by {
            if i < head.len() {
                assert(concat_entries(items)[i] == head[i]);
            } else {
                assert(concat_entries(items)[i] == tail[i - head.len()]);
            }
        }
    }
}

/// Resolution preserves well-formedness: a well-formed value that resolves
/// resolves to a well-formed value — every mapping of the result still has
/// unique keys.
pub proof fn lemma_resolve_wf(v: Val)
    requires
        wf(v),
        can_resolve(v),
    ensures
        wf(resolve(v)),
    decreases v,
{
    match v {
        Val::Arr(items) => {
            assert forall|i: int| 0 <= i < items.len() implies wf(
                #[trigger] resolve_all(items)[i],
            ) by {
                lemma_resolve_wf(items[i]);
            }
            assert(wf(Val::Arr(resolve_all(items))));
        },
        Val::Dict(es) => {
            let res = resolve_vals(es);
            assert forall|a: int| 0 <= a < res.len() implies wf((#[trigger] res[a]).1) by {
                lemma_resolve_wf(es[a].1);
            }
            assert(forall|a: int, b: int| 0 <= a < b < res.len() ==> res[a].0 != res[b].0);
            lemma_first_merge_idx(es);
            let i = first_merge_idx(es);
            if 0 <= i < es.len() {
                lemma_swap_removed_wf(res, i);
                let m = resolve(es[i].1);
                lemma_resolve_wf(es[i].1);
                assert(res[i].1 == m);
                let adds = merge_entries(m);
                assert forall|a: int| 0 <= a < adds.len() implies wf((#[trigger] adds[a]).1) by {
                    match m {
                        Val::Dict(_) => {},
                        Val::Arr(mitems) => {
                            lemma_concat_entries_wf(mitems);
                        },
                        _ => {},
                    }
                }
                lemma_add_absent_wf(swap_removed(res, i), adds);
            }
        },
        _ => {},
    }
}

/// No merge key and only merge-free values survive `add_absent`, when both
/// inputs are already so.
proof fn lemma_add_absent_merge_free(base: Seq<(Seq<char>, Val)>, adds: Seq<(Seq<char>, Val)>)
    requires
        forall|i: int| 0 <= i < base.len() ==> (#[trigger] base[i]).0 != merge_key(),
        forall|i: int| 0 <= i < base.len() ==> merge_free((#[trigger] base[i]).1),
        forall|i: int| 0 <= i < adds.len() ==> (#[trigger] adds[i]).0 != merge_key(),
        forall|i: int| 0 <= i < adds.len() ==> merge_free((#[trigger] adds[i]).1),
    ensures
        forall|i: int|
            0 <= i < add_absent(base, adds).len() ==> (#[trigger] add_absent(base, adds)[i]).0
                != merge_key(),
        forall|i: int|
            0 <= i < add_absent(base, adds).len() ==> merge_free(
                (#[trigger] add_absent(base, adds)[i]).1,
            ),
    decreases adds.len(),
{
    if adds.len() > 0 {
        let base2 = if has_key(base, adds[0].0) {
            base
        } else {
            base.push(adds[0])
        };
        assert forall|i: int| 0 <= i < base2.len() implies (#[trigger] base2[i]).0 != merge_key()
            && merge_free(base2[i].1) by {
            if i == base.len() {
                assert(base2[i] == adds[0]);
            }
        }
        assert forall|i: int| 0 <= i < adds.drop_first().len() implies (#[trigger] adds.drop_first()[i]).0
            != merge_key() && merge_free(adds.drop_first()[i].1) by {
            assert(adds.drop_first()[i] == adds[i + 1]);
        }
        lemma_add_absent_merge_free(base2, adds.drop_first());
        assert(add_absent(base, adds) == add_absent(base2, adds.drop_first()));
    }
}

/// Entries gathered from a sequence of merge-free mappings carry no merge
/// key and only merge-free values.
proof fn lemma_concat_entries_merge_free(items: Seq<Val>)
    requires
        forall|i: int| 0 <= i < items.len() ==> merge_free(#[trigger] items[i]),
    ensures
        forall|i: int|
            0 <= i < concat_entries(items).len() ==> (#[trigger] concat_entries(items)[i]).0
                != merge_key(),
        forall|i: int|
            0 <= i < concat_entries(items).len() ==> merge_free(
                (#[trigger] concat_entries(items)[i]).1,
            ),
    decreases items.len(),
{
    if items.len() > 0 {
        assert forall|i: int| 0 <= i < items.drop_last().len() implies merge_free(
            #[trigger] items.drop_last()[i],
        ) by {
            assert(items.drop_last()[i] == items[i]);
        }
        lemma_concat_entries_merge_free(items.drop_last());
        let head = concat_entries(items.drop_last());
        let tail = entries_of(items.last());
        assert forall|i: int| 0 <= i < tail.len() implies (#[trigger] tail[i]).0 != merge_key()
            && merge_free(tail[i].1) by {
            assert(merge_free(items.last()));
        }
        assert(concat_entries(items) == head + tail);
        assert forall|i: int| 0 <= i < concat_entries(items).len() implies (#[trigger] concat_entries(
            items,
        )[i]).0 != merge_key() && merge_free(concat_entries(items)[i].1) by {
            if i < head.len() {
                assert(concat_entries(items)[i] == head[i]);
            } else {
                assert(concat_entries(items)[i] == tail[i - head.len()]);
            }
        }
    }
}

/// Resolution leaves no directive behind: a well-formed value that resolves
/// resolves to a merge-free value, so the result is canonical and resolving
/// it again is a no-op.
pub proof fn lemma_resolve_merge_free(v: Val)
    requires
        wf(v),
        can_resolve(v),
    ensures
        merge_free(resolve(v)),
    decreases v,
{
    match v {
        Val::Arr(items) => {
            assert forall|i: int| 0 <= i < items.len() implies merge_free(
                #[trigger] resolve_all(items)[i],
            ) by {
                lemma_resolve_merge_free(items[i]);
            }
            assert(merge_free(Val::Arr(resolve_all(items))));
        },
        Val::Dict(es) => {
            let res = resolve_vals(es);
            assert forall|a: int| 0 <= a < res.len() implies merge_free((#[trigger] res[a]).1) by {
                lemma_resolve_merge_free(es[a].1);
            }
            lemma_first_merge_idx(es);
            let i = first_merge_idx(es);
            if 0 <= i < es.len() {
                let sr = swap_removed(res, i);
                assert forall|a: int| 0 <= a < sr.len() implies (#[trigger] sr[a]).0 != merge_key()
                    && merge_free(sr[a].1) by {
                    let ma: int = if a == i { es.len() - 1 } else { a };
                    assert(sr[a] == res[ma]);
                    assert(ma != i);
                    if ma < i {
                        assert(es[ma].0 != es[i].0);
                    } else {
                        assert(es[i].0 != es[ma].0);
                    }
                }
                let m = resolve(es[i].1);
                lemma_resolve_merge_free(es[i].1);
                let adds = merge_entries(m);
                assert forall|a: int| 0 <= a < adds.len() implies (#[trigger] adds[a]).0
                    != merge_key() && merge_free(adds[a].1) by {
                    match m {
                        Val::Dict(_) => {},
                        Val::Arr(mitems) => {
                            lemma_concat_entries_merge_free(mitems);
                        },
                        _ => {},
                    }
                }
                lemma_add_absent_merge_free(sr, adds);
                assert(merge_free(Val::Dict(add_absent(sr, adds))));
            } else {
                assert forall|a: int| 0 <= a < res.len() implies (#[trigger] res[a]).0
                    != merge_key() by {
                    assert(es[a].0 != merge_key());
                }
                assert(merge_free(Val::Dict(res)));
            }
        },
        _ => {},
    }
}

fn is_merge_key(k: &String) -> (b: bool)
    ensures
        b == (k@ == merge_key()),
{
    let m: String = "<<".to_owned();
    *k == m
}

fn contains_key(es: &Vec<(String, Node)>, k: &String) -> (b: bool)
    ensures
        b == has_key(entry_views(es@), k@),
{
    let n = es.len();
    let mut j: usize = 0;
    while j < n
        invariant
            n == es.len(),
            j <= n,
            forall|l: int| 0 <= l < j ==> entry_views(es@)[l].0 != k@,
        decreases n - j,
    {
        if es[j].0 == *k {
            proof {
                assert(entry_views(es@)[j as int].0 == k@);
            }
            return true;
        }
        j += 1;
    }
    false
}

/// Resolves every merge directive in `v`: exactly when `can_resolve(v@)`
/// holds the result is `resolve(v@)`; otherwise some merge source has an
/// unacceptable shape and the parse fails.
#[verifier::loop_isolation(false)]
pub fn resolve_merge(v: Node) -> (r: Result<Node, Error>)
    ensures
        r is Ok <==> can_resolve(v@),
        r matches Ok(rv) ==> rv@ == resolve(v@),
        r matches Err(e) ==> e is Parse,
    decreases v,
{
    let ghost v0 = v;
    match v {
        Node::Null => Ok(Node::Null),
        Node::Bool(b) => Ok(Node::Bool(b)),
        Node::Number(s) => Ok(Node::Number(s)),
        Node::Text(s) => Ok(Node::Text(s)),
        Node::Sequence(items) => {
            let ghost items0 = items;
            let ghost vs = views_of(items0@);
            proof {
                lemma_seq_view(items0);
            }
            let mut rest = items;
            let mut out: Vec<Node> = Vec::new();
            while rest.len() > 0
                invariant
                    out@.len() + rest@.len() == items0@.len(),
                    rest@ == items0@.subrange(out@.len() as int, items0@.len() as int),
                    vs == views_of(items0@),
                    v0 == Node::Sequence(items0),
                    forall|i: int| 0 <= i < out@.len() ==> (#[trigger] out@[i]).deep() == resolve(vs[i]),
                    forall|i: int| 0 <= i < out@.len() ==> can_resolve(#[trigger] vs[i]),
                decreases rest@.len(),
            {
                let ghost k = out@.len() as int;
                let x = rest.remove(0);
                proof {
                    assert(x == items0@[k]);
                    assert(decreases_to!(v0 => v0->Sequence_0));
                    assert(v0->Sequence_0 == items0);
                    assert(decreases_to!(items0 => items0@));
                    assert(decreases_to!(items0@ => items0@[k]));
                    assert(decreases_to!(v0 => x));
                }
                match resolve_merge(x) {
                    Ok(rv) => {
                        out.push(rv);
                        proof {
                            assert(rv@ == resolve(vs[k]));
                        }
                    },
                    Err(e) => {
                        proof {
                            assert(!can_resolve(vs[k]));
                            assert(!can_resolve(v0@));
                        }
                        return Err(e);
                    },
                }
            }
            proof {
                assert(views_of(out@) =~= resolve_all(vs));
                lemma_seq_view(out);
                assert(resolve(v0@) == Val::Arr(resolve_all(vs)));
            }
            Ok(Node::Sequence(out))
        },
        Node::Mapping(entries) => {
            let ghost entries0 = entries;
            let ghost es = entry_views(entries0@);
            proof {
                lemma_map_view(entries0);
                lemma_first_merge_idx(es);
            }
            let mut rest = entries;
            let mut res: Vec<(String, Node)> = Vec::new();
            while rest.len() > 0
                invariant
                    res@.len() + rest@.len() == entries0@.len(),
                    rest@ == entries0@.subrange(res@.len() as int, entries0@.len() as int),
                    es == entry_views(entries0@),
                    v0 == Node::Mapping(entries0),
                    forall|i: int| 0 <= i < res@.len() ==> (#[trigger] res@[i]).0@ == es[i].0,
                    forall|i: int| 0 <= i < res@.len() ==> (#[trigger] res@[i]).1.deep() == resolve(
                        es[i].1,
                    ),
                    forall|i: int| 0 <= i < res@.len() ==> can_resolve(#[trigger] es[i].1),
                decreases rest@.len(),
            {
                let ghost k = res@.len() as int;
                let kv = rest.remove(0);
                proof {
                    assert(kv == entries0@[k]);
                    assert(decreases_to!(v0 => v0->Mapping_0));
                    assert(v0->Mapping_0 == entries0);
                    assert(decreases_to!(entries0 => entries0@));
                    assert(decreases_to!(entries0@ => entries0@[k]));
                    assert(decreases_to!(v0 => kv.1));
                }
                let (key, val) = kv;
                match resolve_merge(val) {
                    Ok(rv) => {
                        res.push((key, rv));
                    },
                    Err(e) => {
                        proof {
                            assert(!can_resolve(es[k].1));
                            assert(!can_resolve(v0@));
                        }
                        return Err(e);
                    },
                }
            }
            proof {
                assert(entry_views(res@) =~= resolve_vals(es));
            }
            let n = res.len();
            let mut mi: usize = n;
            let mut j: usize = 0;
            while j < n
                invariant
                    n == res.len(),
                    j <= n,
                    es == entry_views(entries0@),
                    es.len() == n,
                    forall|i: int| 0 <= i < n ==> (#[trigger] res@[i]).0@ == es[i].0,
                    mi == n || (mi < j && es[mi as int].0 == merge_key()),
                    forall|l: int| 0 <= l < j && l < mi ==> es[l].0 != merge_key(),
                decreases n - j,
            {
                if mi == n && is_merge_key(&res[j].0) {
                    mi = j;
                }
                j += 1;
            }
            proof {
                if mi < n {
                    assert(first_merge_idx(es) == mi as int);
                } else {
                    assert(first_merge_idx(es) == es.len());
                }
            }
            if mi == n {
                proof {
                    lemma_map_view(res);
                    assert(resolve(v0@) == Val::Dict(resolve_vals(es)));
                }
                return Ok(Node::Mapping(res));
            }
            let merge_pair = res.swap_remove(mi);
            let ghost base = swap_removed(resolve_vals(es), mi as int);
            proof {
                assert(entry_views(res@) =~= base);
                assert(merge_pair.1@ == resolve(es[mi as int].1));
            }
            let mval = merge_pair.1;
            let ghost mres = resolve(es[mi as int].1);
            let pairs: Vec<(String, Node)> = match mval {
                Node::Mapping(ps) => {
                    proof {
                        lemma_map_view(ps);
                        assert(merge_shape_ok(mres));
                        assert(entry_views(ps@) == merge_entries(mres));
                    }
                    ps
                },
                Node::Sequence(elems) => {
                    let ghost elems0 = elems;
                    let ghost evs = views_of(elems0@);
                    proof {
                        lemma_seq_view(elems0);
                    }
                    let mut erest = elems;
                    let mut acc: Vec<(String, Node)> = Vec::new();
                    while erest.len() > 0
                        invariant
                            erest@.len() <= elems0@.len(),
                            erest@ == elems0@.subrange(
                                elems0@.len() - erest@.len(),
                                elems0@.len() as int,
                            ),
                            evs == views_of(elems0@),
                            entry_views(acc@) == concat_entries(
                                evs.take(elems0@.len() - erest@.len()),
                            ),
                            forall|l: int|
                                0 <= l < elems0@.len() - erest@.len() ==> (#[trigger] evs[l])
                                    is Dict,
                        decreases erest@.len(),
                    {
                        let ghost k = elems0@.len() - erest@.len();
                        let e = erest.remove(0);
                        proof {
                            assert(e == elems0@[k]);
                            assert(evs.take(k + 1).drop_last() =~= evs.take(k));
                            assert(evs.take(k + 1).last() == evs[k]);
                        }
                        match e {
                            Node::Mapping(ps) => {
                                let mut ps = ps;
                                proof {
                                    lemma_map_view(ps);
                                }
                                acc.append(&mut ps);
                                proof {
                                    assert(entry_views(acc@) =~= concat_entries(
                                        evs.take(k + 1),
                                    ));
                                }
                            },
                            _ => {
                                proof {
                                    assert(!(evs[k] is Dict));
                                    assert(!merge_shape_ok(mres));
                                    assert(!can_resolve(v0@));
                                }
                                return Err(
                                    Error::Parse(
                                        "a sequence named by a merge directive may hold mappings only".to_owned(),
                                    ),
                                );
                            },
                        }
                    }
                    proof {
                        assert(evs.take(elems0@.len() as int) =~= evs);
                        assert(merge_shape_ok(mres));
                        assert(entry_views(acc@) == merge_entries(mres));
                    }
                    acc
                },
                _ => {
                    proof {
                        assert(!merge_shape_ok(mres));
                        assert(!can_resolve(v0@));
                    }
                    return Err(
                        Error::Parse(
                            "a merge directive must name a mapping or a sequence of mappings".to_owned(),
                        ),
                    );
                },
            };
            let ghost adds = entry_views(pairs@);
            proof {
                assert(adds == merge_entries(mres));
            }
            let mut out = res;
            let mut prest = pairs;
            while prest.len() > 0
                invariant
                    add_absent(entry_views(out@), entry_views(prest@)) == add_absent(base, adds),
                decreases prest@.len(),
            {
                let ghost out_before = out@;
                let ghost prest_before = prest@;
                let p = prest.remove(0);
                proof {
                    assert(entry_views(prest_before)[0] == (p.0@, p.1@));
                    assert(entry_views(prest_before).drop_first() =~= entry_views(prest@));
                }
                let present = contains_key(&out, &p.0);
                if !present {
                    let ghost pv = (p.0@, p.1@);
                    out.push(p);
                    proof {
                        assert(entry_views(out@) =~= entry_views(out_before).push(pv));
                    }
                }
            }
            proof {
                assert(entry_views(prest@) =~= Seq::<(Seq<char>, Val)>::empty());
                assert(entry_views(out@) == add_absent(base, adds));
                lemma_map_view(out);
                assert(resolve(v0@) == Val::Dict(add_absent(base, adds)));
            }
            Ok(Node::Mapping(out))
        },
    }
}

} // verus!
