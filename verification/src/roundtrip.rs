//! The round-trip law: flattening a well-formed document and inserting
//! the flat entries back, one by one in order, rebuilds the document
//! exactly. Well-formed here means: every field name is non-empty and
//! free of `/`, names are unique within each node, every leaf is a
//! string, and no node is an array or empty — an empty node leaves no
//! flat entry, so it alone cannot survive the trip.

use crate::codec::child_fields;
use crate::codec::entries_of_fields;
use crate::codec::entry_group;
use crate::codec::insert_fields;
use crate::codec::prefix_all;
use crate::paths::lemma_split_prepend;
use crate::paths::lemma_split_whole;
use crate::paths::split_path;
use crate::paths::valid_segment;
use crate::tree::TreeV;
use vstd::prelude::*;

verus! {

/// A subtree that survives flattening whole: every leaf is a string,
/// no node is an array, and no node is empty.
pub open spec fn solid(t: TreeV) -> bool
    decreases t,
{
    match t {
        TreeV::Leaf(_) => true,
        TreeV::Node(fs) => fs.len() > 0 && forall|i: int|
            0 <= i < fs.len() ==> solid((#[trigger] fs[i]).1),
        TreeV::Array => false,
        TreeV::Scalar => false,
    }
}

/// Field names below this subtree are valid segments, unique within
/// each node.
pub open spec fn names_wf(t: TreeV) -> bool
    decreases t,
{
    match t {
        TreeV::Node(fs) => (forall|i: int|
            0 <= i < fs.len() ==> valid_segment((#[trigger] fs[i]).0)) && (forall|i: int, j: int|
            0 <= i < j < fs.len() ==> (#[trigger] fs[i]).0 != (#[trigger] fs[j]).0) && (forall|
            i: int,
        |
            0 <= i < fs.len() ==> names_wf((#[trigger] fs[i]).1)),
        _ => true,
    }
}

/// A field list rebuilt by inserting flat entries one by one, in
/// order, each key split into its segments — the model of pulling
/// every flat entry into an initially empty document.
pub open spec fn rebuild_from(
    acc: Seq<(Seq<char>, TreeV)>,
    es: Seq<(Seq<char>, Seq<char>)>,
) -> Seq<(Seq<char>, TreeV)>
    decreases es.len(),
{
    if es.len() == 0 {
        acc
    } else {
        rebuild_from(insert_fields(acc, split_path(es[0].0), es[0].1), es.drop_first())
    }
}

/// Rebuilding a concatenation rebuilds the parts in turn.
proof fn lemma_rebuild_append(
    acc: Seq<(Seq<char>, TreeV)>,
    a: Seq<(Seq<char>, Seq<char>)>,
    b: Seq<(Seq<char>, Seq<char>)>,
)
    ensures
        rebuild_from(acc, a + b) == rebuild_from(rebuild_from(acc, a), b),
    decreases a.len(),
{
    if a.len() == 0 {
        assert(a + b =~= b);
    } else {
        assert((a + b).drop_first() =~= a.drop_first() + b);
        assert((a + b)[0] == a[0]);
        lemma_rebuild_append(insert_fields(acc, split_path(a[0].0), a[0].1), a.drop_first(), b);
    }
}

/// A solid subtree contributes at least one flat entry.
proof fn lemma_group_nonempty(name: Seq<char>, c: TreeV)
    requires
        solid(c),
    ensures
        entry_group(name, c).len() >= 1,
    decreases c,
{
    match c {
        TreeV::Node(fs) => {
            lemma_group_nonempty(fs[0].0, fs[0].1);
            assert(entries_of_fields(fs, 0) == entry_group(fs[0].0, fs[0].1) + entries_of_fields(
                fs,
                1,
            ));
        },
        _ => {},
    }
}

/// Inserting a run of entries that all live under one existing node
/// field touches that field alone: the node's subtree absorbs the run
/// with the prefix stripped.
proof fn lemma_rebuild_group(
    acc: Seq<(Seq<char>, TreeV)>,
    p: int,
    name: Seq<char>,
    sub: Seq<(Seq<char>, Seq<char>)>,
)
    requires
        valid_segment(name),
        0 <= p < acc.len(),
        acc[p].0 == name,
        acc[p].1 is Node,
        forall|k: int| 0 <= k < p ==> (#[trigger] acc[k]).0 != name,
    ensures
        rebuild_from(acc, prefix_all(name, sub)) == acc.update(
            p,
            (name, TreeV::Node(rebuild_from(child_fields(acc[p].1), sub))),
        ),
    decreases sub.len(),
{
    let pg = prefix_all(name, sub);
    if sub.len() == 0 {
        assert(pg =~= Seq::<(Seq<char>, Seq<char>)>::empty());
        assert(acc.update(p, (name, TreeV::Node(child_fields(acc[p].1)))) =~= acc);
    } else {
        assert(pg[0] == (name + seq!['/'] + sub[0].0, sub[0].1));
        assert(pg.drop_first() =~= prefix_all(name, sub.drop_first()));
        lemma_split_prepend(name, sub[0].0);
        crate::codec::lemma_find_from_is(acc, name, 0, p);
        let segs = split_path(name + seq!['/'] + sub[0].0);
        assert(segs == seq![name] + split_path(sub[0].0));
        assert(segs[0] == name);
        assert(segs.drop_first() =~= split_path(sub[0].0));
        assert(segs.len() >= 2) by {
            assert(split_path(sub[0].0).len() >= 1);
        }
        let cf = child_fields(acc[p].1);
        let c1 = insert_fields(cf, split_path(sub[0].0), sub[0].1);
        let acc1 = insert_fields(acc, segs, pg[0].1);
        assert(acc1 == acc.update(p, (name, TreeV::Node(c1))));
        assert(forall|k: int| 0 <= k < p ==> (#[trigger] acc1[k]).0 != name);
        assert(acc1[p].0 == name && acc1[p].1 is Node);
        lemma_rebuild_group(acc1, p, name, sub.drop_first());
        assert(child_fields(acc1[p].1) == c1);
        assert(rebuild_from(cf, sub) == rebuild_from(c1, sub.drop_first()));
        assert(acc1.update(p, (name, TreeV::Node(rebuild_from(c1, sub.drop_first())))) =~= acc.update(
            p,
            (name, TreeV::Node(rebuild_from(cf, sub))),
        ));
    }
}

/// Rebuilding the flat entries of the fields from `i` on, after any
/// already-rebuilt fields whose names do not recur, appends exactly
/// those fields.
proof fn lemma_rebuild_fields(
    fs: Seq<(Seq<char>, TreeV)>,
    i: int,
    acc: Seq<(Seq<char>, TreeV)>,
)
    requires
        0 <= i <= fs.len(),
        forall|k: int|
            i <= k < fs.len() ==> valid_segment((#[trigger] fs[k]).0) && solid(fs[k].1) && names_wf(
                fs[k].1,
            ),
        forall|k1: int, k2: int|
            i <= k1 < k2 < fs.len() ==> (#[trigger] fs[k1]).0 != (#[trigger] fs[k2]).0,
        forall|m: int, k: int|
            0 <= m < acc.len() && i <= k < fs.len() ==> (#[trigger] acc[m]).0 != (
            #[trigger] fs[k]).0,
    ensures
        rebuild_from(acc, entries_of_fields(fs, i)) == acc + fs.skip(i),
    decreases fs, fs.len() - i,
{
    if i == fs.len() {
        assert(entries_of_fields(fs, i) =~= Seq::<(Seq<char>, Seq<char>)>::empty());
        assert(acc + fs.skip(i) =~= acc);
    } else {
        let name = fs[i].0;
        let c = fs[i].1;
        let group = entry_group(name, c);
        assert(entries_of_fields(fs, i) == group + entries_of_fields(fs, i + 1));
        lemma_rebuild_append(acc, group, entries_of_fields(fs, i + 1));
        crate::codec::lemma_find_from_is(acc, name, 0, acc.len() as int);
        let acc2: Seq<(Seq<char>, TreeV)>;
        match c {
            TreeV::Leaf(v) => {
                assert(group =~= seq![(name, v)]);
                lemma_split_whole(name);
                assert(group.drop_first() =~= Seq::<(Seq<char>, Seq<char>)>::empty());
                assert(split_path(name) == seq![name]);
                let x = insert_fields(acc, split_path(group[0].0), group[0].1);
                assert(rebuild_from(acc, group) == rebuild_from(x, group.drop_first()));
                assert(rebuild_from(x, group.drop_first()) == x);
                acc2 = acc.push((name, c));
                assert(x == acc2);
            },
            TreeV::Node(cf) => {
                let es = entries_of_fields(cf, 0);
                lemma_group_nonempty(name, c);
                assert(group == prefix_all(name, es));
                assert(es.len() >= 1);
                assert(group[0] == (name + seq!['/'] + es[0].0, es[0].1));
                assert(group.drop_first() =~= prefix_all(name, es.drop_first()));
                lemma_split_prepend(name, es[0].0);
                let segs = split_path(name + seq!['/'] + es[0].0);
                assert(segs[0] == name);
                assert(segs.drop_first() =~= split_path(es[0].0));
                assert(segs.len() >= 2) by {
                    assert(split_path(es[0].0).len() >= 1);
                }
                let c1 = insert_fields(
                    Seq::<(Seq<char>, TreeV)>::empty(),
                    split_path(es[0].0),
                    es[0].1,
                );
                let acc1 = insert_fields(acc, segs, es[0].1);
                assert(child_fields(TreeV::Scalar) =~= Seq::<(Seq<char>, TreeV)>::empty());
                assert(acc1 == acc.push((name, TreeV::Node(c1))));
                let p = acc.len() as int;
                assert(acc1[p].0 == name && acc1[p].1 is Node);
                assert(forall|k: int| 0 <= k < p ==> (#[trigger] acc1[k]).0 != name);
                lemma_rebuild_group(acc1, p, name, es.drop_first());
                assert(rebuild_from(acc, group) == rebuild_from(
                    rebuild_from(acc, seq![group[0]]),
                    group.drop_first(),
                )) by {
                    assert(group =~= seq![group[0]] + group.drop_first());
                    lemma_rebuild_append(acc, seq![group[0]], group.drop_first());
                }
                assert(rebuild_from(acc, seq![group[0]]) == acc1) by {
                    let g1 = seq![group[0]];
                    assert(g1.drop_first() =~= Seq::<(Seq<char>, Seq<char>)>::empty());
                    assert(g1[0] == group[0]);
                    let y = insert_fields(acc, split_path(g1[0].0), g1[0].1);
                    assert(rebuild_from(acc, g1) == rebuild_from(y, g1.drop_first()));
                    assert(rebuild_from(y, g1.drop_first()) == y);
                    assert(y == acc1);
                }
                assert(rebuild_from(c1, es.drop_first()) == rebuild_from(
                    Seq::<(Seq<char>, TreeV)>::empty(),
                    es,
                ));
                lemma_rebuild_fields(cf, 0, Seq::<(Seq<char>, TreeV)>::empty());
                assert(Seq::<(Seq<char>, TreeV)>::empty() + cf.skip(0) =~= cf);
                assert(rebuild_from(acc, group) =~= acc1.update(p, (name, TreeV::Node(cf))));
                acc2 = acc.push((name, c));
                assert(acc1.update(p, (name, TreeV::Node(cf))) =~= acc2);
            },
            TreeV::Array => {
                assert(false);
                acc2 = acc;
            },
            TreeV::Scalar => {
                assert(false);
                acc2 = acc;
            },
        }
        assert(rebuild_from(acc, group) == acc2);
        lemma_rebuild_fields(fs, i + 1, acc2);
        assert(acc2 + fs.skip(i + 1) =~= acc + fs.skip(i)) by {
            assert(acc2 == acc.push((name, c)));
            assert((name, c) == fs[i]);
        }
    }
}

/// Round trip: for any document whose field names are valid segments,
/// unique within each node, whose leaves are all strings and whose
/// nodes are never arrays or empty, inserting its flat entries in
/// order into an empty document rebuilds it exactly.
pub proof fn lemma_round_trip(fs: Seq<(Seq<char>, TreeV)>)
    requires
        forall|k: int|
            0 <= k < fs.len() ==> valid_segment((#[trigger] fs[k]).0) && solid(fs[k].1)
                && names_wf(fs[k].1),
        forall|k1: int, k2: int|
            0 <= k1 < k2 < fs.len() ==> (#[trigger] fs[k1]).0 != (#[trigger] fs[k2]).0,
    ensures
        rebuild_from(Seq::<(Seq<char>, TreeV)>::empty(), entries_of_fields(fs, 0)) == fs,
{
    lemma_rebuild_fields(fs, 0, Seq::<(Seq<char>, TreeV)>::empty());
    assert(Seq::<(Seq<char>, TreeV)>::empty() + fs.skip(0) =~= fs);
}

} // verus!
