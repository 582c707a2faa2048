//! The tree codec: flattening a document's field list into flat
//! `/`-joined keys, and inserting one value at a segmented path,
//! creating intermediate nodes as needed. Insertion is last-write-wins:
//! a leaf standing where an internal node is needed is overwritten by a
//! fresh node, and the final segment always overwrites.

use crate::flat::FlatMap;
use crate::flat::pairs_map;
use crate::paths::segs_view;
use crate::tree::Tree;
use crate::tree::TreeV;
use crate::tree::fields_view;
use crate::tree::lemma_fields_view;
use crate::tree::no_arrays;
use crate::tree::strings_only;
use crate::tree::has_no_array;
use crate::SyncError;
use vstd::prelude::*;
use vstd::string::StrSliceExecFns;
use vstd::string::StringExecFns;

verus! {

broadcast use vstd::std_specs::vec::group_vec_axioms;

/// Every field's subtree is free of arrays.
pub open spec fn all_no_arrays(fs: Seq<(Seq<char>, TreeV)>) -> bool {
    forall|i: int| 0 <= i < fs.len() ==> no_arrays((#[trigger] fs[i]).1)
}

/// Every field's subtree has only string leaves.
pub open spec fn all_strings_only(fs: Seq<(Seq<char>, TreeV)>) -> bool {
    forall|i: int| 0 <= i < fs.len() ==> strings_only((#[trigger] fs[i]).1)
}

/// Index of the first field named `name`, from `i` on, or -1.
pub open spec fn find_key_from(fs: Seq<(Seq<char>, TreeV)>, name: Seq<char>, i: int) -> int
    decreases fs.len() - i,
{
    if i < 0 || i >= fs.len() {
        -1
    } else if fs[i].0 == name {
        i
    } else {
        find_key_from(fs, name, i + 1)
    }
}

/// `find_key_from` is determined by its characterization.
pub proof fn lemma_find_from_is(fs: Seq<(Seq<char>, TreeV)>, name: Seq<char>, i: int, m: int)
    requires
        0 <= i <= m <= fs.len(),
        forall|k: int| i <= k < m ==> (#[trigger] fs[k]).0 != name,
        m < fs.len() ==> fs[m].0 == name,
    ensures
        find_key_from(fs, name, i) == if m == fs.len() {
            -1int
        } else {
            m
        },
    decreases m - i,
{
    if i < m {
        lemma_find_from_is(fs, name, i + 1, m);
    }
}

/// The fields of a node; anything else offers none.
pub open spec fn child_fields(t: TreeV) -> Seq<(Seq<char>, TreeV)> {
    match t {
        TreeV::Node(fs) => fs,
        _ => Seq::empty(),
    }
}

/// A field list after inserting `v` at the segmented path `segs`:
/// missing intermediate nodes are created, a non-node standing in the
/// way is overwritten by a node, and the final segment overwrites.
pub open spec fn insert_fields(
    fs: Seq<(Seq<char>, TreeV)>,
    segs: Seq<Seq<char>>,
    v: Seq<char>,
) -> Seq<(Seq<char>, TreeV)>
    decreases segs.len(),
{
    if segs.len() == 0 {
        fs
    } else {
        let j = find_key_from(fs, segs[0], 0);
        let old_child = if j >= 0 {
            fs[j].1
        } else {
            TreeV::Scalar
        };
        let new_child = if segs.len() == 1 {
            TreeV::Leaf(v)
        } else {
            TreeV::Node(insert_fields(child_fields(old_child), segs.drop_first(), v))
        };
        if j >= 0 {
            fs.update(j, (segs[0], new_child))
        } else {
            fs.push((segs[0], new_child))
        }
    }
}

/// Index of the first field named `name`, or the field count if none.
#[verifier::loop_isolation(false)]
fn find_field(fields: &Vec<(String, Tree)>, name: &String) -> (j: usize)
    ensures
        0 <= j <= fields@.len(),
        j < fields@.len() ==> fields_view(fields@)[j as int].0 == name@,
        forall|k: int| 0 <= k < j ==> (#[trigger] fields_view(fields@)[k]).0 != name@,
{
    broadcast use lemma_fields_view;

    let n = fields.len();
    let mut j: usize = 0;
    while j < n
        invariant
            0 <= j <= n,
            forall|k: int| 0 <= k < j ==> (#[trigger] fields_view(fields@)[k]).0 != name@,
        decreases n - j,
    {
        if fields[j].0 == *name {
            return j;
        }
        j = j + 1;
    }
    n
}

/// Inserts `value` at `path` below an owned field list.
#[verifier::loop_isolation(false)]
fn insert_into_fields(
    fields: Vec<(String, Tree)>,
    path: &Vec<String>,
    d: usize,
    value: &String,
) -> (out: Vec<(String, Tree)>)
    requires
        d < path@.len(),
    ensures
        fields_view(out@) == insert_fields(
            fields_view(fields@),
            segs_view(path@).skip(d as int),
            value@,
        ),
    decreases path@.len() - d,
{
    broadcast use lemma_fields_view;

    let ghost fv = fields_view(fields@);
    let ghost segs = segs_view(path@).skip(d as int);
    proof {
        assert(segs[0] == path@[d as int]@);
    }
    let n = fields.len();
    let j = find_field(&fields, &path[d]);
    proof {
        lemma_find_from_is(fv, segs[0], 0, j as int);
    }
    let last = path.len() - d == 1;
    let mut fields = fields;
    if j < n {
        let ghost es0 = fields@;
        let pair = fields.remove(j);
        let new_child: Tree = if last {
            Tree::Leaf(value.clone())
        } else {
            let sub: Vec<(String, Tree)> = match pair.1 {
                Tree::Node(fs) => fs,
                _ => Vec::new(),
            };
            proof {
                assert(fields_view(sub@) =~= child_fields(fv[j as int].1));
                assert(segs.drop_first() =~= segs_view(path@).skip(d as int + 1));
            }
            Tree::Node(insert_into_fields(sub, path, d + 1, value))
        };
        let name = path[d].clone();
        fields.insert(j, (name, new_child));
        proof {
            assert(fields@ =~= es0.update(j as int, fields@[j as int]));
            assert(fields@[j as int].0@ == segs[0]);
            assert(fields_view(fields@) =~= insert_fields(fv, segs, value@));
        }
        fields
    } else {
        let new_child: Tree = if last {
            Tree::Leaf(value.clone())
        } else {
            let sub: Vec<(String, Tree)> = Vec::new();
            proof {
                assert(fields_view(sub@) =~= child_fields(TreeV::Scalar));
                assert(segs.drop_first() =~= segs_view(path@).skip(d as int + 1));
            }
            Tree::Node(insert_into_fields(sub, path, d + 1, value))
        };
        let name = path[d].clone();
        fields.push((name, new_child));
        proof {
            assert(fields_view(fields@) =~= insert_fields(fv, segs, value@));
        }
        fields
    }
}

/// Inserts `value` into a document's root field list at `path`,
/// creating intermediate nodes and overwriting whatever stands at the
/// exact path.
pub fn insert_value(fields: &mut Vec<(String, Tree)>, path: &Vec<String>, value: &String)
    requires
        path@.len() > 0,
    ensures
        fields_view(final(fields)@) == insert_fields(
            fields_view(old(fields)@),
            segs_view(path@),
            value@,
        ),
{
    let mut owned: Vec<(String, Tree)> = Vec::new();
    core::mem::swap(fields, &mut owned);
    let out = insert_into_fields(owned, path, 0, value);
    proof {
        assert(segs_view(path@).skip(0) =~= segs_view(path@));
    }
    *fields = out;
}

/// The model of an executable pair list.
pub open spec fn pairs_view(ps: Seq<(String, String)>) -> Seq<(Seq<char>, Seq<char>)> {
    ps.map_values(|p: (String, String)| (p.0@, p.1@))
}

/// Each flat key of `es` prefixed with `name` and a separator.
pub open spec fn prefix_all(name: Seq<char>, es: Seq<(Seq<char>, Seq<char>)>) -> Seq<
    (Seq<char>, Seq<char>),
> {
    es.map_values(|e: (Seq<char>, Seq<char>)| (name + seq!['/'] + e.0, e.1))
}

/// The flat entries one field contributes: a leaf is one entry under
/// its own name; a node contributes its entries prefixed with the
/// field's name. Array and scalar positions never flatten and
/// contribute nothing here; flattening rejects them beforehand.
pub open spec fn entry_group(name: Seq<char>, child: TreeV) -> Seq<(Seq<char>, Seq<char>)>
    decreases child, 0int,
{
    match child {
        TreeV::Leaf(v) => seq![(name, v)],
        TreeV::Node(fs) => prefix_all(name, entries_of_fields(fs, 0)),
        _ => Seq::empty(),
    }
}

/// The flat entries of the fields from index `i` on, in field order.
pub open spec fn entries_of_fields(fs: Seq<(Seq<char>, TreeV)>, i: int) -> Seq<
    (Seq<char>, Seq<char>),
>
    decreases fs, fs.len() - i,
{
    if i < 0 || i >= fs.len() {
        Seq::empty()
    } else {
        entry_group(fs[i].0, fs[i].1) + entries_of_fields(fs, i + 1)
    }
}

/// The map a flat entry list denotes, later entries winning.
pub open spec fn entries_map(es: Seq<(Seq<char>, Seq<char>)>) -> Map<Seq<char>, Seq<char>>
    decreases es.len(),
{
    if es.len() == 0 {
        Map::empty()
    } else {
        entries_map(es.drop_last()).insert(es.last().0, es.last().1)
    }
}

/// The two entry-list models agree.
pub proof fn lemma_pairs_entries(ps: Seq<(String, String)>)
    ensures
        pairs_map(ps) == entries_map(pairs_view(ps)),
    decreases ps.len(),
{
    if ps.len() > 0 {
        lemma_pairs_entries(ps.drop_last());
        assert(pairs_view(ps).drop_last() =~= pairs_view(ps.drop_last()));
        assert(pairs_view(ps).last() == (ps.last().0@, ps.last().1@));
        assert(pairs_map(ps) =~= entries_map(pairs_view(ps)));
    }
}

/// Flattens an array-free field list into its flat entries, in field
/// order; fails exactly when some leaf is not a string.
#[verifier::loop_isolation(false)]
fn flatten_core(fields: &Vec<(String, Tree)>) -> (r: Result<Vec<(String, String)>, SyncError>)
    requires
        all_no_arrays(fields_view(fields@)),
    ensures
        r is Ok <==> all_strings_only(fields_view(fields@)),
        r matches Ok(pairs) ==> pairs_view(pairs@) == entries_of_fields(fields_view(fields@), 0),
        r matches Err(e) ==> e is NonStringLeaf,
    decreases *fields,
{
    broadcast use lemma_fields_view;

    let ghost fv = fields_view(fields@);
    let n = fields.len();
    let mut out: Vec<(String, String)> = Vec::new();
    let mut j: usize = 0;
    proof {
        assert(pairs_view(out@) =~= Seq::<(Seq<char>, Seq<char>)>::empty());
        assert(entries_of_fields(fv, 0) =~= pairs_view(out@) + entries_of_fields(fv, 0));
    }
    while j < n
        invariant
            0 <= j <= n == fields@.len(),
            forall|k: int| 0 <= k < j ==> strings_only((#[trigger] fv[k]).1),
            entries_of_fields(fv, 0) =~= pairs_view(out@) + entries_of_fields(fv, j as int),
        decreases n - j,
    {
        let ghost out0 = out@;
        let name = &fields[j].0;
        match &fields[j].1 {
            Tree::Leaf(s) => {
                out.push((name.clone(), s.clone()));
                proof {
                    assert(pairs_view(out@) =~= pairs_view(out0) + entry_group(
                        fv[j as int].0,
                        fv[j as int].1,
                    ));
                }
            },
            Tree::Node(sub) => {
                proof {
                    assert(decreases_to!(*fields => fields@));
                    assert(decreases_to!(fields@ => fields@[j as int]));
                    assert(decreases_to!(fields@[j as int] => fields@[j as int].1));
                    assert(fields@[j as int].1 == Tree::Node(*sub));
                    assert(decreases_to!(fields@[j as int].1 => *sub));
                }
                let subpairs = match flatten_core(sub) {
                    Ok(p) => p,
                    Err(e) => {
                        proof {
                            let sfv = fields_view(sub@);
                            let k = choose|k: int|
                                0 <= k < sfv.len() && !strings_only((#[trigger] sfv[k]).1);
                            assert(!strings_only(fv[j as int].1));
                        }
                        return Err(e);
                    },
                };
                let ghost spv = pairs_view(subpairs@);
                let ghost group = entry_group(fv[j as int].0, fv[j as int].1);
                proof {
                    assert(group =~= prefix_all(name@, spv));
                }
                let m = subpairs.len();
                let mut k: usize = 0;
                proof {
                    assert(pairs_view(out@) =~= pairs_view(out0) + group.take(0));
                }
                while k < m
                    invariant
                        0 <= k <= m == subpairs@.len(),
                        pairs_view(out@) =~= pairs_view(out0) + group.take(k as int),
                    decreases m - k,
                {
                    let ghost out1 = out@;
                    let mut key = name.clone();
                    key.append("/");
                    key.append(subpairs[k].0.as_str());
                    out.push((key, subpairs[k].1.clone()));
                    proof {
                        reveal_strlit("/");
                        assert("/"@ =~= seq!['/']);
                        assert(group[k as int] == (name@ + seq!['/'] + spv[k as int].0, spv[
                            k as int
                        ].1));
                        assert(pairs_view(out@) =~= pairs_view(out1) + seq![group[k as int]]);
                        assert(group.take(k + 1) =~= group.take(k as int).push(group[k as int]));
                        assert(pairs_view(out1) + group.take(k as int).push(group[k as int]) =~= (
                        pairs_view(out1) + group.take(k as int)).push(group[k as int]));
                        assert(pairs_view(out@) =~= pairs_view(out0) + group.take(k + 1));
                    }
                    k = k + 1;
                }
                proof {
                    assert(group.take(m as int) =~= group);
                }
            },
            Tree::Array => {
                proof {
                    assert(!no_arrays(fv[j as int].1));
                    assert(false);
                }
                return Err(SyncError::NonStringLeaf);
            },
            Tree::Scalar => {
                proof {
                    assert(!strings_only(fv[j as int].1));
                }
                return Err(SyncError::NonStringLeaf);
            },
        }
        j = j + 1;
    }
    proof {
        assert(entries_of_fields(fv, n as int) =~= Seq::<(Seq<char>, Seq<char>)>::empty());
        assert(pairs_view(out@) + entries_of_fields(fv, n as int) =~= pairs_view(out@));
    }
    Ok(out)
}

/// Generates the flat key-value mapping of a document's field list: a
/// recursive search that emits one entry per string leaf under its
/// `/`-joined path. Rejects a document holding an array anywhere with
/// `InvalidShape`, and otherwise one holding a non-string leaf with
/// `NonStringLeaf`.
#[verifier::loop_isolation(false)]
pub fn generate_key_values(fields: &Vec<(String, Tree)>) -> (r: Result<FlatMap, SyncError>)
    ensures
        r is Ok <==> all_no_arrays(fields_view(fields@)) && all_strings_only(
            fields_view(fields@),
        ),
        r matches Ok(m) ==> m.wf() && m@ == entries_map(
            entries_of_fields(fields_view(fields@), 0),
        ),
        !all_no_arrays(fields_view(fields@)) ==> r matches Err(SyncError::InvalidShape),
        all_no_arrays(fields_view(fields@)) && !all_strings_only(fields_view(fields@))
            ==> r matches Err(SyncError::NonStringLeaf),
{
    broadcast use lemma_fields_view;

    let ghost fv = fields_view(fields@);
    let n = fields.len();
    let mut j: usize = 0;
    while j < n
        invariant
            0 <= j <= n == fields@.len(),
            forall|k: int| 0 <= k < j ==> no_arrays((#[trigger] fv[k]).1),
        decreases n - j,
    {
        if !has_no_array(&fields[j].1) {
            proof {
                assert(!no_arrays(fv[j as int].1));
            }
            return Err(SyncError::InvalidShape);
        }
        j = j + 1;
    }
    let pairs = match flatten_core(fields) {
        Ok(p) => p,
        Err(e) => {
            return Err(e);
        },
    };
    let m = pairs.len();
    let mut flat = FlatMap::new();
    let mut i: usize = 0;
    proof {
        assert(pairs@.take(0) =~= Seq::<(String, String)>::empty());
        assert(flat@ =~= pairs_map(pairs@.take(0)));
    }
    while i < m
        invariant
            0 <= i <= m == pairs@.len(),
            flat.wf(),
            flat@ == pairs_map(pairs@.take(i as int)),
        decreases m - i,
    {
        flat.insert(pairs[i].0.clone(), pairs[i].1.clone());
        proof {
            assert(pairs@.take(i + 1).drop_last() =~= pairs@.take(i as int));
            assert(pairs@.take(i + 1).last() == pairs@[i as int]);
        }
        i = i + 1;
    }
    proof {
        assert(pairs@.take(m as int) =~= pairs@);
        lemma_pairs_entries(pairs@);
    }
    Ok(flat)
}

} // verus!
