//! The nested document: a tree whose internal nodes are ordered field
//! lists and whose leaves are string scalars. Array and non-string
//! scalar positions can be represented (so that arbitrary caller input
//! can be held and rejected with a typed error) but never flatten;
//! their contents are never inspected, so they carry none.

use vstd::prelude::*;

verus! {

broadcast use vstd::std_specs::vec::group_vec_axioms;

/// A node of the document tree. `Node` keeps its fields in insertion
/// order. `Array` marks a position the caller filled with an array and
/// `Scalar` one filled with a non-string scalar (number, boolean or
/// null); both exist only so that construction can reject them with a
/// typed error instead of panicking, and neither carries its contents.
pub enum Tree {
    Leaf(String),
    Node(Vec<(String, Tree)>),
    Array,
    Scalar,
}

/// Mathematical model of a `Tree`: the same shape over `Seq<char>`.
#[verifier::ext_equal]
pub enum TreeV {
    Leaf(Seq<char>),
    Node(Seq<(Seq<char>, TreeV)>),
    Array,
    Scalar,
}

impl View for Tree {
    type V = TreeV;

    open spec fn view(&self) -> TreeV
        decreases self, 1int,
    {
        match self {
            Tree::Leaf(s) => TreeV::Leaf(s@),
            Tree::Node(fields) => TreeV::Node(fields_view_from(fields@, 0)),
            Tree::Array => TreeV::Array,
            Tree::Scalar => TreeV::Scalar,
        }
    }
}

/// The model of an executable field list, from index `i` on.
pub open spec fn fields_view_from(fields: Seq<(String, Tree)>, i: int) -> Seq<
    (Seq<char>, TreeV),
>
    decreases fields, fields.len() - i,
{
    if i < 0 || i >= fields.len() {
        Seq::empty()
    } else {
        seq![(fields[i].0@, fields[i].1@)] + fields_view_from(fields, i + 1)
    }
}

/// The model of an executable field list.
pub open spec fn fields_view(fields: Seq<(String, Tree)>) -> Seq<(Seq<char>, TreeV)> {
    fields_view_from(fields, 0)
}

/// `fields_view_from` is the element-wise model of the tail of the list.
pub broadcast proof fn lemma_fields_view_from(fields: Seq<(String, Tree)>, i: int)
    requires
        0 <= i <= fields.len(),
    ensures
        (#[trigger] fields_view_from(fields, i)).len() == fields.len() - i,
        forall|k: int|
            i <= k < fields.len() ==> fields_view_from(fields, i)[k - i] == (
                fields[k].0@,
                fields[k].1@,
            ),
    decreases fields.len() - i,
{
    if i < fields.len() {
        lemma_fields_view_from(fields, i + 1);
    }
}

/// The model of a field list indexes to the models of its entries.
pub broadcast proof fn lemma_fields_view(fields: Seq<(String, Tree)>)
    ensures
        (#[trigger] fields_view(fields)).len() == fields.len(),
        forall|k: int|
            0 <= k < fields.len() ==> fields_view(fields)[k] == (fields[k].0@, fields[k].1@),
{
    lemma_fields_view_from(fields, 0);
}

/// Holds when no node anywhere in the tree is an array.
pub open spec fn no_arrays(t: TreeV) -> bool
    decreases t,
{
    match t {
        TreeV::Leaf(_) => true,
        TreeV::Node(fields) => forall|i: int|
            0 <= i < fields.len() ==> no_arrays(#[trigger] fields[i].1),
        TreeV::Array => false,
        TreeV::Scalar => true,
    }
}

/// Holds when every scalar position in the tree is a string leaf.
pub open spec fn strings_only(t: TreeV) -> bool
    decreases t,
{
    match t {
        TreeV::Leaf(_) => true,
        TreeV::Node(fields) => forall|i: int|
            0 <= i < fields.len() ==> strings_only(#[trigger] fields[i].1),
        TreeV::Array => true,
        TreeV::Scalar => false,
    }
}

/// Reports whether the tree is free of arrays anywhere below (and
/// including) its root.
#[verifier::loop_isolation(false)]
pub fn has_no_array(t: &Tree) -> (r: bool)
    ensures
        r == no_arrays(t@),
    decreases *t,
{
    broadcast use lemma_fields_view;

    match t {
        Tree::Leaf(_) => true,
        Tree::Scalar => true,
        Tree::Array => false,
        Tree::Node(fields) => {
            let mut j: usize = 0;
            while j < fields.len()
                invariant
                    0 <= j <= fields.len(),
                    t@ == TreeV::Node(fields_view(fields@)),
                    forall|i: int| 0 <= i < j ==> no_arrays(#[trigger] fields_view(fields@)[i].1),
                decreases fields.len() - j,
            {
                proof {
                    lemma_fields_view(fields@);
                    assert(t->Node_0 == *fields);
                    assert(decreases_to!(*t => t->Node_0));
                    assert(decreases_to!(t->Node_0 => fields@));
                    assert(decreases_to!(fields@ => fields@[j as int]));
                }
                if !has_no_array(&fields[j].1) {
                    proof {
                        assert(fields_view(fields@)[j as int].1 == fields@[j as int].1@);
                        assert(t@ is Node);
                        assert(t@->Node_0 == fields_view(fields@));
                        assert(0 <= j < t@->Node_0.len());
                        assert(!no_arrays(t@->Node_0[j as int].1));
                        assert(!no_arrays(t@));
                    }
                    return false;
                }
                j = j + 1;
            }
            true
        },
    }
}

/// A fresh copy of a tree, with the same model.
pub fn clone_tree(t: &Tree) -> (r: Tree)
    ensures
        r@ == t@,
    decreases *t,
{
    match t {
        Tree::Leaf(s) => Tree::Leaf(s.clone()),
        Tree::Array => Tree::Array,
        Tree::Scalar => Tree::Scalar,
        Tree::Node(fields) => {
            proof {
                assert(decreases_to!(*t => t->Node_0));
            }
            let copy = clone_fields(fields);
            proof {
                assert(t@ == TreeV::Node(fields_view(fields@)));
            }
            Tree::Node(copy)
        },
    }
}

/// A fresh copy of a field list, with the same model.
#[verifier::loop_isolation(false)]
pub fn clone_fields(fields: &Vec<(String, Tree)>) -> (r: Vec<(String, Tree)>)
    ensures
        fields_view(r@) == fields_view(fields@),
    decreases *fields,
{
    broadcast use lemma_fields_view;

    let n = fields.len();
    let mut out: Vec<(String, Tree)> = Vec::new();
    let mut j: usize = 0;
    while j < n
        invariant
            0 <= j <= n == fields@.len(),
            out@.len() == j,
            forall|k: int|
                0 <= k < j ==> #[trigger] fields_view(out@)[k] == fields_view(fields@)[k],
        decreases n - j,
    {
        proof {
            assert(decreases_to!(*fields => fields@));
            assert(decreases_to!(fields@ => fields@[j as int]));
            assert(decreases_to!(fields@[j as int] => fields@[j as int].1));
        }
        let copy = clone_tree(&fields[j].1);
        let ghost out0 = out@;
        out.push((fields[j].0.clone(), copy));
        proof {
            assert forall|k: int|
                0 <= k < j + 1 implies #[trigger] fields_view(out@)[k] == fields_view(fields@)[k] by {
                if k < j {
                    assert(out@[k] == out0[k]);
                    assert(fields_view(out0)[k] == (out0[k].0@, out0[k].1@));
                }
                assert(fields_view(out@)[k] == (out@[k].0@, out@[k].1@));
                assert(fields_view(fields@)[k] == (fields@[k].0@, fields@[k].1@));
            }
        }
        j = j + 1;
    }
    proof {
        assert(fields_view(out@) =~= fields_view(fields@));
    }
    out
}

} // verus!
