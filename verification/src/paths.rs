//! Flat keys: sequences of field names rendered as the names joined
//! with `/`. Splitting and joining are each specified recursively and
//! implemented executably, with the lemmas that connect the two.

use vstd::prelude::*;
use vstd::string::StrSliceExecFns;
use vstd::string::StringExecFns;

verus! {

/// A field name that can live inside a joined key: non-empty and free
/// of the separator.
pub open spec fn valid_segment(s: Seq<char>) -> bool {
    s.len() > 0 && !s.contains('/')
}

/// A usable path: at least one segment, all of them valid.
pub open spec fn valid_path(p: Seq<Seq<char>>) -> bool {
    p.len() > 0 && forall|i: int| 0 <= i < p.len() ==> valid_segment(#[trigger] p[i])
}

/// The model of a vector of segment strings.
pub open spec fn segs_view(v: Seq<String>) -> Seq<Seq<char>> {
    v.map_values(|s: String| s@)
}

/// The segments joined with `/`.
pub open spec fn join_path(p: Seq<Seq<char>>) -> Seq<char>
    decreases p.len(),
{
    if p.len() == 0 {
        Seq::empty()
    } else if p.len() == 1 {
        p[0]
    } else {
        p[0] + seq!['/'] + join_path(p.drop_first())
    }
}

/// Index of the first separator in `s`, or `s.len()` if there is none.
pub open spec fn sep_index(s: Seq<char>) -> int
    decreases s.len(),
{
    if s.len() == 0 {
        0
    } else if s[0] == '/' {
        0
    } else {
        1 + sep_index(s.drop_first())
    }
}

/// Where the first separator stands: `sep_index` is in bounds, nothing
/// before it is a separator, and it points at one unless there is none.
pub proof fn lemma_sep_index(s: Seq<char>)
    ensures
        0 <= sep_index(s) <= s.len(),
        sep_index(s) < s.len() ==> s[sep_index(s)] == '/',
        forall|k: int| 0 <= k < sep_index(s) ==> s[k] != '/',
    decreases s.len(),
{
    if s.len() > 0 && s[0] != '/' {
        lemma_sep_index(s.drop_first());
        assert forall|k: int| 0 <= k < sep_index(s) implies s[k] != '/' by {
            if k > 0 {
                assert(s.drop_first()[k - 1] != '/');
            }
        }
    }
}

/// The first separator index is determined by its characterization.
pub proof fn lemma_sep_index_is(s: Seq<char>, m: int)
    requires
        0 <= m <= s.len(),
        forall|k: int| 0 <= k < m ==> s[k] != '/',
        m < s.len() ==> s[m] == '/',
        m == s.len() ==> !s.contains('/'),
    ensures
        sep_index(s) == m,
    decreases s.len(),
{
    if s.len() == 0 {
    } else if s[0] == '/' {
        if m > 0 {
            assert(s[0] != '/');
        }
    } else {
        if m == s.len() {
            assert forall|k: int| 0 <= k < s.drop_first().len() implies s.drop_first()[k] != '/' by {
                assert(s.drop_first()[k] == s[k + 1]);
                assert(!s.contains('/'));
            }
            assert(!s.drop_first().contains('/')) by {
                if s.drop_first().contains('/') {
                    let k = choose|k: int|
                        0 <= k < s.drop_first().len() && s.drop_first()[k] == '/';
                    assert(s.drop_first()[k] != '/');
                }
            }
            lemma_sep_index_is(s.drop_first(), m - 1);
        } else {
            assert(m >= 1);
            assert forall|k: int| 0 <= k < m - 1 implies s.drop_first()[k] != '/' by {
                assert(s.drop_first()[k] == s[k + 1]);
            }
            assert(s.drop_first()[m - 1] == s[m] || m - 1 == s.drop_first().len());
            lemma_sep_index_is(s.drop_first(), m - 1);
        }
    }
}

/// `s` split at every separator, in order; an empty `s` gives one
/// empty segment, as splitting a string on a separator does.
pub open spec fn split_path(s: Seq<char>) -> Seq<Seq<char>>
    decreases s.len(),
    via split_path_decreases
{
    if sep_index(s) >= s.len() {
        seq![s]
    } else {
        seq![s.take(sep_index(s))] + split_path(s.skip(sep_index(s) + 1))
    }
}

#[via_fn]
proof fn split_path_decreases(s: Seq<char>) {
    lemma_sep_index(s);
}

/// Splitting a key with no separator yields that key alone.
pub proof fn lemma_split_whole(s: Seq<char>)
    requires
        !s.contains('/'),
    ensures
        split_path(s) == seq![s],
{
    lemma_sep_index_is(s, s.len() as int);
}

/// Splitting `name / rest` peels `name` off the front when `name` is a
/// valid segment.
pub proof fn lemma_split_prepend(name: Seq<char>, rest: Seq<char>)
    requires
        valid_segment(name),
    ensures
        split_path(name + seq!['/'] + rest) == seq![name] + split_path(rest),
{
    let s = name + seq!['/'] + rest;
    assert forall|k: int| 0 <= k < name.len() implies s[k] != '/' by {
        assert(s[k] == name[k]);
        assert(!name.contains('/'));
        if name[k] == '/' {
            assert(name.contains('/'));
        }
    }
    assert(s[name.len() as int] == '/');
    lemma_sep_index_is(s, name.len() as int);
    assert(s.take(name.len() as int) =~= name);
    assert(s.skip(name.len() as int + 1) =~= rest);
    assert(split_path(s) == seq![name] + split_path(rest));
}

/// Splitting undoes joining on any valid path.
pub proof fn lemma_split_join(p: Seq<Seq<char>>)
    requires
        valid_path(p),
    ensures
        split_path(join_path(p)) == p,
    decreases p.len(),
{
    if p.len() == 1 {
        lemma_split_whole(p[0]);
        assert(seq![p[0]] =~= p);
    } else {
        lemma_split_prepend(p[0], join_path(p.drop_first()));
        lemma_split_join(p.drop_first());
        assert(seq![p[0]] + p.drop_first() =~= p);
    }
}

/// Splits a key into its `/`-separated segments.
#[verifier::loop_isolation(false)]
pub fn split_key(key: &str) -> (segs: Vec<String>)
    ensures
        segs_view(segs@) == split_path(key@),
{
    let n = key.unicode_len();
    let mut out: Vec<String> = Vec::new();
    let mut start: usize = 0;
    let mut i: usize = 0;
    proof {
        assert(key@.skip(0) =~= key@);
        assert(segs_view(out@) =~= Seq::<Seq<char>>::empty());
        assert(segs_view(out@) + split_path(key@) =~= split_path(key@));
    }
    while i < n
        invariant
            0 <= start <= i <= n == key@.len(),
            forall|k: int| start <= k < i ==> key@[k] != '/',
            split_path(key@) =~= segs_view(out@) + split_path(key@.skip(start as int)),
        decreases n - i,
    {
        if key.get_char(i) == '/' {
            let piece = key.substring_char(start, i).to_owned();
            proof {
                let suffix = key@.skip(start as int);
                assert forall|k: int| 0 <= k < i - start implies suffix[k] != '/' by {
                    assert(suffix[k] == key@[k + start]);
                }
                assert(suffix[i - start] == '/');
                lemma_sep_index_is(suffix, i - start);
                assert(suffix.take(i - start) =~= key@.subrange(start as int, i as int));
                assert(suffix.skip(i - start + 1) =~= key@.skip(i + 1));
                assert(segs_view(out@.push(piece)) =~= segs_view(out@) + seq![piece@]);
            }
            out.push(piece);
            start = i + 1;
        }
        i = i + 1;
    }
    let piece = key.substring_char(start, n).to_owned();
    proof {
        let suffix = key@.skip(start as int);
        assert forall|k: int| 0 <= k < suffix.len() implies suffix[k] != '/' by {
            assert(suffix[k] == key@[k + start]);
        }
        assert(!suffix.contains('/')) by {
            if suffix.contains('/') {
                let k = choose|k: int| 0 <= k < suffix.len() && suffix[k] == '/';
                assert(suffix[k] != '/');
            }
        }
        lemma_split_whole(suffix);
        assert(suffix =~= key@.subrange(start as int, n as int));
        assert(segs_view(out@.push(piece)) =~= segs_view(out@) + seq![piece@]);
    }
    out.push(piece);
    out
}

/// Joining a non-empty path gains one segment at its end.
pub proof fn lemma_join_push(p: Seq<Seq<char>>, x: Seq<char>)
    requires
        p.len() >= 1,
    ensures
        join_path(p.push(x)) == join_path(p) + seq!['/'] + x,
    decreases p.len(),
{
    if p.len() == 1 {
        assert(p.push(x).drop_first() =~= seq![x]);
        assert(p.push(x)[0] == p[0]);
        assert(join_path(seq![x]) == x);
    } else {
        assert(p.push(x).drop_first() =~= p.drop_first().push(x));
        lemma_join_push(p.drop_first(), x);
        assert(join_path(p.push(x)) =~= join_path(p) + seq!['/'] + x);
    }
}

/// Joins segments with `/` into one flat key.
#[verifier::loop_isolation(false)]
pub fn join_segments(segs: &Vec<String>) -> (r: String)
    ensures
        r@ == join_path(segs_view(segs@)),
{
    if segs.len() == 0 {
        return String::new();
    }
    let mut acc = segs[0].clone();
    let mut i: usize = 1;
    proof {
        assert(segs_view(segs@).take(1) =~= seq![segs@[0]@]);
    }
    while i < segs.len()
        invariant
            1 <= i <= segs@.len(),
            acc@ == join_path(segs_view(segs@).take(i as int)),
        decreases segs@.len() - i,
    {
        proof {
            reveal_strlit("/");
            assert("/"@ =~= seq!['/']);
            let p = segs_view(segs@);
            assert(p.take(i + 1) =~= p.take(i as int).push(p[i as int]));
            lemma_join_push(p.take(i as int), p[i as int]);
        }
        acc.append("/");
        acc.append(segs[i].as_str());
        i = i + 1;
    }
    proof {
        assert(segs_view(segs@).take(segs@.len() as int) =~= segs_view(segs@));
    }
    acc
}

/// A directory-marker key: one that ends in the separator.
pub open spec fn is_dir_marker(k: Seq<char>) -> bool {
    k.len() > 0 && k.last() == '/'
}

/// The keys of `ks` that are not directory markers, in order.
pub open spec fn leaf_keys(ks: Seq<Seq<char>>) -> Seq<Seq<char>>
    decreases ks.len(),
{
    if ks.len() == 0 {
        Seq::empty()
    } else if is_dir_marker(ks[0]) {
        leaf_keys(ks.drop_first())
    } else {
        seq![ks[0]] + leaf_keys(ks.drop_first())
    }
}

/// Keeps the keys that name a value, dropping directory markers
/// (keys that end in the separator), in order.
#[verifier::loop_isolation(false)]
pub fn filter_leaf_keys(keys: Vec<String>) -> (out: Vec<String>)
    ensures
        segs_view(out@) == leaf_keys(segs_view(keys@)),
{
    let ghost all = segs_view(keys@);
    let n = keys.len();
    let mut out: Vec<String> = Vec::new();
    let mut i: usize = 0;
    proof {
        assert(segs_view(out@) =~= Seq::<Seq<char>>::empty());
        assert(all.skip(0) =~= all);
        assert(segs_view(out@) + leaf_keys(all.skip(0)) =~= leaf_keys(all));
    }
    while i < n
        invariant
            0 <= i <= n == keys@.len(),
            leaf_keys(all) =~= segs_view(out@) + leaf_keys(all.skip(i as int)),
        decreases n - i,
    {
        let key = &keys[i];
        let len = key.unicode_len();
        let keep = len == 0 || key.get_char(len - 1) != '/';
        proof {
            assert(all.skip(i as int)[0] == key@);
            assert(all.skip(i as int).drop_first() =~= all.skip(i + 1));
            assert(keep == !is_dir_marker(key@));
        }
        if keep {
            let ghost out0 = out@;
            out.push(key.clone());
            proof {
                assert(segs_view(out@) =~= segs_view(out0) + seq![key@]);
            }
        }
        i = i + 1;
    }
    proof {
        assert(leaf_keys(all.skip(n as int)) =~= Seq::<Seq<char>>::empty());
        assert(segs_view(out@) + leaf_keys(all.skip(n as int)) =~= segs_view(out@));
    }
    out
}

} // verus!
