//! Snapshots: one point-in-time state of the store, held in both
//! representations at once — the document's field list and its flat
//! mapping — built either from a caller's document or from the raw
//! entries pulled from the remote store (whose values arrive base64
//! encoded and must decode to UTF-8).

use crate::SyncError;
use crate::codec::all_no_arrays;
use crate::codec::all_strings_only;
use crate::codec::entries_map;
use crate::codec::entries_of_fields;
use crate::codec::generate_key_values;
use crate::codec::insert_fields;
use crate::codec::insert_value;
use crate::flat::FlatMap;
use crate::paths::segs_view;
use crate::paths::split_path;
use crate::sync::SyncAction;
use crate::sync::action_key;
use crate::sync::added_keys;
use crate::sync::changed_keys;
use crate::sync::plan_update;
use crate::sync::planned_action_ok;
use crate::sync::removed_keys;
use crate::tree::Tree;
use crate::tree::TreeV;
use crate::tree::clone_fields;
use crate::tree::fields_view;
use vstd::prelude::*;

verus! {

/// What `base64_decode` returns: standard-alphabet base64 decoding,
/// a function of the input characters alone; `None` on invalid input.
pub uninterp spec fn base64_decoding(s: Seq<char>) -> Option<Seq<u8>>;

/// Relies on base64's Engine::decode with the standard alphabet:
/// the result depends on the input characters alone, and invalid
/// base64 is rejected.
#[verifier::external_body]
fn base64_decode(s: &String) -> (r: Option<Vec<u8>>)
    ensures
        r is Some <==> base64_decoding(s@) is Some,
        r matches Some(b) ==> base64_decoding(s@) == Some(b@),
{
    match base64::Engine::decode(&base64::engine::general_purpose::STANDARD, s.as_str()) {
        Ok(b) => Some(b),
        Err(_) => None,
    }
}

/// Relies on String::from_utf8: it succeeds exactly on valid UTF-8
/// and yields the decoded characters.
#[verifier::external_body]
fn utf8_to_string(bytes: Vec<u8>) -> (r: Option<String>)
    ensures
        r is Some <==> vstd::utf8::valid_utf8(bytes@),
        r matches Some(s) ==> s@ == vstd::utf8::decode_utf8(bytes@),
{
    match String::from_utf8(bytes) {
        Ok(s) => Some(s),
        Err(_) => None,
    }
}

/// A stored value that decodes: valid base64 whose bytes are valid
/// UTF-8.
pub open spec fn decodable(v: Seq<char>) -> bool {
    base64_decoding(v) is Some && vstd::utf8::valid_utf8(base64_decoding(v).unwrap())
}

/// The characters a decodable stored value denotes.
pub open spec fn decoded_value(v: Seq<char>) -> Seq<char> {
    vstd::utf8::decode_utf8(base64_decoding(v).unwrap())
}

/// Decodes one stored value: base64, then UTF-8. Fails with
/// `DecodeError` exactly when either step rejects the input.
pub fn decode_kv_value(raw: &String) -> (r: Result<String, SyncError>)
    ensures
        r is Ok <==> decodable(raw@),
        r matches Ok(s) ==> s@ == decoded_value(raw@),
        r matches Err(e) ==> e is DecodeError,
{
    match base64_decode(raw) {
        Some(bytes) => match utf8_to_string(bytes) {
            Some(s) => Ok(s),
            None => Err(SyncError::DecodeError),
        },
        None => Err(SyncError::DecodeError),
    }
}

/// The decoded flat entries of a raw remote entry list.
pub open spec fn decoded_pairs(es: Seq<(String, String)>) -> Seq<(Seq<char>, Seq<char>)> {
    es.map_values(|e: (String, String)| (e.0@, decoded_value(e.1@)))
}

/// The document the first `i` raw entries build, each key split on `/`
/// and its decoded value inserted in order.
pub open spec fn build_fields(es: Seq<(String, String)>, i: int) -> Seq<(Seq<char>, TreeV)>
    decreases i,
{
    if i <= 0 {
        Seq::empty()
    } else {
        insert_fields(build_fields(es, i - 1), split_path(es[i - 1].0@), decoded_value(es[i - 1].1@))
    }
}

/// One synchronized state: the document and its flat mapping, built
/// from the same source and kept in lock-step. Immutable once built.
pub struct ConsulValues {
    internal_values: Vec<(String, Tree)>,
    key_values: FlatMap,
}

impl ConsulValues {
    /// Internal validity of the flat mapping.
    pub closed spec fn wf(&self) -> bool {
        self.key_values.wf()
    }

    /// The model of the held document.
    pub closed spec fn tree_view(&self) -> Seq<(Seq<char>, TreeV)> {
        fields_view(self.internal_values@)
    }

    /// The model of the held flat mapping.
    pub closed spec fn flat_view(&self) -> Map<Seq<char>, Seq<char>> {
        self.key_values@
    }

    /// Builds a snapshot from a caller's document: rejects a document
    /// holding an array anywhere with `InvalidShape`, then one holding
    /// a non-string leaf with `NonStringLeaf`; otherwise keeps the
    /// document and derives its flat mapping.
    pub fn new_from_json(values: Vec<(String, Tree)>) -> (r: Result<ConsulValues, SyncError>)
        ensures
            r is Ok <==> all_no_arrays(fields_view(values@)) && all_strings_only(
                fields_view(values@),
            ),
            !all_no_arrays(fields_view(values@)) ==> r matches Err(SyncError::InvalidShape),
            all_no_arrays(fields_view(values@)) && !all_strings_only(fields_view(values@))
                ==> r matches Err(SyncError::NonStringLeaf),
            r matches Ok(cv) ==> cv.wf() && cv.tree_view() == fields_view(values@)
                && cv.flat_view() == entries_map(entries_of_fields(fields_view(values@), 0)),
    {
        match generate_key_values(&values) {
            Ok(flat) => Ok(ConsulValues { internal_values: values, key_values: flat }),
            Err(e) => Err(e),
        }
    }

    /// Builds a snapshot from the raw remote entries: each value is
    /// base64- and UTF-8-decoded (failing with `DecodeError` exactly
    /// when one is invalid), each key is split on `/` and inserted
    /// into the document, and the raw key with its decoded value is
    /// recorded in the flat mapping directly.
    #[verifier::loop_isolation(false)]
    pub fn new_from_remote_entries(entries: &Vec<(String, String)>) -> (r: Result<
        ConsulValues,
        SyncError,
    >)
        ensures
            r is Ok <==> (forall|i: int|
                0 <= i < entries@.len() ==> decodable((#[trigger] entries@[i]).1@)),
            r matches Err(e) ==> e is DecodeError,
            r matches Ok(cv) ==> cv.wf() && cv.tree_view() == build_fields(
                entries@,
                entries@.len() as int,
            ) && cv.flat_view() == entries_map(decoded_pairs(entries@)),
    {
        let n = entries.len();
        let mut tf: Vec<(String, Tree)> = Vec::new();
        let mut flat = FlatMap::new();
        let mut i: usize = 0;
        proof {
            assert(fields_view(tf@) =~= build_fields(entries@, 0));
            assert(decoded_pairs(entries@.take(0)) =~= Seq::<(Seq<char>, Seq<char>)>::empty());
            assert(flat@ =~= entries_map(decoded_pairs(entries@.take(0))));
        }
        while i < n
            invariant
                0 <= i <= n == entries@.len(),
                flat.wf(),
                forall|k: int| 0 <= k < i ==> decodable((#[trigger] entries@[k]).1@),
                fields_view(tf@) == build_fields(entries@, i as int),
                flat@ == entries_map(decoded_pairs(entries@.take(i as int))),
            decreases n - i,
        {
            let decoded = match decode_kv_value(&entries[i].1) {
                Ok(s) => s,
                Err(e) => {
                    proof {
                        assert(!decodable(entries@[i as int].1@));
                    }
                    return Err(e);
                },
            };
            let path = crate::paths::split_key(entries[i].0.as_str());
            proof {
                assert(segs_view(path@).len() == path@.len());
                assert(split_path(entries@[i as int].0@).len() >= 1);
            }
            insert_value(&mut tf, &path, &decoded);
            flat.insert(entries[i].0.clone(), decoded);
            proof {
                let dp1 = decoded_pairs(entries@.take(i + 1));
                assert(dp1.drop_last() =~= decoded_pairs(entries@.take(i as int)));
                assert(dp1.last() == (entries@[i as int].0@, decoded_value(entries@[i as int].1@)));
                assert(flat@ =~= entries_map(dp1));
            }
            i = i + 1;
        }
        proof {
            assert(entries@.take(n as int) =~= entries@);
        }
        Ok(ConsulValues { internal_values: tf, key_values: flat })
    }

    /// The held document, as a fresh copy the caller may edit.
    pub fn to_json(&self) -> (r: Vec<(String, Tree)>)
        ensures
            fields_view(r@) == self.tree_view(),
    {
        clone_fields(&self.internal_values)
    }

    /// The held flat mapping.
    pub fn key_values(&self) -> (r: &FlatMap)
        ensures
            r@ == self.flat_view(),
            self.wf() ==> r.wf(),
    {
        &self.key_values
    }
}

/// Plans the remote mutations that move a store holding `old_values`
/// to `new_values`: deletes for removed keys, then writes for added
/// and changed keys, deletes strictly first and each affected key
/// named by exactly one action. Planning a snapshot against one with
/// the same flat mapping yields nothing.
pub fn update_plan(old_values: &ConsulValues, new_values: &ConsulValues) -> (r: Vec<SyncAction>)
    requires
        old_values.wf(),
        new_values.wf(),
    ensures
        forall|i: int|
            0 <= i < r@.len() ==> planned_action_ok(
                old_values.flat_view(),
                new_values.flat_view(),
                #[trigger] r@[i],
            ),
        forall|k: Seq<char>|
            removed_keys(old_values.flat_view(), new_values.flat_view()).contains(k)
                ==> exists|i: int|
                0 <= i < r@.len() && (#[trigger] r@[i] matches SyncAction::Delete(s) && s@ == k),
        forall|k: Seq<char>|
            (added_keys(old_values.flat_view(), new_values.flat_view()) + changed_keys(
                old_values.flat_view(),
                new_values.flat_view(),
            )).contains(k) ==> exists|i: int|
                0 <= i < r@.len() && (#[trigger] r@[i] matches SyncAction::Write(s, v) && s@ == k
                    && v@ == new_values.flat_view()[k]),
        forall|i: int, j: int| 0 <= i < j < r@.len() && r@[j] is Delete ==> r@[i] is Delete,
        forall|i: int, j: int|
            0 <= i < j < r@.len() ==> #[trigger] action_key(r@[i]) != #[trigger] action_key(r@[j]),
        old_values.flat_view() == new_values.flat_view() ==> r@.len() == 0,
{
    plan_update(&old_values.key_values, &new_values.key_values)
}

} // verus!
