//! A plain model of the structured documents that query backends emit.
//! Holding the decoded document as library data lets the field-mapping
//! rules be verified; reading bytes into this shape is the caller's work.

use vstd::prelude::*;
use vstd::utf8::encode_utf8_decode_utf8;

verus! {

/// A structured value: the subset of a JSON document the response mapping
/// reads. Numbers keep only whether they are an unsigned 64-bit integer,
/// which is all the mapping asks of them.
#[derive(Debug)]
pub enum Json {
    Null,
    Bool(bool),
    /// A number; `Some` when it is representable as a `u64`.
    Num(Option<u64>),
    Str(String),
    Array(Vec<Json>),
    Object(Vec<(String, Json)>),
}

/// The value under the first entry whose key holds the text `key`.
pub open spec fn lookup_entries(entries: Seq<(String, Json)>, key: Seq<char>) -> Option<Json>
    decreases entries.len(),
{
    if entries.len() == 0 {
        None
    } else if entries[0].0@ == key {
        Some(entries[0].1)
    } else {
        lookup_entries(entries.drop_first(), key)
    }
}

/// Whether two strings hold the same text, compared byte by byte.
pub fn str_eq(a: &str, b: &str) -> (r: bool)
    ensures
        r == (a@ == b@),
{
    let ab = a.as_bytes();
    let bb = b.as_bytes();
    proof {
        encode_utf8_decode_utf8(a@);
        encode_utf8_decode_utf8(b@);
    }
    if ab.len() != bb.len() {
        return false;
    }
    let mut j: usize = 0;
    while j < ab.len()
        invariant
            j <= ab@.len(),
            ab@.len() == bb@.len(),
            ab@ == vstd::utf8::encode_utf8(a@),
            bb@ == vstd::utf8::encode_utf8(b@),
            vstd::utf8::decode_utf8(vstd::utf8::encode_utf8(a@)) == a@,
            vstd::utf8::decode_utf8(vstd::utf8::encode_utf8(b@)) == b@,
            forall|k: int| 0 <= k < j ==> ab@[k] == bb@[k],
        decreases ab@.len() - j,
    {
        if ab[j] != bb[j] {
            return false;
        }
        j = j + 1;
    }
    proof {
        assert(ab@ =~= bb@);
    }
    true
}

/// Finds the value stored under `key`, taking the first entry whose key
/// matches.
pub fn lookup<'a>(entries: &'a Vec<(String, Json)>, key: &str) -> (r: Option<&'a Json>)
    ensures
        r is Some <==> lookup_entries(entries@, key@) is Some,
        r is Some ==> *r->0 == lookup_entries(entries@, key@)->0,
{
    let ghost full = lookup_entries(entries@, key@);
    let mut i: usize = 0;
    proof {
        assert(entries@.skip(0) =~= entries@);
    }
    while i < entries.len()
        invariant
            i <= entries@.len(),
            full == lookup_entries(entries@, key@),
            full == lookup_entries(entries@.skip(i as int), key@),
        decreases entries@.len() - i,
    {
        proof {
            assert(entries@.skip(i as int)[0] == entries@[i as int]);
            assert(entries@.skip(i as int).drop_first() =~= entries@.skip(i as int + 1));
        }
        if str_eq(entries[i].0.as_str(), key) {
            return Some(&entries[i].1);
        }
        i = i + 1;
    }
    proof {
        assert(entries@.skip(entries@.len() as int) =~= Seq::<(String, Json)>::empty());
    }
    None
}

} // verus!
