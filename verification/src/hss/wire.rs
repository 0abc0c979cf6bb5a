//! The wire forms of a hierarchy's public key and signature parse back to
//! what was written, and to nothing else.

use vstd::prelude::*;
use crate::hss::definitions::{
    spec_parse_hss_public_key, spec_parse_hss_signature, spec_parse_signed_key, spec_parse_signed_keys,
    spec_signed_key_rows, HssPublicKeyView, HssSignatureView, HssSignedPublicKeyView,
};
use crate::lms::definitions::{
    lemma_lms_public_key_len_prefix,
    lemma_lms_signature_len_prefix,
    lemma_parse_lms_signature_rejects_other_lengths,
    lemma_parse_public_key_rejects_other_lengths,
    lemma_parse_serialize_lms_signature,
    lemma_parse_serialize_public_key,
    lemma_serialize_parse_lms_signature,
    lemma_serialize_parse_public_key,
    spec_lms_public_key_len,
    spec_lms_signature_len,
};
use crate::util::ustr::{lemma_str_of_ustr, lemma_ustr_of_str, spec_str32u, spec_u32str};

verus! {

/// Parsing the wire form of a public key gives the key back.
pub proof fn lemma_parse_serialize_hss_public_key(v: HssPublicKeyView)
    requires
        v.wf(),
    ensures
        spec_parse_hss_public_key(v.serialize()) == Some(v),
{
    let s = v.serialize();
    lemma_str_of_ustr(0, v.level, 0);
    lemma_parse_serialize_public_key(v.public_key);
    assert(s.subrange(0, 4) =~= spec_u32str(v.level));
    assert(s.subrange(4, s.len() as int) =~= v.public_key.serialize());
}

/// Whatever parses as a public key is the wire form of that key, and of
/// no other.
pub proof fn lemma_serialize_parse_hss_public_key(data: Seq<u8>)
    requires
        spec_parse_hss_public_key(data) is Some,
    ensures
        spec_parse_hss_public_key(data).unwrap().wf(),
        spec_parse_hss_public_key(data).unwrap().serialize() == data,
{
    lemma_ustr_of_str(data.subrange(0, 4));
    lemma_serialize_parse_public_key(data.subrange(4, data.len() as int));
    assert(data.subrange(0, 4) + data.subrange(4, data.len() as int) =~= data);
}

/// A public key cut short or run long no longer parses.
pub proof fn lemma_parse_hss_public_key_rejects_other_lengths(v: HssPublicKeyView, data: Seq<u8>)
    requires
        v.wf(),
        data.is_prefix_of(v.serialize()) || v.serialize().is_prefix_of(data),
        data != v.serialize(),
    ensures
        spec_parse_hss_public_key(data) is None,
{
    let s = v.serialize();
    let inner = v.public_key.serialize();
    lemma_str_of_ustr(0, v.level, 0);
    assert(s.subrange(4, s.len() as int) =~= inner);
    if data.len() >= 4 {
        let rest = data.subrange(4, data.len() as int);
        if rest == inner {
            assert(data.subrange(0, 4) =~= s.subrange(0, 4));
            assert(data =~= data.subrange(0, 4) + rest);
            assert(s =~= s.subrange(0, 4) + inner);
        }
        lemma_parse_public_key_rejects_other_lengths(v.public_key, rest);
    }
}

/// A signed public key parses off the head of whatever it is written in
/// front of.
pub proof fn lemma_parse_signed_key_serialize(key: HssSignedPublicKeyView, tail: Seq<u8>)
    requires
        key.wf(),
    ensures
        spec_parse_signed_key(key.serialize() + tail) == Some((key, tail)),
{
    let sig = key.sig.serialize();
    let public_key = key.public_key.serialize();
    let data = key.serialize() + tail;
    lemma_parse_serialize_lms_signature(key.sig);
    lemma_parse_serialize_public_key(key.public_key);
    lemma_lms_signature_len_prefix(sig, data);
    assert(data.subrange(0, sig.len() as int) =~= sig);
    let after = data.subrange(sig.len() as int, data.len() as int);
    assert(after =~= public_key + tail);
    lemma_lms_public_key_len_prefix(public_key, after);
    assert(after.subrange(0, public_key.len() as int) =~= public_key);
    assert(after.subrange(public_key.len() as int, after.len() as int) =~= tail);
}

/// What parses off the head of a byte string as a signed public key is
/// well formed, and the byte string is its wire form and what was left.
pub proof fn lemma_serialize_parse_signed_key(data: Seq<u8>)
    requires
        spec_parse_signed_key(data) is Some,
    ensures
        spec_parse_signed_key(data).unwrap().0.wf(),
        spec_parse_signed_key(data).unwrap().0.serialize() + spec_parse_signed_key(data).unwrap().1
            == data,
{
    let sig_len = spec_lms_signature_len(data).unwrap();
    let head = data.subrange(0, sig_len as int);
    let after = data.subrange(sig_len as int, data.len() as int);
    let key_len = spec_lms_public_key_len(after).unwrap();
    let middle = after.subrange(0, key_len as int);
    let rest = after.subrange(key_len as int, after.len() as int);
    lemma_serialize_parse_lms_signature(head);
    lemma_serialize_parse_public_key(middle);
    assert(head + middle + rest =~= data);
}

/// Signed public keys parse off the head of whatever they are written in
/// front of, in the order in which they were written.
pub proof fn lemma_parse_signed_keys_serialize(keys: Seq<HssSignedPublicKeyView>, tail: Seq<u8>)
    requires
        forall|k: int| 0 <= k < keys.len() ==> (#[trigger] keys[k]).wf(),
    ensures
        spec_parse_signed_keys(spec_signed_key_rows(keys).flatten() + tail, keys.len()) == Some(
            (keys, tail),
        ),
    decreases keys.len(),
{
    let rows = spec_signed_key_rows(keys);
    if keys.len() == 0 {
        assert(rows.flatten() + tail =~= tail);
        assert(keys =~= Seq::empty());
    } else {
        let others = keys.drop_first();
        assert(rows.drop_first() =~= spec_signed_key_rows(others));
        let rest = spec_signed_key_rows(others).flatten() + tail;
        assert(rows.flatten() + tail =~= keys[0].serialize() + rest);
        lemma_parse_signed_key_serialize(keys[0], rest);
        lemma_parse_signed_keys_serialize(others, tail);
        assert(seq![keys[0]] + others =~= keys);
    }
}

/// What parses off the head of a byte string as signed public keys is
/// well formed, and the byte string is their wire forms and what was
/// left.
pub proof fn lemma_serialize_parse_signed_keys(data: Seq<u8>, count: nat)
    requires
        spec_parse_signed_keys(data, count) is Some,
    ensures
        spec_parse_signed_keys(data, count).unwrap().0.len() == count,
        forall|k: int|
            0 <= k < count ==> (#[trigger] spec_parse_signed_keys(data, count).unwrap().0[k]).wf(),
        spec_signed_key_rows(spec_parse_signed_keys(data, count).unwrap().0).flatten()
            + spec_parse_signed_keys(data, count).unwrap().1 == data,
    decreases count,
{
    let keys = spec_parse_signed_keys(data, count).unwrap().0;
    let tail = spec_parse_signed_keys(data, count).unwrap().1;
    let rows = spec_signed_key_rows(keys);
    if count == 0 {
        assert(rows.flatten() + tail =~= tail);
    } else {
        let first = spec_parse_signed_key(data).unwrap().0;
        let rest = spec_parse_signed_key(data).unwrap().1;
        let others = spec_parse_signed_keys(rest, (count - 1) as nat).unwrap().0;
        lemma_serialize_parse_signed_key(data);
        lemma_serialize_parse_signed_keys(rest, (count - 1) as nat);
        assert(keys == seq![first] + others);
        assert(rows.drop_first() =~= spec_signed_key_rows(others));
        assert(rows.flatten() + tail =~= first.serialize() + (spec_signed_key_rows(others).flatten()
            + tail));
        assert forall|k: int| 0 <= k < count implies (#[trigger] keys[k]).wf() by {
            if k > 0 {
                assert(keys[k] == others[k - 1]);
            }
        }
    }
}

/// Parsing the wire form of a signature gives the signature back.
pub proof fn lemma_parse_serialize_hss_signature(v: HssSignatureView)
    requires
        v.wf(),
    ensures
        spec_parse_hss_signature(v.serialize()) == Some(v),
{
    lemma_parse_signature_with_tail(v, Seq::empty());
    assert(v.signature.serialize() + Seq::<u8>::empty() =~= v.signature.serialize());
    assert(v.serialize() + Seq::<u8>::empty() =~= v.serialize());
    lemma_parse_serialize_lms_signature(v.signature);
}

/// The signed public keys of a signature parse off its wire form,
/// however the bytes go on after it, and leave the last signature and
/// what follows.
proof fn lemma_parse_signature_with_tail(v: HssSignatureView, tail: Seq<u8>)
    requires
        v.wf(),
    ensures
        (v.serialize() + tail).len() >= 4,
        spec_str32u((v.serialize() + tail).subrange(0, 4)) == v.signed_public_keys.len(),
        spec_parse_signed_keys(
            (v.serialize() + tail).subrange(4, (v.serialize() + tail).len() as int),
            v.signed_public_keys.len(),
        ) == Some((v.signed_public_keys, v.signature.serialize() + tail)),
{
    let data = v.serialize() + tail;
    let count = v.signed_public_keys.len() as u32;
    lemma_str_of_ustr(0, count, 0);
    assert(data.subrange(0, 4) =~= spec_u32str(count));
    let body = data.subrange(4, data.len() as int);
    let rest = v.signature.serialize() + tail;
    assert(body =~= spec_signed_key_rows(v.signed_public_keys).flatten() + rest);
    lemma_parse_signed_keys_serialize(v.signed_public_keys, rest);
}

/// Whatever parses as a signature is the wire form of that signature,
/// and of no other.
pub proof fn lemma_serialize_parse_hss_signature(data: Seq<u8>)
    requires
        spec_parse_hss_signature(data) is Some,
    ensures
        spec_parse_hss_signature(data).unwrap().wf(),
        spec_parse_hss_signature(data).unwrap().serialize() == data,
{
    let v = spec_parse_hss_signature(data).unwrap();
    let count = spec_str32u(data.subrange(0, 4));
    let body = data.subrange(4, data.len() as int);
    let rest = spec_parse_signed_keys(body, count as nat).unwrap().1;
    lemma_ustr_of_str(data.subrange(0, 4));
    lemma_serialize_parse_signed_keys(body, count as nat);
    lemma_serialize_parse_lms_signature(rest);
    assert(data.subrange(0, 4) + body =~= data);
    assert(v.serialize() =~= data.subrange(0, 4) + (spec_signed_key_rows(
        v.signed_public_keys,
    ).flatten() + rest));
}

/// A signature that runs on after its end no longer parses.
proof fn lemma_parse_hss_signature_rejects_longer(v: HssSignatureView, tail: Seq<u8>)
    requires
        v.wf(),
        tail.len() > 0,
    ensures
        spec_parse_hss_signature(v.serialize() + tail) is None,
{
    lemma_parse_signature_with_tail(v, tail);
    let last = v.signature.serialize();
    lemma_parse_lms_signature_rejects_other_lengths(v.signature, last + tail);
}

/// A signature cut short or run long no longer parses.
pub proof fn lemma_parse_hss_signature_rejects_other_lengths(v: HssSignatureView, data: Seq<u8>)
    requires
        v.wf(),
        data.is_prefix_of(v.serialize()) || v.serialize().is_prefix_of(data),
        data != v.serialize(),
    ensures
        spec_parse_hss_signature(data) is None,
{
    let s = v.serialize();
    if data.len() == s.len() {
        assert(data =~= s);
    }
    if s.is_prefix_of(data) {
        let tail = data.subrange(s.len() as int, data.len() as int);
        assert(data =~= s + tail);
        lemma_parse_hss_signature_rejects_longer(v, tail);
    } else if spec_parse_hss_signature(data) is Some {
        let w = spec_parse_hss_signature(data).unwrap();
        lemma_serialize_parse_hss_signature(data);
        let tail = s.subrange(data.len() as int, s.len() as int);
        assert(s =~= w.serialize() + tail);
        lemma_parse_hss_signature_rejects_longer(w, tail);
        lemma_parse_serialize_hss_signature(v);
    }
}

} // verus!
