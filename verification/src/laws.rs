//! The observable laws of the cache, proved once and for all over the
//! store model and the executor's specification functions.

use vstd::prelude::*;
use crate::client::{
    get_request_line, lemma_get_request_line_tokens, lemma_set_request_line_tokens,
    set_request_line, wire_key,
};
use crate::command::{
    command_new_store, command_response, noreply_arg, get_response, resp_bad_data, resp_stored,
    set_applies, set_args_ok, set_entry, set_expire, set_new_store, set_response, now_ok,
    value_block,
};
use crate::digits::{
    dec_of, dec_val, int_dec_of, lemma_dec_of_digits, lemma_dec_of_val, lemma_dec_val_nonneg,
    lemma_int_dec_of_val,
};
use crate::store::{live, EntryModel};
use crate::tokens::{set_verb, get_verb, tokens_of};

verus! {

/// A get for one key yields that key's value block exactly when the key
/// is present and live, and nothing otherwise.
pub proof fn lemma_get_single(m: Map<Seq<u8>, EntryModel>, now: u64, k: Seq<u8>)
    ensures
        get_response(m, now, seq![k]) == if m.contains_key(k) && live(m[k], now) {
            value_block(k, m[k])
        } else {
            Seq::<u8>::empty()
        },
{
    let keys = seq![k];
    assert(keys.drop_last() =~= Seq::<Seq<u8>>::empty());
    assert(keys.last() == k);
    assert(get_response(m, now, keys.drop_last()) == Seq::<u8>::empty());
    if m.contains_key(k) && live(m[k], now) {
        assert(Seq::<u8>::empty() + value_block(k, m[k]) =~= value_block(k, m[k]));
    } else {
        assert(Seq::<u8>::empty() + Seq::<u8>::empty() =~= Seq::<u8>::empty());
    }
}

/// A key never written has no entry, so a get for it emits no value
/// block.
pub proof fn lemma_get_unwritten_key(m: Map<Seq<u8>, EntryModel>, now: u64, k: Seq<u8>)
    requires
        !m.contains_key(k),
    ensures
        get_response(m, now, seq![k]) == Seq::<u8>::empty(),
{
    lemma_get_single(m, now, k);
}

/// A successful set followed immediately by a get for the same key
/// reproduces the flags and the payload byte for byte, with the length
/// field equal to the declared length.
pub proof fn lemma_set_then_get(m: Map<Seq<u8>, EntryModel>, now: u64, a: Seq<Seq<u8>>, d: Seq<u8>)
    requires
        set_applies(a, d),
        now_ok(now),
    ensures
        set_new_store(m, now, a, d).contains_key(a[0]),
        set_new_store(m, now, a, d)[a[0]] == set_entry(now, a, d),
        set_entry(now, a, d).data == d,
        set_entry(now, a, d).data.len() == dec_val(a[3]),
        get_response(set_new_store(m, now, a, d), now, seq![a[0]]) == value_block(
            a[0],
            set_entry(now, a, d),
        ),
{
    let m2 = set_new_store(m, now, a, d);
    let e = set_entry(now, a, d);
    lemma_dec_val_nonneg(a[2]);
    assert(live(e, now));
    lemma_get_single(m2, now, a[0]);
}

/// A set with a positive ttl stays readable through second `now + ttl`
/// and is gone from reads strictly after it.
pub proof fn lemma_ttl_expiry(
    m: Map<Seq<u8>, EntryModel>,
    now: u64,
    a: Seq<Seq<u8>>,
    d: Seq<u8>,
    later: u64,
)
    requires
        set_applies(a, d),
        dec_val(a[2]) > 0,
        now_ok(now),
    ensures
        later <= now + dec_val(a[2]) ==> get_response(set_new_store(m, now, a, d), later, seq![
            a[0]
        ]) == value_block(a[0], set_entry(now, a, d)),
        later > now + dec_val(a[2]) ==> get_response(set_new_store(m, now, a, d), later, seq![
            a[0]
        ]) == Seq::<u8>::empty(),
{
    let m2 = set_new_store(m, now, a, d);
    let e = set_entry(now, a, d);
    assert(e.expire == now + dec_val(a[2]));
    lemma_get_single(m2, later, a[0]);
}

/// Issuing the identical set twice in a row leaves the store in the same
/// observable state as issuing it once.
pub proof fn lemma_set_idempotent(m: Map<Seq<u8>, EntryModel>, now: u64, a: Seq<Seq<u8>>, d: Seq<u8>)
    ensures
        set_new_store(set_new_store(m, now, a, d), now, a, d) == set_new_store(m, now, a, d),
{
    if set_applies(a, d) {
        assert(set_new_store(set_new_store(m, now, a, d), now, a, d) =~= set_new_store(
            m,
            now,
            a,
            d,
        ));
    }
}

/// A second set to the same key replaces the first entry wholesale: the
/// store is as if only the second set had happened, and a get sees only
/// the second payload, flags and length.
pub proof fn lemma_set_overwrite(
    m: Map<Seq<u8>, EntryModel>,
    now1: u64,
    a1: Seq<Seq<u8>>,
    d1: Seq<u8>,
    now2: u64,
    a2: Seq<Seq<u8>>,
    d2: Seq<u8>,
    rnow: u64,
)
    requires
        set_applies(a1, d1),
        set_applies(a2, d2),
        a1[0] == a2[0],
    ensures
        set_new_store(set_new_store(m, now1, a1, d1), now2, a2, d2) == set_new_store(
            m,
            now2,
            a2,
            d2,
        ),
        live(set_entry(now2, a2, d2), rnow) ==> get_response(
            set_new_store(set_new_store(m, now1, a1, d1), now2, a2, d2),
            rnow,
            seq![a2[0]],
        ) == value_block(a2[0], set_entry(now2, a2, d2)),
{
    assert(set_new_store(set_new_store(m, now1, a1, d1), now2, a2, d2) =~= set_new_store(
        m,
        now2,
        a2,
        d2,
    ));
    lemma_get_single(set_new_store(m, now2, a2, d2), rnow, a2[0]);
}

/// A set whose payload length differs from the declared length is
/// rejected with the bad-data-chunk error, changes nothing, and a get for
/// a previously unwritten key still finds nothing.
pub proof fn lemma_length_mismatch_rejected(
    m: Map<Seq<u8>, EntryModel>,
    now: u64,
    a: Seq<Seq<u8>>,
    d: Seq<u8>,
    rnow: u64,
)
    requires
        set_args_ok(a),
        d.len() != dec_val(a[3]),
    ensures
        set_new_store(m, now, a, d) == m,
        set_response(a, d) == resp_bad_data(),
        !m.contains_key(a[0]) ==> get_response(set_new_store(m, now, a, d), rnow, seq![a[0]])
            == Seq::<u8>::empty(),
{
    if !m.contains_key(a[0]) {
        lemma_get_single(m, rnow, a[0]);
    }
}

/// `noreply` as the fifth argument suppresses the acknowledgment of an
/// applied set; any other argument count or fifth value still answers
/// `STORED`.
pub proof fn lemma_noreply(a: Seq<Seq<u8>>, d: Seq<u8>)
    requires
        set_applies(a, d),
    ensures
        noreply_arg(a) ==> set_response(a, d) == Seq::<u8>::empty(),
        !noreply_arg(a) ==> set_response(a, d) == resp_stored(),
{
}

/// Sets to distinct keys are independent: they commute, each key
/// afterwards holds exactly the entry its own set wrote, and each is
/// retrievable on its own while its entry is live.
pub proof fn lemma_distinct_keys_independent(
    m: Map<Seq<u8>, EntryModel>,
    now1: u64,
    a1: Seq<Seq<u8>>,
    d1: Seq<u8>,
    now2: u64,
    a2: Seq<Seq<u8>>,
    d2: Seq<u8>,
    rnow: u64,
)
    requires
        set_applies(a1, d1),
        set_applies(a2, d2),
        a1[0] != a2[0],
    ensures
        set_new_store(set_new_store(m, now1, a1, d1), now2, a2, d2) == set_new_store(
            set_new_store(m, now2, a2, d2),
            now1,
            a1,
            d1,
        ),
        set_new_store(set_new_store(m, now1, a1, d1), now2, a2, d2)[a1[0]] == set_entry(
            now1,
            a1,
            d1,
        ),
        set_new_store(set_new_store(m, now1, a1, d1), now2, a2, d2)[a2[0]] == set_entry(
            now2,
            a2,
            d2,
        ),
        live(set_entry(now1, a1, d1), rnow) ==> get_response(
            set_new_store(set_new_store(m, now1, a1, d1), now2, a2, d2),
            rnow,
            seq![a1[0]],
        ) == value_block(a1[0], set_entry(now1, a1, d1)),
        live(set_entry(now2, a2, d2), rnow) ==> get_response(
            set_new_store(set_new_store(m, now1, a1, d1), now2, a2, d2),
            rnow,
            seq![a2[0]],
        ) == value_block(a2[0], set_entry(now2, a2, d2)),
{
    assert(set_new_store(set_new_store(m, now1, a1, d1), now2, a2, d2) =~= set_new_store(
        set_new_store(m, now2, a2, d2),
        now1,
        a1,
        d1,
    ));
    lemma_get_single(set_new_store(set_new_store(m, now1, a1, d1), now2, a2, d2), rnow, a1[0]);
    lemma_get_single(set_new_store(set_new_store(m, now1, a1, d1), now2, a2, d2), rnow, a2[0]);
}

/// A write request assembled for the wire is decoded and executed by the
/// server exactly as meant: the server stores the payload under the key,
/// verbatim, with the given flags and the expiry the ttl calls for, and
/// acknowledges with `STORED`.
pub proof fn lemma_set_request_round_trip(
    m: Map<Seq<u8>, EntryModel>,
    now: u64,
    key: Seq<u8>,
    flags: i32,
    ttl: u32,
    payload: Seq<u8>,
)
    requires
        wire_key(key),
        payload.len() <= usize::MAX,
        now_ok(now),
    ensures
        command_response(
            m,
            now,
            set_request_line(key, flags as int, ttl as int, payload.len() as int),
            Some(payload),
        ) == resp_stored(),
        command_new_store(
            m,
            now,
            set_request_line(key, flags as int, ttl as int, payload.len() as int),
            Some(payload),
        ) == m.insert(
            key,
            EntryModel { data: payload, flags, expire: set_expire(now, ttl as int) as u64 },
        ),
{
    let line = set_request_line(key, flags as int, ttl as int, payload.len() as int);
    lemma_set_request_line_tokens(key, flags as int, ttl as int, payload.len() as int);
    let tks = tokens_of(line);
    assert(set_verb(tks[0])) by {
        assert(tks[0] =~= seq![0x53u8, 0x45u8, 0x54u8]);
    }
    let a = tks.skip(1);
    assert(a =~= seq![
        key,
        int_dec_of(flags as int),
        dec_of(ttl as int),
        dec_of(payload.len() as int),
    ]);
    lemma_int_dec_of_val(flags as int);
    lemma_dec_of_digits(ttl as int);
    lemma_dec_of_val(ttl as int);
    lemma_dec_of_digits(payload.len() as int);
    lemma_dec_of_val(payload.len() as int);
    assert(set_args_ok(a));
    assert(set_applies(a, payload));
    assert(!noreply_arg(a));
    assert(set_entry(now, a, payload) == EntryModel {
        data: payload,
        flags,
        expire: set_expire(now, ttl as int) as u64,
    });
}

/// A read request assembled for the wire is decoded and executed by the
/// server exactly as meant: the response is the value blocks of the named
/// keys in order, and the store does not change.
pub proof fn lemma_get_request_round_trip(m: Map<Seq<u8>, EntryModel>, now: u64, keys: Seq<Seq<u8>>)
    requires
        forall|i: int| 0 <= i < keys.len() ==> wire_key(#[trigger] keys[i]),
    ensures
        command_response(m, now, get_request_line(keys), None) == get_response(m, now, keys),
        command_new_store(m, now, get_request_line(keys), None) == m,
{
    let line = get_request_line(keys);
    lemma_get_request_line_tokens(keys);
    let tks = tokens_of(line);
    assert(tks[0] =~= seq![0x47u8, 0x45u8, 0x54u8]);
    assert(get_verb(tks[0]));
    assert(!set_verb(tks[0])) by {
        if tks[0] == seq![0x73u8, 0x65u8, 0x74u8] {
            assert(tks[0][0] == 0x73);
        }
        if tks[0] == seq![0x53u8, 0x45u8, 0x54u8] {
            assert(tks[0][0] == 0x53);
        }
    }
    assert(tks.skip(1) =~= keys);
}

} // verus!
