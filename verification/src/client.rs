//! Building well-formed requests: the bytes a client sends for a write
//! or a read, stated exactly.  Reading the console and the socket happens
//! outside the library.

use vstd::prelude::*;
use crate::command::push_all;
use crate::digits::{
    dec_of, fmt_i32, fmt_u64, int_dec_of, lemma_dec_of_digits, lemma_dec_of_no_ws,
    lemma_int_dec_of_no_ws,
};
use crate::tokens::{
    is_ws, lemma_tokens_of_space, lemma_tokens_of_word, tokens_of, CR, LF, SPACE,
};

verus! {

/// `k` can stand on the wire as a key: it is nonempty and holds no
/// whitespace, so it survives tokenization as one token.
pub open spec fn wire_key(k: Seq<u8>) -> bool {
    k.len() > 0 && forall|i: int| 0 <= i < k.len() ==> !is_ws(#[trigger] k[i])
}

/// The command line of a write request:
/// `SET <key> <flags> <ttl> <length>`.
pub open spec fn set_request_line(key: Seq<u8>, flags: int, ttl: int, len: int) -> Seq<u8> {
    seq![0x53u8, 0x45u8, 0x54u8, SPACE] + key + seq![SPACE] + int_dec_of(flags) + seq![SPACE]
        + dec_of(ttl) + seq![SPACE] + dec_of(len)
}

/// The write request: the command line, CRLF, the payload bytes, CRLF.
pub open spec fn set_request(key: Seq<u8>, flags: int, ttl: int, payload: Seq<u8>) -> Seq<u8> {
    set_request_line(key, flags, ttl, payload.len() as int) + seq![CR, LF] + payload + seq![CR, LF]
}

/// The command line of a write request decodes back into exactly the
/// verb and the four argument tokens it was assembled from.
pub proof fn lemma_set_request_line_tokens(key: Seq<u8>, flags: int, ttl: int, len: int)
    requires
        wire_key(key),
        ttl >= 0,
        len >= 0,
    ensures
        tokens_of(set_request_line(key, flags, ttl, len)) == seq![
            seq![0x53u8, 0x45u8, 0x54u8],
            key,
            int_dec_of(flags),
            dec_of(ttl),
            dec_of(len),
        ],
{
    let setw = seq![0x53u8, 0x45u8, 0x54u8];
    let f = int_dec_of(flags);
    let t = dec_of(ttl);
    let l = dec_of(len);
    lemma_int_dec_of_no_ws(flags);
    lemma_dec_of_no_ws(ttl);
    lemma_dec_of_no_ws(len);
    lemma_dec_of_digits(ttl);
    lemma_dec_of_digits(len);
    if flags < 0 {
        lemma_dec_of_digits(-flags);
        assert(f.len() > 0);
    } else {
        lemma_dec_of_digits(flags);
        assert(f.len() > 0);
    }
    assert(forall|i: int| 0 <= i < setw.len() ==> !is_ws(#[trigger] setw[i])) by {
        assert(!is_ws(setw[0]) && !is_ws(setw[1]) && !is_ws(setw[2]));
    }

    let s5 = l;
    let s4 = seq![SPACE] + s5;
    let s3 = t + s4;
    let s2 = seq![SPACE] + s3;
    let s1 = f + s2;
    let s0 = seq![SPACE] + s1;
    let sk = key + s0;
    let ss = seq![SPACE] + sk;
    let line = setw + ss;

    lemma_tokens_of_word(l, Seq::<u8>::empty());
    assert(l + Seq::<u8>::empty() =~= s5);
    assert(tokens_of(s5) =~= seq![l] + tokens_of(Seq::<u8>::empty()));
    assert(tokens_of(Seq::<u8>::empty()) =~= Seq::<Seq<u8>>::empty());
    assert(tokens_of(s5) =~= seq![l]);
    lemma_tokens_of_space(s5);
    assert(s4[0] == SPACE);
    lemma_tokens_of_word(t, s4);
    assert(tokens_of(s3) =~= seq![t, l]);
    lemma_tokens_of_space(s3);
    assert(s2[0] == SPACE);
    lemma_tokens_of_word(f, s2);
    assert(tokens_of(s1) =~= seq![f, t, l]);
    lemma_tokens_of_space(s1);
    assert(s0[0] == SPACE);
    lemma_tokens_of_word(key, s0);
    assert(tokens_of(sk) =~= seq![key, f, t, l]);
    lemma_tokens_of_space(sk);
    assert(ss[0] == SPACE);
    lemma_tokens_of_word(setw, ss);
    assert(tokens_of(line) =~= seq![setw, key, f, t, l]);
    assert(set_request_line(key, flags, ttl, len) =~= line);
}

/// Build a write request for `key` carrying `payload`; the declared
/// length is the payload's own, so the request always passes the
/// server's length check.
pub fn format_set_request(key: &Vec<u8>, flags: i32, ttl: u32, payload: &Vec<u8>) -> (r: Vec<u8>)
    ensures
        r@ == set_request(key@, flags as int, ttl as int, payload@),
{
    let mut v: Vec<u8> = Vec::new();
    v.push(0x53);
    v.push(0x45);
    v.push(0x54);
    v.push(SPACE);
    push_all(&mut v, key);
    v.push(SPACE);
    let mut f = fmt_i32(flags);
    v.append(&mut f);
    v.push(SPACE);
    let mut t = fmt_u64(ttl as u64);
    v.append(&mut t);
    v.push(SPACE);
    let mut l = fmt_u64(payload.len() as u64);
    v.append(&mut l);
    v.push(CR);
    v.push(LF);
    push_all(&mut v, payload);
    v.push(CR);
    v.push(LF);
    proof {
        assert(v@ =~= set_request(key@, flags as int, ttl as int, payload@));
    }
    v
}

/// The keys of a read request, each preceded by one space.
pub open spec fn keys_joined(keys: Seq<Seq<u8>>) -> Seq<u8>
    decreases keys.len(),
{
    if keys.len() == 0 {
        Seq::empty()
    } else {
        keys_joined(keys.drop_last()) + seq![SPACE] + keys.last()
    }
}

/// The command line of a read request: `GET <key> [<key> ...]`.
pub open spec fn get_request_line(keys: Seq<Seq<u8>>) -> Seq<u8> {
    seq![0x47u8, 0x45u8, 0x54u8] + keys_joined(keys)
}

/// The read request: the command line, CRLF.
pub open spec fn get_request(keys: Seq<Seq<u8>>) -> Seq<u8> {
    get_request_line(keys) + seq![CR, LF]
}

/// Joined keys read front first: one space, the first key, the rest.
proof fn lemma_joined_front(keys: Seq<Seq<u8>>)
    requires
        keys.len() > 0,
    ensures
        keys_joined(keys) == seq![SPACE] + keys.first() + keys_joined(keys.drop_first()),
    decreases keys.len(),
{
    if keys.len() == 1 {
        assert(keys.drop_last() =~= Seq::<Seq<u8>>::empty());
        assert(keys_joined(Seq::<Seq<u8>>::empty()) == Seq::<u8>::empty());
        assert(keys.drop_first() =~= Seq::<Seq<u8>>::empty());
        assert(keys_joined(keys) =~= seq![SPACE] + keys.first() + keys_joined(keys.drop_first()));
    } else {
        let dl = keys.drop_last();
        lemma_joined_front(dl);
        assert(dl.first() == keys.first());
        assert(dl.drop_first() =~= keys.drop_first().drop_last());
        assert(keys.drop_first().last() == keys.last());
        assert(keys.drop_first().len() > 0);
        assert(keys_joined(keys.drop_first()) == keys_joined(keys.drop_first().drop_last()) + seq![
            SPACE
        ] + keys.drop_first().last());
        assert(keys_joined(keys) =~= seq![SPACE] + keys.first() + keys_joined(keys.drop_first()));
    }
}

/// Tokenizing the joined keys gives back exactly the keys, in order.
proof fn lemma_tokens_of_joined(keys: Seq<Seq<u8>>)
    requires
        forall|i: int| 0 <= i < keys.len() ==> wire_key(#[trigger] keys[i]),
    ensures
        tokens_of(keys_joined(keys)) == keys,
    decreases keys.len(),
{
    if keys.len() == 0 {
        assert(tokens_of(keys_joined(keys)) =~= keys);
    } else {
        let k0 = keys.first();
        let rest = keys.drop_first();
        lemma_joined_front(keys);
        assert(forall|i: int| 0 <= i < rest.len() ==> wire_key(#[trigger] rest[i])) by {
            assert(forall|i: int| 0 <= i < rest.len() ==> rest[i] == keys[i + 1]);
        }
        if rest.len() > 0 {
            lemma_joined_front(rest);
            assert(keys_joined(rest)[0] == SPACE);
            assert(is_ws(keys_joined(rest)[0]));
        }
        assert(wire_key(k0));
        lemma_tokens_of_word(k0, keys_joined(rest));
        lemma_tokens_of_joined(rest);
        lemma_tokens_of_space(k0 + keys_joined(rest));
        assert(keys_joined(keys) =~= seq![SPACE] + (k0 + keys_joined(rest)));
        assert(tokens_of(keys_joined(keys)) =~= seq![k0] + rest);
        assert(seq![k0] + rest =~= keys);
    }
}

/// The command line of a read request decodes back into the verb and
/// exactly the keys it was assembled from.
pub proof fn lemma_get_request_line_tokens(keys: Seq<Seq<u8>>)
    requires
        forall|i: int| 0 <= i < keys.len() ==> wire_key(#[trigger] keys[i]),
    ensures
        tokens_of(get_request_line(keys)) == seq![seq![0x47u8, 0x45u8, 0x54u8]] + keys,
{
    let getw = seq![0x47u8, 0x45u8, 0x54u8];
    assert(forall|i: int| 0 <= i < getw.len() ==> !is_ws(#[trigger] getw[i])) by {
        assert(!is_ws(getw[0]) && !is_ws(getw[1]) && !is_ws(getw[2]));
    }
    if keys.len() > 0 {
        lemma_joined_front(keys);
        assert(keys_joined(keys)[0] == SPACE);
        assert(is_ws(keys_joined(keys)[0]));
    }
    lemma_tokens_of_word(getw, keys_joined(keys));
    lemma_tokens_of_joined(keys);
    assert(tokens_of(get_request_line(keys)) =~= seq![getw] + keys);
}

/// Build a read request for the given keys, in order.
pub fn format_get_request(keys: &Vec<Vec<u8>>) -> (r: Vec<u8>)
    ensures
        r@ == get_request(keys.deep_view()),
{
    let ghost a = keys.deep_view();
    proof {
        assert(a.len() == keys@.len());
        assert forall|i: int| 0 <= i < a.len() implies a[i] == keys@[i]@ by {
            assert(keys@[i].deep_view() =~= keys@[i]@);
        }
    }
    let mut v: Vec<u8> = Vec::new();
    v.push(0x47);
    v.push(0x45);
    v.push(0x54);
    proof {
        assert(v@ =~= seq![0x47u8, 0x45u8, 0x54u8] + keys_joined(a.take(0)));
    }
    let mut i: usize = 0;
    while i < keys.len()
        invariant
            0 <= i <= keys@.len(),
            a == keys.deep_view(),
            a.len() == keys@.len(),
            forall|j: int| 0 <= j < a.len() ==> a[j] == (#[trigger] keys@[j])@,
            v@ == seq![0x47u8, 0x45u8, 0x54u8] + keys_joined(a.take(i as int)),
        decreases keys@.len() - i,
    {
        v.push(SPACE);
        push_all(&mut v, &keys[i]);
        proof {
            assert(a.take(i + 1).drop_last() =~= a.take(i as int));
            assert(a.take(i + 1).last() == a[i as int]);
            assert(v@ =~= seq![0x47u8, 0x45u8, 0x54u8] + keys_joined(a.take(i + 1)));
        }
        i += 1;
    }
    v.push(CR);
    v.push(LF);
    proof {
        assert(a.take(a.len() as int) =~= a);
        assert(v@ =~= get_request(a));
    }
    v
}

} // verus!
