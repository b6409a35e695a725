//! The command executor: validation of parsed arguments, application to
//! the store, and the exact bytes of every response.

use vstd::prelude::*;
use crate::digits::{
    dec_of, dec_val, dec_valid, fmt_i32, fmt_u64, i32_tok_valid, int_dec_of, int_tok_val,
    lemma_dec_val_nonneg, parse_dec, parse_i32, copy_from,
};
use crate::store::{live, CacheEntry, EntryModel, Store};
use crate::tokens::{get_verb, is_get_verb, is_set_verb, set_verb, tokenize, tokens_of, CR, LF,
    SPACE};

verus! {

/// The `ERROR` line sent for an empty or unreadable command line.
pub open spec fn resp_error() -> Seq<u8> {
    seq![0x45u8, 0x52u8, 0x52u8, 0x4fu8, 0x52u8, CR, LF]
}

/// The `STORED` line acknowledging a successful write.
pub open spec fn resp_stored() -> Seq<u8> {
    seq![0x53u8, 0x54u8, 0x4fu8, 0x52u8, 0x45u8, 0x44u8, CR, LF]
}

/// The `ERROR invalid set arguments` line for a write with a bad argument
/// count or non-numeric flags, ttl or length.
pub open spec fn resp_bad_args() -> Seq<u8> {
    seq![
        0x45u8, 0x52u8, 0x52u8, 0x4fu8, 0x52u8, SPACE, 0x69u8, 0x6eu8, 0x76u8, 0x61u8, 0x6cu8,
        0x69u8, 0x64u8, SPACE, 0x73u8, 0x65u8, 0x74u8, SPACE, 0x61u8, 0x72u8, 0x67u8, 0x75u8,
        0x6du8, 0x65u8, 0x6eu8, 0x74u8, 0x73u8, CR, LF,
    ]
}

/// The `CLIENT_ERROR bad data chunk` line for a payload whose length does
/// not match the declared length, or a missing payload line.
pub open spec fn resp_bad_data() -> Seq<u8> {
    seq![
        0x43u8, 0x4cu8, 0x49u8, 0x45u8, 0x4eu8, 0x54u8, 0x5fu8, 0x45u8, 0x52u8, 0x52u8, 0x4fu8,
        0x52u8, SPACE, 0x62u8, 0x61u8, 0x64u8, SPACE, 0x64u8, 0x61u8, 0x74u8, 0x61u8, SPACE,
        0x63u8, 0x68u8, 0x75u8, 0x6eu8, 0x6bu8, CR, LF,
    ]
}

/// The literal `noreply`.
pub open spec fn noreply_lit() -> Seq<u8> {
    seq![0x6eu8, 0x6fu8, 0x72u8, 0x65u8, 0x70u8, 0x6cu8, 0x79u8]
}

/// Build the `ERROR` response.
pub fn error_response() -> (r: Vec<u8>)
    ensures
        r@ == resp_error(),
{
    let mut v: Vec<u8> = Vec::new();
    v.push(0x45);
    v.push(0x52);
    v.push(0x52);
    v.push(0x4f);
    v.push(0x52);
    v.push(CR);
    v.push(LF);
    proof {
        assert(v@ =~= resp_error());
    }
    v
}

/// Build the `STORED` response.
pub fn stored_response() -> (r: Vec<u8>)
    ensures
        r@ == resp_stored(),
{
    let mut v: Vec<u8> = Vec::new();
    v.push(0x53);
    v.push(0x54);
    v.push(0x4f);
    v.push(0x52);
    v.push(0x45);
    v.push(0x44);
    v.push(CR);
    v.push(LF);
    proof {
        assert(v@ =~= resp_stored());
    }
    v
}

/// Build the `ERROR invalid set arguments` response.
pub fn bad_args_response() -> (r: Vec<u8>)
    ensures
        r@ == resp_bad_args(),
{
    let mut v: Vec<u8> = Vec::new();
    v.push(0x45);
    v.push(0x52);
    v.push(0x52);
    v.push(0x4f);
    v.push(0x52);
    v.push(SPACE);
    v.push(0x69);
    v.push(0x6e);
    v.push(0x76);
    v.push(0x61);
    v.push(0x6c);
    v.push(0x69);
    v.push(0x64);
    v.push(SPACE);
    v.push(0x73);
    v.push(0x65);
    v.push(0x74);
    v.push(SPACE);
    v.push(0x61);
    v.push(0x72);
    v.push(0x67);
    v.push(0x75);
    v.push(0x6d);
    v.push(0x65);
    v.push(0x6e);
    v.push(0x74);
    v.push(0x73);
    v.push(CR);
    v.push(LF);
    proof {
        assert(v@ =~= resp_bad_args());
    }
    v
}

/// Build the `CLIENT_ERROR bad data chunk` response.
pub fn bad_data_response() -> (r: Vec<u8>)
    ensures
        r@ == resp_bad_data(),
{
    let mut v: Vec<u8> = Vec::new();
    v.push(0x43);
    v.push(0x4c);
    v.push(0x49);
    v.push(0x45);
    v.push(0x4e);
    v.push(0x54);
    v.push(0x5f);
    v.push(0x45);
    v.push(0x52);
    v.push(0x52);
    v.push(0x4f);
    v.push(0x52);
    v.push(SPACE);
    v.push(0x62);
    v.push(0x61);
    v.push(0x64);
    v.push(SPACE);
    v.push(0x64);
    v.push(0x61);
    v.push(0x74);
    v.push(0x61);
    v.push(SPACE);
    v.push(0x63);
    v.push(0x68);
    v.push(0x75);
    v.push(0x6e);
    v.push(0x6b);
    v.push(CR);
    v.push(LF);
    proof {
        assert(v@ =~= resp_bad_data());
    }
    v
}

/// Append the bytes of `src` to `dst`.
pub fn push_all(dst: &mut Vec<u8>, src: &Vec<u8>)
    ensures
        final(dst)@ == old(dst)@ + src@,
{
    let mut i: usize = 0;
    while i < src.len()
        invariant
            0 <= i <= src@.len(),
            dst@ == old(dst)@ + src@.take(i as int),
        decreases src@.len() - i,
    {
        let b = src[i];
        dst.push(b);
        proof {
            assert(old(dst)@ + src@.take(i + 1) =~= (old(dst)@ + src@.take(i as int)).push(
                src@[i as int]));
        }
        i += 1;
    }
    proof {
        assert(src@.take(src@.len() as int) =~= src@);
    }
}

/// The value block a get emits for key `k` holding entry `e`:
/// `VALUE <key> <flags> <length>`, the payload bytes, then `END`,
/// each line ended by CRLF.
pub open spec fn value_block(k: Seq<u8>, e: EntryModel) -> Seq<u8> {
    seq![0x56u8, 0x41u8, 0x4cu8, 0x55u8, 0x45u8, SPACE] + k + seq![SPACE] + int_dec_of(
        e.flags as int) + seq![SPACE] + dec_of(e.data.len() as int) + seq![CR, LF] + e.data + seq![
        CR,
        LF,
        0x45u8,
        0x4eu8,
        0x44u8,
        CR,
        LF,
    ]
}

fn append_value_block(r: &mut Vec<u8>, key: &Vec<u8>, entry: &CacheEntry)
    ensures
        final(r)@ == old(r)@ + value_block(key@, entry@),
{
    r.push(0x56);
    r.push(0x41);
    r.push(0x4c);
    r.push(0x55);
    r.push(0x45);
    r.push(SPACE);
    push_all(r, key);
    r.push(SPACE);
    let mut f = fmt_i32(entry.flags);
    r.append(&mut f);
    r.push(SPACE);
    let mut l = fmt_u64(entry.data.len() as u64);
    r.append(&mut l);
    r.push(CR);
    r.push(LF);
    push_all(r, &entry.data);
    r.push(CR);
    r.push(LF);
    r.push(0x45);
    r.push(0x4e);
    r.push(0x44);
    r.push(CR);
    r.push(LF);
    proof {
        assert(r@ =~= old(r)@ + value_block(key@, entry@));
    }
}

/// The write's arguments are well formed: four or five of them, with
/// numeric flags, ttl and length in range.
pub open spec fn set_args_ok(a: Seq<Seq<u8>>) -> bool {
    &&& 4 <= a.len() <= 5
    &&& i32_tok_valid(a[1])
    &&& dec_valid(a[2]) && dec_val(a[2]) <= u32::MAX
    &&& dec_valid(a[3]) && dec_val(a[3]) <= usize::MAX
}

/// The write is applied: its arguments are well formed and the payload's
/// length equals the declared length.
pub open spec fn set_applies(a: Seq<Seq<u8>>, d: Seq<u8>) -> bool {
    set_args_ok(a) && d.len() == dec_val(a[3])
}

/// The absolute expiry instant a write at second `now` with the given ttl
/// stores: the never-expires sentinel `0` for ttl `0`, else `now + ttl`.
pub open spec fn set_expire(now: u64, ttl: int) -> int {
    if ttl == 0 {
        0
    } else {
        now + ttl
    }
}

/// The entry a successful write stores.
pub open spec fn set_entry(now: u64, a: Seq<Seq<u8>>, d: Seq<u8>) -> EntryModel {
    EntryModel {
        data: d,
        flags: int_tok_val(a[1]) as i32,
        expire: set_expire(now, dec_val(a[2])) as u64,
    }
}

/// The store after a write: unchanged unless the write applies, in which
/// case the key's entry is replaced wholesale.
pub open spec fn set_new_store(
    m: Map<Seq<u8>, EntryModel>,
    now: u64,
    a: Seq<Seq<u8>>,
    d: Seq<u8>,
) -> Map<Seq<u8>, EntryModel> {
    if set_applies(a, d) {
        m.insert(a[0], set_entry(now, a, d))
    } else {
        m
    }
}

/// The fifth argument is present and is exactly `noreply`.
pub open spec fn noreply_arg(a: Seq<Seq<u8>>) -> bool {
    a.len() == 5 && a[4] == noreply_lit()
}

/// The response to a write: an argument error, a data-chunk error, nothing
/// (acknowledgment suppressed by `noreply`), or `STORED`.  Note the
/// deliberate tolerance: a fifth argument other than exactly `noreply` is
/// not rejected, it merely fails to suppress the acknowledgment.
pub open spec fn set_response(a: Seq<Seq<u8>>, d: Seq<u8>) -> Seq<u8> {
    if !set_args_ok(a) {
        resp_bad_args()
    } else if d.len() != dec_val(a[3]) {
        resp_bad_data()
    } else if noreply_arg(a) {
        Seq::empty()
    } else {
        resp_stored()
    }
}

/// The instant `now` leaves room for the largest ttl, so an expiry
/// instant always fits a `u64`.
pub open spec fn now_ok(now: u64) -> bool {
    now <= u64::MAX - u32::MAX
}

/// Whether `t` is exactly the literal `noreply`.
pub fn is_noreply(t: &Vec<u8>) -> (r: bool)
    ensures
        r == (t@ == noreply_lit()),
{
    if t.len() != 7 {
        proof {
            assert(noreply_lit().len() == 7);
        }
        return false;
    }
    let r = t[0] == 0x6e && t[1] == 0x6f && t[2] == 0x72 && t[3] == 0x65 && t[4] == 0x70 && t[5]
        == 0x6c && t[6] == 0x79;
    proof {
        if r {
            assert(t@ =~= noreply_lit());
        } else {
            assert(t@ != noreply_lit()) by {
                if t@ == noreply_lit() {
                    assert(t@[0] == 0x6e && t@[1] == 0x6f && t@[2] == 0x72 && t@[3] == 0x65 && t@[4]
                        == 0x70 && t@[5] == 0x6c && t@[6] == 0x79);
                }
            }
        }
    }
    r
}

/// Execute a write.  `args` are the tokens after the verb: key, flags,
/// ttl, declared length, and optionally `noreply`.  The store is updated
/// and the response produced exactly as `set_new_store` and
/// `set_response` state.
pub fn handle_set(store: &mut Store, now: u64, args: &Vec<Vec<u8>>, data: Vec<u8>) -> (r: Vec<u8>)
    requires
        old(store).wf(),
        now_ok(now),
    ensures
        final(store).wf(),
        final(store)@ == set_new_store(old(store)@, now, args.deep_view(), data@),
        r@ == set_response(args.deep_view(), data@),
{
    let ghost a = args.deep_view();
    proof {
        assert(a.len() == args@.len());
        assert forall|i: int| 0 <= i < a.len() implies a[i] == args@[i]@ by {
            assert(args@[i].deep_view() =~= args@[i]@);
        }
    }
    if args.len() < 4 || args.len() > 5 {
        return bad_args_response();
    }
    let flags = match parse_i32(&args[1]) {
        Some(f) => f,
        None => {
            return bad_args_response();
        },
    };
    let ttl = match parse_dec(&args[2], 0xffff_ffff) {
        Some(t) => t,
        None => {
            return bad_args_response();
        },
    };
    let length_u64 = match parse_dec(&args[3], usize::MAX as u64) {
        Some(l) => l,
        None => {
            return bad_args_response();
        },
    };
    proof {
        lemma_dec_val_nonneg(a[3]);
        assert(length_u64 <= usize::MAX);
    }
    let length = length_u64 as usize;
    let ghost d = data@;
    if data.len() != length {
        return bad_data_response();
    }
    let expire: u64 = if ttl == 0 {
        0
    } else {
        proof {
            lemma_dec_val_nonneg(a[2]);
        }
        now + ttl
    };
    let key = copy_from(&args[0], 0);
    proof {
        assert(key@ =~= a[0]);
    }
    let reply = args.len() == 4 || !is_noreply(&args[4]);
    proof {
        lemma_dec_val_nonneg(a[2]);
        assert(set_args_ok(a));
        assert(d.len() == dec_val(a[3]));
        assert(set_applies(a, d));
        assert(flags == int_tok_val(a[1]) as i32);
        assert(expire == set_expire(now, dec_val(a[2])) as u64);
        assert(reply == !noreply_arg(a));
    }
    store.set(key, data, flags, expire);
    if reply {
        stored_response()
    } else {
        Vec::new()
    }
}

/// The bytes a read emits for the given keys in order: one value block
/// per key found and unexpired, nothing for the others.
pub open spec fn get_response(
    m: Map<Seq<u8>, EntryModel>,
    now: u64,
    keys: Seq<Seq<u8>>,
) -> Seq<u8>
    decreases keys.len(),
{
    if keys.len() == 0 {
        Seq::empty()
    } else {
        get_response(m, now, keys.drop_last()) + (if m.contains_key(keys.last()) && live(
            m[keys.last()],
            now,
        ) {
            value_block(keys.last(), m[keys.last()])
        } else {
            Seq::empty()
        })
    }
}

/// Execute a read.  `args` are the keys after the verb; the response is
/// exactly `get_response`, and the store does not change (the receiver is
/// shared).
pub fn handle_get(store: &Store, now: u64, args: &Vec<Vec<u8>>) -> (r: Vec<u8>)
    requires
        store.wf(),
    ensures
        r@ == get_response(store@, now, args.deep_view()),
{
    let ghost a = args.deep_view();
    proof {
        assert(a.len() == args@.len());
        assert forall|i: int| 0 <= i < a.len() implies a[i] == args@[i]@ by {
            assert(args@[i].deep_view() =~= args@[i]@);
        }
    }
    let mut r: Vec<u8> = Vec::new();
    let mut i: usize = 0;
    while i < args.len()
        invariant
            store.wf(),
            0 <= i <= args@.len(),
            a == args.deep_view(),
            a.len() == args@.len(),
            forall|j: int| 0 <= j < a.len() ==> a[j] == (#[trigger] args@[j])@,
            r@ == get_response(store@, now, a.take(i as int)),
        decreases args@.len() - i,
    {
        proof {
            assert(a.take(i + 1).drop_last() =~= a.take(i as int));
            assert(a.take(i + 1).last() == a[i as int]);
        }
        match store.get(&args[i], now) {
            Some(entry) => {
                append_value_block(&mut r, &args[i], entry);
            },
            None => {},
        }
        i += 1;
    }
    proof {
        assert(a.take(a.len() as int) =~= a);
    }
    r
}

/// The command line's verb asks for a payload line: its first token is
/// the write verb.
pub open spec fn cmd_needs_payload(line: Seq<u8>) -> bool {
    tokens_of(line).len() > 0 && set_verb(tokens_of(line)[0])
}

/// Whether the command line's verb asks for a payload line to follow.
pub fn needs_payload(line: &Vec<u8>) -> (r: bool)
    ensures
        r == cmd_needs_payload(line@),
{
    let tokens = tokenize(line);
    proof {
        assert(tokens.deep_view().len() == tokens@.len());
    }
    if tokens.len() == 0 {
        false
    } else {
        proof {
            assert(tokens@[0].deep_view() =~= tokens@[0]@);
            assert(tokens.deep_view()[0] == tokens@[0]@);
        }
        is_set_verb(&tokens[0])
    }
}

/// The view of an optional payload line.
pub open spec fn payload_view(p: Option<Vec<u8>>) -> Option<Seq<u8>> {
    match p {
        Some(d) => Some(d@),
        None => None,
    }
}

/// The store after one command line with optional payload: only a write
/// verb with a payload line can change it.
pub open spec fn command_new_store(
    m: Map<Seq<u8>, EntryModel>,
    now: u64,
    line: Seq<u8>,
    p: Option<Seq<u8>>,
) -> Map<Seq<u8>, EntryModel> {
    let t = tokens_of(line);
    if t.len() > 0 && set_verb(t[0]) && p is Some {
        set_new_store(m, now, t.skip(1), p->Some_0)
    } else {
        m
    }
}

/// The response to one command line with optional payload: `ERROR` for an
/// empty line, the write semantics for the write verb (a missing payload
/// line is a bad data chunk), the read semantics for the read verb, and
/// nothing for an unrecognized verb.
pub open spec fn command_response(
    m: Map<Seq<u8>, EntryModel>,
    now: u64,
    line: Seq<u8>,
    p: Option<Seq<u8>>,
) -> Seq<u8> {
    let t = tokens_of(line);
    if t.len() == 0 {
        resp_error()
    } else if set_verb(t[0]) {
        match p {
            Some(d) => set_response(t.skip(1), d),
            None => resp_bad_data(),
        }
    } else if get_verb(t[0]) {
        get_response(m, now, t.skip(1))
    } else {
        Seq::empty()
    }
}

/// Execute one command line.  `payload` is the payload line read after a
/// write verb, or `None` where none arrived.  Dispatches by verb exactly
/// as `command_new_store` and `command_response` state.
pub fn handle_command(store: &mut Store, now: u64, line: &Vec<u8>, payload: Option<Vec<u8>>) -> (r:
    Vec<u8>)
    requires
        old(store).wf(),
        now_ok(now),
    ensures
        final(store).wf(),
        final(store)@ == command_new_store(old(store)@, now, line@, payload_view(payload)),
        r@ == command_response(old(store)@, now, line@, payload_view(payload)),
{
    let ghost t = tokens_of(line@);
    let mut tokens = tokenize(line);
    proof {
        assert(tokens.deep_view().len() == tokens@.len());
    }
    if tokens.len() == 0 {
        return error_response();
    }
    proof {
        assert(tokens@[0].deep_view() =~= tokens@[0]@);
        assert(tokens.deep_view()[0] == tokens@[0]@);
    }
    let set_v = is_set_verb(&tokens[0]);
    let get_v = is_get_verb(&tokens[0]);
    let ghost before = tokens@;
    let _verb = tokens.remove(0);
    proof {
        assert(tokens@ =~= before.skip(1));
        assert(tokens.deep_view() =~~= t.skip(1)) by {
            assert(tokens.deep_view().len() == t.skip(1).len());
            assert forall|i: int| 0 <= i < tokens@.len() implies tokens.deep_view()[i] == t.skip(
                1,
            )[i] by {
                assert(tokens@[i] == before[i + 1]);
                assert(tokens@[i].deep_view() == tokens.deep_view()[i]);
                assert(before[i + 1].deep_view() == t[i + 1]);
            }
        }
    }
    if set_v {
        match payload {
            Some(d) => handle_set(store, now, &tokens, d),
            None => bad_data_response(),
        }
    } else if get_v {
        handle_get(store, now, &tokens)
    } else {
        Vec::new()
    }
}

} // verus!
