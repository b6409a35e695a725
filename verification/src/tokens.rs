//! The line decoder: a command line of bytes split on ASCII whitespace
//! into tokens, and recognition of the two protocol verbs.

use vstd::prelude::*;

verus! {

/// ASCII space character.
pub const SPACE: u8 = 0x20;

/// ASCII carriage return.
pub const CR: u8 = 0x0d;

/// ASCII line feed.
pub const LF: u8 = 0x0a;

/// `b` is ASCII whitespace: space, or one of the control characters
/// tab, line feed, vertical tab, form feed, carriage return.
pub open spec fn is_ws(b: u8) -> bool {
    b == SPACE || (0x09 <= b && b <= 0x0d)
}

/// Length of the leading run of non-whitespace bytes of `s`.
pub open spec fn token_end(s: Seq<u8>) -> int
    decreases s.len(),
{
    if s.len() == 0 || is_ws(s[0]) {
        0
    } else {
        1 + token_end(s.skip(1))
    }
}

pub proof fn lemma_token_end_bounds(s: Seq<u8>)
    ensures
        0 <= token_end(s) <= s.len(),
        s.len() > 0 && !is_ws(s[0]) ==> 1 <= token_end(s),
    decreases s.len(),
{
    if s.len() > 0 && !is_ws(s[0]) {
        lemma_token_end_bounds(s.skip(1));
    }
}

/// The whitespace-separated tokens of `s`, in order: the maximal runs of
/// non-whitespace bytes.
pub open spec fn tokens_of(s: Seq<u8>) -> Seq<Seq<u8>>
    decreases s.len(),
    via tokens_of_decreases
{
    if s.len() == 0 {
        Seq::empty()
    } else if is_ws(s[0]) {
        tokens_of(s.skip(1))
    } else {
        seq![s.take(token_end(s))] + tokens_of(s.skip(token_end(s)))
    }
}

#[via_fn]
proof fn tokens_of_decreases(s: Seq<u8>) {
    lemma_token_end_bounds(s);
}

/// Whether `b` is ASCII whitespace.
pub fn is_ws_byte(b: u8) -> (r: bool)
    ensures
        r == is_ws(b),
{
    b == SPACE || (0x09 <= b && b <= 0x0d)
}

/// Index just past the run of non-whitespace bytes of `s` starting at `i`.
fn scan_token_end(s: &Vec<u8>, i: usize) -> (r: usize)
    requires
        i <= s@.len(),
    ensures
        r == i + token_end(s@.skip(i as int)),
        i <= r <= s@.len(),
    decreases s@.len() - i,
{
    proof {
        lemma_token_end_bounds(s@.skip(i as int));
    }
    if i == s.len() {
        i
    } else if is_ws_byte(s[i]) {
        proof {
            assert(s@.skip(i as int)[0] == s@[i as int]);
        }
        i
    } else {
        proof {
            assert(s@.skip(i as int)[0] == s@[i as int]);
            assert(s@.skip(i as int).skip(1) =~= s@.skip(i + 1));
        }
        scan_token_end(s, i + 1)
    }
}

/// Copy of the bytes of `s` in `from..to`.
fn copy_range(s: &Vec<u8>, from: usize, to: usize) -> (r: Vec<u8>)
    requires
        from <= to <= s@.len(),
    ensures
        r@ == s@.subrange(from as int, to as int),
{
    let mut r: Vec<u8> = Vec::new();
    let mut j: usize = from;
    while j < to
        invariant
            from <= j <= to <= s@.len(),
            r@ == s@.subrange(from as int, j as int),
        decreases to - j,
    {
        let b = s[j];
        r.push(b);
        proof {
            assert(s@.subrange(from as int, j + 1) =~= s@.subrange(from as int, j as int).push(
                s@[j as int]));
        }
        j += 1;
    }
    r
}

fn tokenize_from(s: &Vec<u8>, i: usize) -> (r: Vec<Vec<u8>>)
    requires
        i <= s@.len(),
    ensures
        r.deep_view() == tokens_of(s@.skip(i as int)),
    decreases s@.len() - i,
{
    if i == s.len() {
        let r: Vec<Vec<u8>> = Vec::new();
        proof {
            assert(s@.skip(i as int) =~= Seq::<u8>::empty());
            assert(r.deep_view() =~= tokens_of(s@.skip(i as int)));
        }
        r
    } else if is_ws_byte(s[i]) {
        proof {
            assert(s@.skip(i as int)[0] == s@[i as int]);
            assert(s@.skip(i as int).skip(1) =~= s@.skip(i + 1));
        }
        tokenize_from(s, i + 1)
    } else {
        let e = scan_token_end(s, i);
        proof {
            assert(s@.skip(i as int)[0] == s@[i as int]);
            lemma_token_end_bounds(s@.skip(i as int));
        }
        let tok = copy_range(s, i, e);
        let mut rest = tokenize_from(s, e);
        let mut r: Vec<Vec<u8>> = Vec::new();
        r.push(tok);
        r.append(&mut rest);
        proof {
            let tail = s@.skip(i as int);
            assert(tail[0] == s@[i as int]);
            assert(!is_ws(tail[0]));
            assert(tokens_of(tail) == seq![tail.take(token_end(tail))] + tokens_of(tail.skip(
                token_end(tail))));
            assert(tail.take(token_end(tail)) =~= s@.subrange(i as int, e as int));
            assert(tail.skip(token_end(tail)) =~= s@.skip(e as int));
            assert(r.deep_view() =~~= tokens_of(tail));
        }
        r
    }
}

/// Split `line` into its whitespace-separated tokens, in order.
pub fn tokenize(line: &Vec<u8>) -> (r: Vec<Vec<u8>>)
    ensures
        r.deep_view() == tokens_of(line@),
{
    let r = tokenize_from(line, 0);
    proof {
        assert(line@.skip(0) =~= line@);
    }
    r
}

/// A word (nonempty, free of whitespace) followed by rest that is empty
/// or opens with whitespace scans as exactly that word.
pub proof fn lemma_token_end_of_word(w: Seq<u8>, r: Seq<u8>)
    requires
        w.len() > 0,
        forall|i: int| 0 <= i < w.len() ==> !is_ws(#[trigger] w[i]),
        r.len() == 0 || is_ws(r[0]),
    ensures
        token_end(w + r) == w.len(),
    decreases w.len(),
{
    let s = w + r;
    assert(s[0] == w[0]);
    if w.len() == 1 {
        assert(s.skip(1) =~= r);
        assert(token_end(r) == 0);
    } else {
        assert(s.skip(1) =~= w.skip(1) + r);
        assert(forall|i: int| 0 <= i < w.skip(1).len() ==> !is_ws(#[trigger] w.skip(1)[i])) by {
            assert(forall|i: int| 0 <= i < w.skip(1).len() ==> w.skip(1)[i] == w[i + 1]);
        }
        lemma_token_end_of_word(w.skip(1), r);
    }
}

/// Tokenizing a word followed by such a rest yields the word and then
/// the rest's tokens.
pub proof fn lemma_tokens_of_word(w: Seq<u8>, r: Seq<u8>)
    requires
        w.len() > 0,
        forall|i: int| 0 <= i < w.len() ==> !is_ws(#[trigger] w[i]),
        r.len() == 0 || is_ws(r[0]),
    ensures
        tokens_of(w + r) == seq![w] + tokens_of(r),
{
    lemma_token_end_of_word(w, r);
    let s = w + r;
    assert(s[0] == w[0]);
    assert(!is_ws(s[0]));
    assert(s.take(token_end(s)) =~= w);
    assert(s.skip(token_end(s)) =~= r);
}

/// A leading space contributes no token.
pub proof fn lemma_tokens_of_space(r: Seq<u8>)
    ensures
        tokens_of(seq![SPACE] + r) == tokens_of(r),
{
    let s = seq![SPACE] + r;
    assert(is_ws(s[0]));
    assert(s.skip(1) =~= r);
}

/// A raw line with its terminator removed: one trailing LF goes, and the
/// CR before it where the line ended in CRLF.  A line that did not end in
/// LF (the stream ended first) is kept whole.
pub open spec fn strip_eol_spec(s: Seq<u8>) -> Seq<u8> {
    if s.len() > 0 && s.last() == LF {
        if s.len() > 1 && s[s.len() - 2] == CR {
            s.drop_last().drop_last()
        } else {
            s.drop_last()
        }
    } else {
        s
    }
}

/// Remove the line terminator from a raw line: either CRLF or a bare LF
/// is tolerated and stripped; anything else is left untouched.
pub fn strip_eol(line: &mut Vec<u8>)
    ensures
        final(line)@ == strip_eol_spec(old(line)@),
{
    let n = line.len();
    if n > 0 && line[n - 1] == LF {
        line.pop();
        proof {
            assert(line@ =~= old(line)@.drop_last());
        }
        let m = line.len();
        if m > 0 && line[m - 1] == CR {
            line.pop();
            proof {
                assert(line@ =~= old(line)@.drop_last().drop_last());
            }
        }
    }
}

/// `t` is the write verb: exactly `set` or `SET`.
pub open spec fn set_verb(t: Seq<u8>) -> bool {
    t == seq![0x73u8, 0x65u8, 0x74u8] || t == seq![0x53u8, 0x45u8, 0x54u8]
}

/// `t` is the read verb: exactly `get` or `GET`.
pub open spec fn get_verb(t: Seq<u8>) -> bool {
    t == seq![0x67u8, 0x65u8, 0x74u8] || t == seq![0x47u8, 0x45u8, 0x54u8]
}

/// Whether `t` is the write verb `set` or `SET`.
pub fn is_set_verb(t: &Vec<u8>) -> (r: bool)
    ensures
        r == set_verb(t@),
{
    if t.len() != 3 {
        proof {
            assert(seq![0x73u8, 0x65u8, 0x74u8].len() == 3);
            assert(seq![0x53u8, 0x45u8, 0x54u8].len() == 3);
        }
        return false;
    }
    let r = (t[0] == 0x73 && t[1] == 0x65 && t[2] == 0x74) || (t[0] == 0x53 && t[1] == 0x45 && t[2]
        == 0x54);
    proof {
        if r {
            if t@[0] == 0x73 {
                assert(t@ =~= seq![0x73u8, 0x65u8, 0x74u8]);
            } else {
                assert(t@ =~= seq![0x53u8, 0x45u8, 0x54u8]);
            }
        } else {
            assert(t@ != seq![0x73u8, 0x65u8, 0x74u8]) by {
                if t@ == seq![0x73u8, 0x65u8, 0x74u8] {
                    assert(t@[0] == 0x73 && t@[1] == 0x65 && t@[2] == 0x74);
                }
            }
            assert(t@ != seq![0x53u8, 0x45u8, 0x54u8]) by {
                if t@ == seq![0x53u8, 0x45u8, 0x54u8] {
                    assert(t@[0] == 0x53 && t@[1] == 0x45 && t@[2] == 0x54);
                }
            }
        }
    }
    r
}

/// Whether `t` is the read verb `get` or `GET`.
pub fn is_get_verb(t: &Vec<u8>) -> (r: bool)
    ensures
        r == get_verb(t@),
{
    if t.len() != 3 {
        proof {
            assert(seq![0x67u8, 0x65u8, 0x74u8].len() == 3);
            assert(seq![0x47u8, 0x45u8, 0x54u8].len() == 3);
        }
        return false;
    }
    let r = (t[0] == 0x67 && t[1] == 0x65 && t[2] == 0x74) || (t[0] == 0x47 && t[1] == 0x45 && t[2]
        == 0x54);
    proof {
        if r {
            if t@[0] == 0x67 {
                assert(t@ =~= seq![0x67u8, 0x65u8, 0x74u8]);
            } else {
                assert(t@ =~= seq![0x47u8, 0x45u8, 0x54u8]);
            }
        } else {
            assert(t@ != seq![0x67u8, 0x65u8, 0x74u8]) by {
                if t@ == seq![0x67u8, 0x65u8, 0x74u8] {
                    assert(t@[0] == 0x67 && t@[1] == 0x65 && t@[2] == 0x74);
                }
            }
            assert(t@ != seq![0x47u8, 0x45u8, 0x54u8]) by {
                if t@ == seq![0x47u8, 0x45u8, 0x54u8] {
                    assert(t@[0] == 0x47 && t@[1] == 0x45 && t@[2] == 0x54);
                }
            }
        }
    }
    r
}

} // verus!
