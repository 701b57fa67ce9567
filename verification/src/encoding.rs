//! Runs of characters and runs of bytes: a text holds another as a run of
//! characters exactly where its UTF-8 bytes hold the bytes of the other.

use crate::text::{contains_run, has_run, occurs_at};
use vstd::prelude::*;
use vstd::utf8::{
    char_u32_cast, decode_first_scalar, encode_scalar, encode_utf8, encode_utf8_first_scalar,
    length_of_first_scalar,
};

verus! {

/// Whether `needle` stands in `text` from character `i` on.
pub open spec fn stands_at(text: Seq<char>, needle: Seq<char>, i: int) -> bool {
    0 <= i && i + needle.len() <= text.len() && text.subrange(i, i + needle.len()) == needle
}

/// Whether `needle` occurs in `text` as a run of consecutive characters.
pub open spec fn has_chars(text: Seq<char>, needle: Seq<char>) -> bool {
    exists|i: int| stands_at(text, needle, i)
}

/// The bytes of two texts, one after the other, are the bytes of the
/// texts joined.
pub proof fn lemma_encode_joined(a: Seq<char>, b: Seq<char>)
    ensures
        encode_utf8(a + b) == encode_utf8(a) + encode_utf8(b),
    decreases a.len(),
{
    if a.len() == 0 {
        assert(a + b == b);
    } else {
        assert((a + b).drop_first() == a.drop_first() + b);
        lemma_encode_joined(a.drop_first(), b);
    }
}

/// The bytes of a text begin with the bytes of its first character, which
/// is one byte that is no continuation byte and up to three that are.
proof fn lemma_first_char(t: Seq<char>)
    requires
        t.len() > 0,
    ensures
        encode_utf8(t) == encode_scalar(t[0] as u32) + encode_utf8(t.drop_first()),
        1 <= encode_scalar(t[0] as u32).len() <= 4,
        length_of_first_scalar(encode_utf8(t)) == encode_scalar(t[0] as u32).len(),
        decode_first_scalar(encode_utf8(t)) == t[0] as u32,
        !(0x80 <= encode_utf8(t)[0] <= 0xbf),
        forall|j: int|
            1 <= j < encode_scalar(t[0] as u32).len() ==> 0x80 <= #[trigger] encode_utf8(t)[j]
                <= 0xbf,
{
    encode_utf8_first_scalar(t);
}

/// Where the bytes of `n` begin the bytes of `t`, the first characters are
/// the same and the bytes of the rest of `n` begin the bytes of the rest of
/// `t`.
proof fn lemma_same_first_char(t: Seq<char>, n: Seq<char>)
    requires
        n.len() > 0,
        occurs_at(encode_utf8(t), encode_utf8(n), 0),
    ensures
        t.len() > 0,
        t[0] == n[0],
        occurs_at(encode_utf8(t.drop_first()), encode_utf8(n.drop_first()), 0),
{
    let bytes_t = encode_utf8(t);
    let bytes_n = encode_utf8(n);
    lemma_first_char(n);
    assert(bytes_n.len() > 0);
    assert(t.len() > 0);
    lemma_first_char(t);
    let w = encode_scalar(n[0] as u32).len() as int;
    assert forall|j: int| 0 <= j < bytes_n.len() implies bytes_t[j] == bytes_n[j] by {
        assert(bytes_t.subrange(0, bytes_n.len() as int)[j] == bytes_n[j]);
    }
    assert(bytes_t[0] == bytes_n[0]);
    assert(length_of_first_scalar(bytes_t) == length_of_first_scalar(bytes_n));
    assert(w <= bytes_n.len());
    if w >= 2 {
        assert(bytes_t[1] == bytes_n[1]);
    }
    if w >= 3 {
        assert(bytes_t[2] == bytes_n[2]);
    }
    if w >= 4 {
        assert(bytes_t[3] == bytes_n[3]);
    }
    assert(decode_first_scalar(bytes_t) == decode_first_scalar(bytes_n));
    char_u32_cast(t[0], t[0] as u32);
    char_u32_cast(n[0], n[0] as u32);
    let rest_t = encode_utf8(t.drop_first());
    let rest_n = encode_utf8(n.drop_first());
    assert(rest_t == bytes_t.skip(w));
    assert(rest_n == bytes_n.skip(w));
    assert(rest_t.subrange(0, rest_n.len() as int) =~= rest_n) by {
        assert forall|j: int| 0 <= j < rest_n.len() implies rest_t[j] == rest_n[j] by {
            assert(rest_t[j] == bytes_t[j + w]);
            assert(rest_n[j] == bytes_n[j + w]);
        }
    }
}

/// Where the bytes of `n` begin the bytes of `t`, `n` begins `t`.
proof fn lemma_prefix_of_bytes(t: Seq<char>, n: Seq<char>)
    requires
        occurs_at(encode_utf8(t), encode_utf8(n), 0),
    ensures
        stands_at(t, n, 0),
    decreases n.len(),
{
    if n.len() == 0 {
        assert(t.subrange(0, 0) == n);
    } else {
        lemma_same_first_char(t, n);
        lemma_prefix_of_bytes(t.drop_first(), n.drop_first());
        let rest = t.drop_first();
        assert(t.subrange(0, n.len() as int) =~= n) by {
            assert forall|j: int| 0 <= j < n.len() implies t[j] == n[j] by {
                if j > 0 {
                    assert(rest.subrange(0, n.len() - 1)[j - 1] == n.drop_first()[j - 1]);
                }
            }
        }
    }
}

/// Where the bytes of `n` stand in the bytes of `t` from byte `k` on, `n`
/// occurs in `t`.
proof fn lemma_run_of_bytes(t: Seq<char>, n: Seq<char>, k: int)
    requires
        occurs_at(encode_utf8(t), encode_utf8(n), k),
    ensures
        has_chars(t, n),
    decreases t.len(),
{
    let bytes_t = encode_utf8(t);
    let bytes_n = encode_utf8(n);
    if n.len() == 0 {
        assert(t.subrange(0, 0) == n);
        assert(stands_at(t, n, 0));
    } else if k == 0 {
        lemma_prefix_of_bytes(t, n);
    } else {
        lemma_first_char(n);
        assert(t.len() > 0);
        lemma_first_char(t);
        let w = encode_scalar(t[0] as u32).len() as int;
        assert(bytes_t[k] == bytes_n[0]) by {
            assert(bytes_t.subrange(k, k + bytes_n.len())[0] == bytes_n[0]);
        }
        assert(k >= w);
        let rest = t.drop_first();
        let bytes_rest = encode_utf8(rest);
        assert(bytes_rest == bytes_t.skip(w));
        assert(bytes_rest.subrange(k - w, k - w + bytes_n.len()) =~= bytes_t.subrange(
            k,
            k + bytes_n.len(),
        ));
        lemma_run_of_bytes(rest, n, k - w);
        let i = choose|i: int| stands_at(rest, n, i);
        assert(t.subrange(i + 1, i + 1 + n.len()) =~= rest.subrange(i, i + n.len()));
        assert(stands_at(t, n, i + 1));
    }
}

/// A text holds another as a run of characters exactly where its bytes
/// hold the bytes of the other as a run.
pub proof fn lemma_runs_agree(text: Seq<char>, needle: Seq<char>)
    ensures
        has_run(encode_utf8(text), encode_utf8(needle)) == has_chars(text, needle),
{
    if has_run(encode_utf8(text), encode_utf8(needle)) {
        let k = choose|k: int| occurs_at(encode_utf8(text), encode_utf8(needle), k);
        lemma_run_of_bytes(text, needle, k);
    }
    if has_chars(text, needle) {
        let i = choose|i: int| stands_at(text, needle, i);
        let before = text.take(i);
        let after = text.skip(i + needle.len());
        assert(text == before + needle + after);
        lemma_encode_joined(before + needle, after);
        lemma_encode_joined(before, needle);
        let at = encode_utf8(before).len() as int;
        assert(encode_utf8(text).subrange(at, at + encode_utf8(needle).len()) =~= encode_utf8(
            needle,
        ));
        assert(occurs_at(encode_utf8(text), encode_utf8(needle), at));
    }
}

/// Whether `needle` occurs in `text`. The search goes over the bytes of
/// both.
pub fn contains(text: &str, needle: &str) -> (b: bool)
    ensures
        b == has_chars(text@, needle@),
{
    proof {
        lemma_runs_agree(text@, needle@);
    }
    contains_run(text.as_bytes(), needle.as_bytes())
}

} // verus!
