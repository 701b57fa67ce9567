//! Character-level helpers on which the specification grammar and the
//! matching of module paths are written.

use vstd::prelude::*;
use vstd::std_specs::iter::IteratorSpec;

verus! {

/// Place of the first `c` in `s`, or `s.len()` where `s` holds none.
pub open spec fn first_index(s: Seq<char>, c: char) -> int
    decreases s.len(),
{
    if s.len() == 0 || s[0] == c {
        0
    } else {
        1 + first_index(s.drop_first(), c)
    }
}

/// `first_index` is in range, points at a `c` unless it is the length, and
/// nothing before it is a `c`.
pub proof fn lemma_first_index(s: Seq<char>, c: char)
    ensures
        0 <= first_index(s, c) <= s.len(),
        first_index(s, c) < s.len() ==> s[first_index(s, c)] == c,
        forall|j: int| 0 <= j < first_index(s, c) ==> s[j] != c,
        first_index(s, c) == s.len() <==> !s.contains(c),
    decreases s.len(),
{
    if s.len() == 0 || s[0] == c {
    } else {
        let t = s.drop_first();
        lemma_first_index(t, c);
        assert forall|j: int| 0 <= j < first_index(s, c) implies s[j] != c by {
            if j > 0 {
                assert(s[j] == t[j - 1]);
            }
        }
    }
}

/// The one place that has a `c` (or the end) with no `c` before it is
/// `first_index`.
pub proof fn lemma_first_index_unique(s: Seq<char>, c: char, k: int)
    requires
        0 <= k <= s.len(),
        k < s.len() ==> s[k] == c,
        forall|j: int| 0 <= j < k ==> s[j] != c,
    ensures
        first_index(s, c) == k,
{
    lemma_first_index(s, c);
}

/// Collects the characters of a string slice, in order.
pub fn chars_of(s: &str) -> (v: Vec<char>)
    ensures
        v@ == s@,
{
    let mut v: Vec<char> = Vec::new();
    for c in it: s.chars()
        invariant
            v@ == it.seq().take(it.index() as int),
            it.seq() == s@,
    {
        v.push(c);
    }
    v
}

/// Finds the first `c` among `chars[start..end]`; gives `end` where there is
/// none.
pub fn find(chars: &Vec<char>, start: usize, end: usize, c: char) -> (r: usize)
    requires
        start <= end <= chars.len(),
    ensures
        r == start + first_index(chars@.subrange(start as int, end as int), c),
        start <= r <= end,
{
    let mut i: usize = start;
    while i < end && chars[i] != c
        invariant
            start <= i <= end <= chars.len(),
            forall|j: int| start <= j < i ==> chars@[j] != c,
        decreases end - i,
    {
        i = i + 1;
    }
    proof {
        lemma_first_index_unique(chars@.subrange(start as int, end as int), c, i - start);
    }
    i
}

/// Whether `s` begins with `prefix`.
pub fn starts_with(s: &str, prefix: &str) -> (b: bool)
    ensures
        b == prefix@.is_prefix_of(s@),
{
    let mut rest = s.chars();
    let mut wanted = prefix.chars();
    let ghost mut i: int = 0;
    loop
        invariant
            0 <= i <= prefix@.len(),
            i <= s@.len(),
            rest.remaining() == s@.skip(i),
            wanted.remaining() == prefix@.skip(i),
            s@.take(i) == prefix@.take(i),
        decreases prefix@.len() - i,
    {
        let ghost rest_before = rest;
        let ghost wanted_before = wanted;
        match wanted.next() {
            None => {
                proof {
                    vstd::string::next_postcondition(&wanted_before, &wanted, None);
                }
                return true;
            },
            Some(want) => {
                proof {
                    vstd::string::next_postcondition(&wanted_before, &wanted, Some(want));
                }
                match rest.next() {
                    None => {
                        proof {
                            vstd::string::next_postcondition(&rest_before, &rest, None);
                        }
                        return false;
                    },
                    Some(got) => {
                        proof {
                            vstd::string::next_postcondition(&rest_before, &rest, Some(got));
                        }
                        if got != want {
                            return false;
                        }
                        proof {
                            i = i + 1;
                        }
                    },
                }
            },
        }
    }
}

/// The characters with the Unicode property `White_Space`.
pub open spec fn is_space(c: char) -> bool {
    let u = c as u32;
    ||| 0x09 <= u <= 0x0d
    ||| u == 0x20
    ||| u == 0x85
    ||| u == 0xa0
    ||| u == 0x1680
    ||| 0x2000 <= u <= 0x200a
    ||| u == 0x2028
    ||| u == 0x2029
    ||| u == 0x202f
    ||| u == 0x205f
    ||| u == 0x3000
}

/// Decides `is_space`.
pub fn is_whitespace(c: char) -> (b: bool)
    ensures
        b == is_space(c),
{
    let u: u32 = c as u32;
    (0x09 <= u && u <= 0x0d) || u == 0x20 || u == 0x85 || u == 0xa0 || u == 0x1680 || (0x2000 <= u
        && u <= 0x200a) || u == 0x2028 || u == 0x2029 || u == 0x202f || u == 0x205f || u == 0x3000
}

/// `s` without the white space at its start.
pub open spec fn trim_start(s: Seq<char>) -> Seq<char>
    decreases s.len(),
{
    if s.len() > 0 && is_space(s.first()) {
        trim_start(s.drop_first())
    } else {
        s
    }
}

/// `s` without the white space at its end.
pub open spec fn trim_end(s: Seq<char>) -> Seq<char>
    decreases s.len(),
{
    if s.len() > 0 && is_space(s.last()) {
        trim_end(s.drop_last())
    } else {
        s
    }
}

/// `s` without the white space at either end.
pub open spec fn trim(s: Seq<char>) -> Seq<char> {
    trim_end(trim_start(s))
}

/// Bounds of `chars[start..end]` once the white space at both ends is left
/// out.
pub fn trim_range(chars: &Vec<char>, start: usize, end: usize) -> (r: (usize, usize))
    requires
        start <= end <= chars.len(),
    ensures
        start <= r.0 <= r.1 <= end,
        chars@.subrange(r.0 as int, r.1 as int) == trim(chars@.subrange(start as int, end as int)),
        end - r.0 == trim_start(chars@.subrange(start as int, end as int)).len(),
{
    let mut from: usize = start;
    while from < end && is_whitespace(chars[from])
        invariant
            start <= from <= end <= chars.len(),
            trim_start(chars@.subrange(start as int, end as int)) == trim_start(
                chars@.subrange(from as int, end as int),
            ),
        decreases end - from,
    {
        proof {
            let cur = chars@.subrange(from as int, end as int);
            assert(cur.drop_first() == chars@.subrange(from + 1, end as int));
        }
        from = from + 1;
    }
    let mut to: usize = end;
    while from < to && is_whitespace(chars[to - 1])
        invariant
            start <= from <= to <= end <= chars.len(),
            trim_end(chars@.subrange(from as int, end as int)) == trim_end(
                chars@.subrange(from as int, to as int),
            ),
        decreases to - from,
    {
        proof {
            let cur = chars@.subrange(from as int, to as int);
            assert(cur.drop_last() == chars@.subrange(from as int, to - 1));
        }
        to = to - 1;
    }
    (from, to)
}

/// Whether `needle` occurs in `text` as a run of consecutive bytes.
pub open spec fn has_run(text: Seq<u8>, needle: Seq<u8>) -> bool {
    exists|i: int| occurs_at(text, needle, i)
}

/// Whether `needle` stands in `text` from place `i` on.
pub open spec fn occurs_at(text: Seq<u8>, needle: Seq<u8>, i: int) -> bool {
    0 <= i && i + needle.len() <= text.len() && text.subrange(i, i + needle.len()) == needle
}

/// Whether `text[at..]` begins with `needle`.
fn run_at(text: &[u8], needle: &[u8], at: usize) -> (b: bool)
    requires
        at + needle@.len() <= text@.len(),
    ensures
        b == occurs_at(text@, needle@, at as int),
{
    let n = needle.len();
    let m = text.len();
    let mut k: usize = 0;
    while k < n
        invariant
            n == needle@.len(),
            m == text@.len(),
            at + n <= m,
            k <= n,
            forall|j: int| 0 <= j < k ==> text@[at + j] == needle@[j],
        decreases n - k,
    {
        if text[at + k] != needle[k] {
            return false;
        }
        k = k + 1;
    }
    assert(text@.subrange(at as int, at + n) =~= needle@);
    true
}

/// Searches `text` for `needle`.
pub fn contains_run(text: &[u8], needle: &[u8]) -> (b: bool)
    ensures
        b == has_run(text@, needle@),
{
    let n = needle.len();
    let m = text.len();
    if n > m {
        return false;
    }
    let last: usize = m - n;
    let mut at: usize = 0;
    loop
        invariant
            n == needle@.len(),
            m == text@.len(),
            last == m - n,
            at <= last,
            forall|i: int| 0 <= i < at ==> !occurs_at(text@, needle@, i),
        decreases last - at,
    {
        if run_at(text, needle, at) {
            return true;
        }
        if at == last {
            return false;
        }
        at = at + 1;
    }
}

} // verus!
