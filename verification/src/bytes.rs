//! Byte-offset views of text: slicing a `str` at UTF-8 byte offsets,
//! substring search over bytes, and line counting.
use vstd::prelude::*;
use vstd::string::StringSliceAdditionalSpecFns;
use vstd::utf8::*;

use crate::text::chars_of;

verus! {

broadcast use {
    vstd::utf8::encode_utf8_decode_utf8,
    vstd::utf8::encode_utf8_valid_utf8,
    vstd::utf8::is_char_boundary_start_end_of_seq,
};

/// The UTF-8 bytes of a text.
pub open spec fn utf8(s: Seq<char>) -> Seq<u8> {
    encode_utf8(s)
}

/// The text of bytes `a..b` of `s`.
pub open spec fn byte_slice(s: Seq<char>, a: int, b: int) -> Seq<char> {
    decode_utf8(utf8(s).subrange(a, b))
}

/// Whether `a..b` is a range of `s` that starts and ends between characters.
pub open spec fn slice_ok(s: Seq<char>, a: int, b: int) -> bool {
    &&& 0 <= a <= b <= utf8(s).len()
    &&& is_char_boundary(utf8(s), a)
    &&& is_char_boundary(utf8(s), b)
}

proof fn lemma_boundary_in_prefix(bytes: Seq<u8>, a: int, b: int)
    requires
        valid_utf8(bytes),
        0 <= a <= b <= bytes.len(),
        is_char_boundary(bytes, a),
        is_char_boundary(bytes, b),
    ensures
        valid_utf8(bytes.subrange(0, b)),
        is_char_boundary(bytes.subrange(0, b), a),
{
    valid_utf8_split(bytes, b);
    let pre = bytes.subrange(0, b);
    if a < b {
        is_char_boundary_iff_not_is_continuation_byte(bytes, a);
        is_char_boundary_iff_not_is_continuation_byte(pre, a);
    } else {
        is_char_boundary_start_end_of_seq(pre);
    }
}

/// Bytes `a..b` of `s` as text (`&s[a..b]`).
pub fn slice_str(s: &str, a: usize, b: usize) -> (r: &str)
    requires
        slice_ok(s@, a as int, b as int),
    ensures
        r@ == byte_slice(s@, a as int, b as int),
{
    proof {
        lemma_boundary_in_prefix(s.spec_bytes(), a as int, b as int);
    }
    let (head, _tail) = s.split_at(b);
    let (_pre, mid) = head.split_at(a);
    proof {
        assert(mid.spec_bytes() =~= utf8(s@).subrange(a as int, b as int));
        assert(mid@ == decode_utf8(encode_utf8(mid@)));
    }
    mid
}

/// Whether byte offset `i` falls between characters of `s`.
pub fn boundary_at(s: &str, i: usize) -> (r: bool)
    ensures
        r == is_char_boundary(utf8(s@), i as int),
{
    s.is_char_boundary(i)
}

/// The number of line feeds in `s`.
pub open spec fn count_nl(s: Seq<char>) -> nat
    decreases s.len(),
{
    if s.len() == 0 {
        0
    } else {
        count_nl(s.drop_last()) + if s.last() == '\n' {
            1nat
        } else {
            0nat
        }
    }
}

pub proof fn lemma_count_nl_le(s: Seq<char>)
    ensures
        count_nl(s) <= s.len(),
    decreases s.len(),
{
    if s.len() > 0 {
        lemma_count_nl_le(s.drop_last());
    }
}

/// The number of line feeds in `s`.
pub fn count_newlines(s: &str) -> (n: usize)
    ensures
        n == count_nl(s@),
{
    let cs = chars_of(s);
    let mut n: usize = 0;
    let mut i: usize = 0;
    while i < cs.len()
        invariant
            cs@ == s@,
            i <= cs@.len(),
            n == count_nl(s@.take(i as int)),
        decreases cs@.len() - i,
    {
        proof {
            crate::seqs::lemma_take_succ(s@, i as int);
            lemma_count_nl_le(s@.take(i as int));
        }
        if cs[i] == '\n' {
            n = n + 1;
        }
        i = i + 1;
    }
    proof {
        crate::seqs::lemma_take_all(s@);
    }
    n
}

/// `s` with each line feed replaced by a space.
pub open spec fn flatten_lines(s: Seq<char>) -> Seq<char> {
    s.map_values(|c: char| if c == '\n' { ' ' } else { c })
}

/// `s` with each line feed replaced by a space.
pub fn replace_newlines(s: &str) -> (r: String)
    ensures
        r@ == flatten_lines(s@),
{
    let cs = chars_of(s);
    let mut r = String::new();
    let mut i: usize = 0;
    while i < cs.len()
        invariant
            cs@ == s@,
            i <= cs@.len(),
            r@ == flatten_lines(s@.take(i as int)),
        decreases cs@.len() - i,
    {
        if cs[i] == '\n' {
            crate::text::push_char(&mut r, ' ');
        } else {
            crate::text::push_char(&mut r, cs[i]);
        }
        proof {
            assert(r@ =~= flatten_lines(s@.take(i + 1)));
        }
        i = i + 1;
    }
    proof {
        crate::seqs::lemma_take_all(s@);
    }
    r
}

/// Whether `n` occurs in `h` at byte offset `i`.
pub open spec fn occurs_at(h: Seq<u8>, n: Seq<u8>, i: int) -> bool {
    0 <= i && i + n.len() <= h.len() && h.subrange(i, i + n.len()) == n
}

/// The first offset at or after `i` where `n` occurs in `h` (what
/// `str::find` returns when `i` is 0).
pub open spec fn find_from(h: Seq<u8>, n: Seq<u8>, i: int) -> Option<int>
    decreases h.len() + 1 - i,
{
    if i < 0 || i > h.len() {
        None
    } else if occurs_at(h, n, i) {
        Some(i)
    } else {
        find_from(h, n, i + 1)
    }
}

/// A found offset is an occurrence at or after the start.
pub proof fn lemma_find_from_found(h: Seq<u8>, n: Seq<u8>, i: int)
    requires
        find_from(h, n, i) is Some,
    ensures
        i <= find_from(h, n, i)->0,
        occurs_at(h, n, find_from(h, n, i)->0),
    decreases h.len() + 1 - i,
{
    if 0 <= i <= h.len() && !occurs_at(h, n, i) {
        lemma_find_from_found(h, n, i + 1);
    }
}

/// The first occurrence found from the start is an occurrence.
pub proof fn lemma_find_from_found_at(h: Seq<u8>, n: Seq<u8>)
    requires
        find_from(h, n, 0) is Some,
    ensures
        0 <= find_from(h, n, 0)->0,
        find_from(h, n, 0)->0 + n.len() <= h.len(),
{
    lemma_find_from_found(h, n, 0);
}

/// The non-overlapping occurrences of `n` in `h` from offset `from`, left
/// to right, each search resuming after the previous occurrence; for an
/// empty `n`, every character boundary (what `str::match_indices` yields).
pub open spec fn match_starts(h: Seq<u8>, n: Seq<u8>, from: int) -> Seq<int>
    decreases h.len() + 1 - from,
{
    if from < 0 || from > h.len() {
        seq![]
    } else if n.len() == 0 {
        if is_char_boundary(h, from) {
            seq![from] + match_starts(h, n, from + 1)
        } else {
            match_starts(h, n, from + 1)
        }
    } else if occurs_at(h, n, from) {
        seq![from] + match_starts(h, n, from + n.len())
    } else {
        match_starts(h, n, from + 1)
    }
}

fn occurs_at_exec(h: &[u8], n: &[u8], i: usize) -> (r: bool)
    requires
        i <= h@.len(),
    ensures
        r == occurs_at(h@, n@, i as int),
{
    let hl = h.len();
    if n.len() > hl - i {
        return false;
    }
    let mut k: usize = 0;
    while k < n.len()
        invariant
            hl == h@.len(),
            i + n@.len() <= hl,
            k <= n@.len(),
            forall|q: int| 0 <= q < k ==> h@[i + q] == n@[q],
        decreases n@.len() - k,
    {
        if h[i + k] != n[k] {
            proof {
                assert(h@.subrange(i as int, i + n@.len())[k as int] != n@[k as int]);
            }
            return false;
        }
        k = k + 1;
    }
    assert(h@.subrange(i as int, i + n@.len()) =~= n@);
    true
}

/// The first byte offset at which `n` occurs in `h`.
pub fn find_bytes(h: &[u8], n: &[u8]) -> (r: Option<usize>)
    ensures
        match r {
            Some(i) => find_from(h@, n@, 0) == Some(i as int),
            None => find_from(h@, n@, 0) is None,
        },
{
    let mut i: usize = 0;
    while i <= h.len()
        invariant
            i <= h@.len() + 1,
            find_from(h@, n@, 0) == find_from(h@, n@, i as int),
        decreases h@.len() + 1 - i,
    {
        if occurs_at_exec(h, n, i) {
            return Some(i);
        }
        if i == h.len() {
            proof {
                assert(find_from(h@, n@, i + 1) is None);
            }
            return None;
        }
        i = i + 1;
    }
    None
}

/// The offsets `match_starts(h, n, 0)`.
pub fn match_indices(h_str: &str, n: &[u8]) -> (r: Vec<usize>)
    ensures
        r@.map_values(|x: usize| x as int) == match_starts(utf8(h_str@), n@, 0),
{
    let h = h_str.as_bytes();
    let hl = h.len();
    let mut out: Vec<usize> = Vec::new();
    let mut i: usize = 0;
    proof {
        assert(out@.map_values(|x: usize| x as int) =~= seq![]);
    }
    loop
        invariant_except_break
            i <= h@.len(),
            match_starts(h@, n@, 0) == out@.map_values(|x: usize| x as int) + match_starts(
                h@,
                n@,
                i as int,
            ),
        invariant
            h@ == utf8(h_str@),
            hl == h@.len(),
        ensures
            out@.map_values(|x: usize| x as int) == match_starts(h@, n@, 0),
        decreases h@.len() + 1 - i,
    {
        let ghost before = out@;
        if n.len() == 0 {
            if i == hl {
                proof {
                    assert(match_starts(h@, n@, i + 1) == Seq::<int>::empty());
                }
                if h_str.is_char_boundary(i) {
                    out.push(i);
                }
                proof {
                    assert(out@.map_values(|x: usize| x as int) =~= before.map_values(
                        |x: usize| x as int,
                    ) + match_starts(h@, n@, i as int));
                    assert(match_starts(h@, n@, 0) =~= out@.map_values(|x: usize| x as int));
                }
                break;
            }
            if h_str.is_char_boundary(i) {
                out.push(i);
                proof {
                    assert(out@.map_values(|x: usize| x as int) =~= before.map_values(
                        |x: usize| x as int,
                    ).push(i as int));
                }
            }
            i = i + 1;
        } else if occurs_at_exec(h, n, i) {
            out.push(i);
            proof {
                assert(out@.map_values(|x: usize| x as int) =~= before.map_values(
                    |x: usize| x as int,
                ).push(i as int));
            }
            i = i + n.len();
        } else {
            if i == hl {
                proof {
                    assert(match_starts(h@, n@, i + 1) == Seq::<int>::empty());
                    assert(match_starts(h@, n@, 0) =~= out@.map_values(|x: usize| x as int));
                }
                break;
            }
            i = i + 1;
        }
    }
    out
}

} // verus!
