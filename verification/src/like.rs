//! The SQL `LIKE` operator as the voice database evaluates it: `%` matches
//! any run of characters, `_` any one character, and letters compare
//! without regard to ASCII case. A missing (NULL) text matches nothing.
use vstd::prelude::*;

use crate::text::chars_of;

verus! {

/// The code of `c` with ASCII upper case folded to lower case.
pub open spec fn fold(c: char) -> u32 {
    if 'A' <= c <= 'Z' {
        ((c as u32) + 32) as u32
    } else {
        c as u32
    }
}

fn fold_char(c: char) -> (r: u32)
    ensures
        r == fold(c),
{
    if 'A' <= c && c <= 'Z' {
        (c as u32) + 32
    } else {
        c as u32
    }
}

/// Whether `t[i..]` matches the pattern `p[j..]`.
pub open spec fn like_at(t: Seq<char>, p: Seq<char>, i: int, j: int) -> bool
    decreases p.len() - j, t.len() - i,
{
    if j < 0 || i < 0 {
        false
    } else if j >= p.len() {
        i >= t.len()
    } else if p[j] == '%' {
        like_at(t, p, i, j + 1) || (i < t.len() && like_at(t, p, i + 1, j))
    } else if i >= t.len() {
        false
    } else if p[j] == '_' || fold(p[j]) == fold(t[i]) {
        like_at(t, p, i + 1, j + 1)
    } else {
        false
    }
}

/// `t LIKE p`.
pub open spec fn like(t: Seq<char>, p: Seq<char>) -> bool {
    like_at(t, p, 0, 0)
}

/// `t LIKE p` for a column that may be NULL.
pub open spec fn like_opt(t: Option<Seq<char>>, p: Seq<char>) -> bool {
    match t {
        Some(x) => like(x, p),
        None => false,
    }
}

/// Whether `text LIKE pattern`.
pub fn like_match(text: &str, pattern: &str) -> (r: bool)
    ensures
        r == like(text@, pattern@),
{
    let t = chars_of(text);
    let p = chars_of(pattern);
    like_chars(&t, &p)
}

/// Whether the optional `text LIKE pattern`.
pub fn like_match_opt(text: &Option<String>, pattern: &str) -> (r: bool)
    ensures
        r == like_opt(crate::text::opt_chars(*text), pattern@),
{
    match text {
        Some(t) => like_match(t.as_str(), pattern),
        None => false,
    }
}

/// Dynamic programming over the suffixes of the text and the pattern.
pub fn like_chars(t: &Vec<char>, p: &Vec<char>) -> (r: bool)
    ensures
        r == like(t@, p@),
{
    let n = t.len();
    let m = p.len();
    // next[k] == like_at(t, p, k, j) for k < n; next_end == like_at(t, p, n, j)
    let mut next: Vec<bool> = Vec::new();
    let mut i: usize = 0;
    while i < n
        invariant
            n == t@.len(),
            m == p@.len(),
            i <= n,
            next@.len() == i,
            forall|k: int| 0 <= k < i ==> next@[k] == like_at(t@, p@, k, m as int),
        decreases n - i,
    {
        next.push(false);
        i = i + 1;
    }
    let mut next_end = true;
    let mut j: usize = m;
    while j > 0
        invariant
            n == t@.len(),
            m == p@.len(),
            j <= m,
            next@.len() == n,
            forall|k: int| 0 <= k < n ==> next@[k] == like_at(t@, p@, k, j as int),
            next_end == like_at(t@, p@, n as int, j as int),
        decreases j,
    {
        let jj = j - 1;
        let pc = p[jj];
        let cur_end = if pc == '%' {
            next_end
        } else {
            false
        };
        let mut rev: Vec<bool> = Vec::new();
        let mut kk: usize = n;
        while kk > 0
            invariant
                n == t@.len(),
                m == p@.len(),
                jj < m,
                pc == p@[jj as int],
                kk <= n,
                next@.len() == n,
                forall|q: int| 0 <= q < n ==> next@[q] == like_at(t@, p@, q, jj + 1),
                next_end == like_at(t@, p@, n as int, jj + 1),
                cur_end == like_at(t@, p@, n as int, jj as int),
                rev@.len() == n - kk,
                forall|q: int|
                    0 <= q < rev@.len() ==> rev@[q] == like_at(t@, p@, n - 1 - q, jj as int),
            decreases kk,
        {
            let pos = kk - 1;
            let later = if pos + 1 == n {
                next_end
            } else {
                next[pos + 1]
            };
            let prev_cur = if rev.len() == 0 {
                cur_end
            } else {
                rev[rev.len() - 1]
            };
            let v = if pc == '%' {
                next[pos] || prev_cur
            } else if pc == '_' || fold_char(pc) == fold_char(t[pos]) {
                later
            } else {
                false
            };
            rev.push(v);
            kk = kk - 1;
        }
        let mut cur: Vec<bool> = Vec::new();
        let mut k: usize = 0;
        while k < n
            invariant
                n == t@.len(),
                rev@.len() == n,
                k <= n,
                cur@.len() == k,
                forall|q: int| 0 <= q < k ==> cur@[q] == rev@[n - 1 - q],
            decreases n - k,
        {
            cur.push(rev[n - 1 - k]);
            k = k + 1;
        }
        next = cur;
        next_end = cur_end;
        j = jj;
    }
    if n == 0 {
        next_end
    } else {
        next[0]
    }
}

} // verus!
