//! Character-level helpers over `str`/`String`: white space, words,
//! decimal rendering, previews and byte-prefix truncation.
use vstd::prelude::*;
use vstd::string::StringExecFns;
use vstd::string::StringSliceAdditionalSpecFns;
use vstd::string::StrSliceExecFns;
use vstd::utf8::*;

verus! {

broadcast use vstd::utf8::encode_utf8_decode_utf8;

/// `String::push`: appends one character.
#[verifier::external_body]
pub(crate) fn push_char(s: &mut String, c: char)
    ensures
        final(s)@ == old(s)@.push(c),
{
    s.push(c);
}

/// Appends `t` to `s`.
pub fn push_str(s: &mut String, t: &str)
    ensures
        final(s)@ == old(s)@ + t@,
{
    s.append(t);
}

/// A fresh `String` holding `t`.
pub fn owned(t: &str) -> (r: String)
    ensures
        r@ == t@,
{
    String::from_str(t)
}

/// A copy of an optional string.
pub fn owned_opt(t: Option<&str>) -> (r: Option<String>)
    ensures
        opt_chars(r) == opt_str_chars(t),
{
    match t {
        Some(x) => Some(String::from_str(x)),
        None => None,
    }
}

/// The characters of an optional `String`.
pub open spec fn opt_chars(o: Option<String>) -> Option<Seq<char>> {
    match o {
        Some(s) => Some(s@),
        None => None,
    }
}

/// The characters of an optional `&str`.
pub open spec fn opt_str_chars(o: Option<&str>) -> Option<Seq<char>> {
    match o {
        Some(s) => Some(s@),
        None => None,
    }
}

/// A copy of an optional `String`.
pub fn clone_opt(o: &Option<String>) -> (r: Option<String>)
    ensures
        opt_chars(r) == opt_chars(*o),
{
    match o {
        Some(s) => Some(s.clone()),
        None => None,
    }
}

/// The characters of `s`, in order.
pub fn chars_of(s: &str) -> (r: Vec<char>)
    ensures
        r@ == s@,
{
    let mut r: Vec<char> = Vec::new();
    for c in it: s.chars()
        invariant
            r@ == it.seq().take(it.index() as int),
    {
        r.push(c);
    }
    r
}

/// A `String` made of the characters `cs[from..to]`.
pub fn string_of(cs: &Vec<char>, from: usize, to: usize) -> (r: String)
    requires
        from <= to <= cs@.len(),
    ensures
        r@ == cs@.subrange(from as int, to as int),
{
    let mut r = String::new();
    let mut i = from;
    while i < to
        invariant
            from <= i <= to <= cs@.len(),
            r@ == cs@.subrange(from as int, i as int),
        decreases to - i,
    {
        push_char(&mut r, cs[i]);
        i = i + 1;
    }
    r
}

/// Whether two character sequences are equal.
pub fn chars_eq(a: &Vec<char>, b: &Vec<char>) -> (r: bool)
    ensures
        r == (a@ == b@),
{
    if a.len() != b.len() {
        return false;
    }
    let mut i: usize = 0;
    while i < a.len()
        invariant
            a@.len() == b@.len(),
            i <= a@.len(),
            forall|j: int| 0 <= j < i ==> a@[j] == b@[j],
        decreases a@.len() - i,
    {
        if a[i] != b[i] {
            return false;
        }
        i = i + 1;
    }
    assert(a@ =~= b@);
    true
}

/// Whether two strings are equal.
pub fn str_eq(a: &str, b: &str) -> (r: bool)
    ensures
        r == (a@ == b@),
{
    let ca = chars_of(a);
    let cb = chars_of(b);
    chars_eq(&ca, &cb)
}

/// The Unicode `White_Space` property, which `char::is_whitespace` tests.
pub open spec fn is_white_space(c: char) -> bool {
    let u = c as u32;
    ||| 0x9 <= u <= 0xD
    ||| u == 0x20
    ||| u == 0x85
    ||| u == 0xA0
    ||| u == 0x1680
    ||| 0x2000 <= u <= 0x200A
    ||| u == 0x2028
    ||| u == 0x2029
    ||| u == 0x202F
    ||| u == 0x205F
    ||| u == 0x3000
}

/// Whether `c` is white space.
pub fn is_white_space_char(c: char) -> (r: bool)
    ensures
        r == is_white_space(c),
{
    let u = c as u32;
    (0x9 <= u && u <= 0xD) || u == 0x20 || u == 0x85 || u == 0xA0 || u == 0x1680 || (0x2000 <= u
        && u <= 0x200A) || u == 0x2028 || u == 0x2029 || u == 0x202F || u == 0x205F || u == 0x3000
}

// ---------- words (split_whitespace) ----------
/// The words of `s`: its maximal runs of non-white-space characters, in
/// order. The state after reading `i` characters is the finished words and
/// the word being read.
pub open spec fn words_state(s: Seq<char>, i: nat) -> (Seq<Seq<char>>, Seq<char>)
    decreases i,
{
    if i == 0 {
        (seq![], seq![])
    } else {
        let (done, cur) = words_state(s, (i - 1) as nat);
        let c = s[i - 1];
        if is_white_space(c) {
            if cur.len() > 0 {
                (done.push(cur), seq![])
            } else {
                (done, cur)
            }
        } else {
            (done, cur.push(c))
        }
    }
}

/// What `str::split_whitespace` yields.
pub open spec fn words(s: Seq<char>) -> Seq<Seq<char>> {
    let (done, cur) = words_state(s, s.len());
    if cur.len() > 0 {
        done.push(cur)
    } else {
        done
    }
}

/// The words of `s`.
pub fn split_words(s: &str) -> (r: Vec<String>)
    ensures
        r@.len() == words(s@).len(),
        forall|k: int| 0 <= k < r@.len() ==> #[trigger] r@[k]@ == words(s@)[k],
{
    let cs = chars_of(s);
    let mut done: Vec<String> = Vec::new();
    let mut cur = String::new();
    let mut i: usize = 0;
    while i < cs.len()
        invariant
            cs@ == s@,
            i <= cs@.len(),
            done@.len() == words_state(s@, i as nat).0.len(),
            forall|k: int|
                0 <= k < done@.len() ==> #[trigger] done@[k]@ == words_state(s@, i as nat).0[k],
            cur@ == words_state(s@, i as nat).1,
        decreases cs@.len() - i,
    {
        let c = cs[i];
        if is_white_space_char(c) {
            if cur.unicode_len() > 0 {
                let w = cur;
                done.push(w);
                cur = String::new();
            }
        } else {
            push_char(&mut cur, c);
        }
        i = i + 1;
    }
    if cur.unicode_len() > 0 {
        done.push(cur);
    }
    done
}

/// Sequences joined with a separator between consecutive items.
pub open spec fn join(items: Seq<Seq<char>>, sep: Seq<char>) -> Seq<char>
    decreases items.len(),
{
    if items.len() == 0 {
        seq![]
    } else if items.len() == 1 {
        items[0]
    } else {
        join(items.drop_last(), sep) + sep + items.last()
    }
}

/// Joins `items` with `sep`.
pub fn join_strings(items: &Vec<String>, sep: &str) -> (r: String)
    ensures
        r@ == join(items@.map_values(|x: String| x@), sep@),
{
    let ghost views = items@.map_values(|x: String| x@);
    let mut r = String::new();
    let mut i: usize = 0;
    while i < items.len()
        invariant
            i <= items@.len(),
            views == items@.map_values(|x: String| x@),
            r@ == join(views.take(i as int), sep@),
        decreases items@.len() - i,
    {
        if i > 0 {
            r.append(sep);
        }
        r.append(items[i].as_str());
        proof {
            assert(views.take(i + 1).drop_last() =~= views.take(i as int));
        }
        i = i + 1;
    }
    assert(views.take(items@.len() as int) =~= views);
    r
}

/// White space collapsed: the words of `s` joined by single spaces.
pub open spec fn collapse_spaces(s: Seq<char>) -> Seq<char> {
    join(words(s), seq![' '])
}

/// Short single-line preview: white space collapsed, cut to `n` characters
/// with an ellipsis when longer.
pub open spec fn preview_spec(s: Seq<char>, n: nat) -> Seq<char> {
    let c = collapse_spaces(s);
    if c.len() <= n {
        c
    } else {
        c.take(n as int).push('\u{2026}')
    }
}

/// A one-line preview of `s` of at most `n` characters plus an ellipsis.
pub fn preview(s: &str, n: usize) -> (r: String)
    ensures
        r@ == preview_spec(s@, n as nat),
{
    let ws = split_words(s);
    proof {
        assert(ws@.map_values(|x: String| x@) =~= words(s@));
    }
    let collapsed = join_strings(&ws, " ");
    proof {
        reveal_strlit(" ");
        assert(" "@ =~= seq![' ']);
    }
    let cs = chars_of(collapsed.as_str());
    if cs.len() <= n {
        collapsed
    } else {
        let mut cut = string_of(&cs, 0, n);
        push_char(&mut cut, '\u{2026}');
        cut
    }
}

// ---------- str::trim ----------
/// Index of the first non-white-space character at or after `i`.
pub open spec fn first_non_ws(s: Seq<char>, i: int) -> int
    decreases s.len() - i,
{
    if i >= s.len() || !is_white_space(s[i]) {
        i
    } else {
        first_non_ws(s, i + 1)
    }
}

/// One past the last non-white-space character before `j`.
pub open spec fn last_non_ws(s: Seq<char>, j: int) -> int
    decreases j,
{
    if j <= 0 || !is_white_space(s[j - 1]) {
        j
    } else {
        last_non_ws(s, j - 1)
    }
}

/// What `str::trim` returns: `s` without leading and trailing white space.
pub open spec fn trimmed(s: Seq<char>) -> Seq<char> {
    let a = first_non_ws(s, 0);
    let b = last_non_ws(s, s.len() as int);
    if a >= b {
        seq![]
    } else {
        s.subrange(a, b)
    }
}

proof fn lemma_first_non_ws_bounds(s: Seq<char>, i: int)
    requires
        0 <= i <= s.len(),
    ensures
        i <= first_non_ws(s, i) <= s.len(),
        forall|k: int| i <= k < first_non_ws(s, i) ==> is_white_space(#[trigger] s[k]),
    decreases s.len() - i,
{
    if i < s.len() && is_white_space(s[i]) {
        lemma_first_non_ws_bounds(s, i + 1);
    }
}

proof fn lemma_last_non_ws_bounds(s: Seq<char>, j: int)
    requires
        0 <= j <= s.len(),
    ensures
        0 <= last_non_ws(s, j) <= j,
    decreases j,
{
    if j > 0 && is_white_space(s[j - 1]) {
        lemma_last_non_ws_bounds(s, j - 1);
    }
}

proof fn lemma_first_non_ws_stops(s: Seq<char>, i: int)
    requires
        0 <= i <= s.len(),
        first_non_ws(s, i) < s.len(),
    ensures
        !is_white_space(s[first_non_ws(s, i)]),
    decreases s.len() - i,
{
    if i < s.len() && is_white_space(s[i]) {
        lemma_first_non_ws_stops(s, i + 1);
    }
}

proof fn lemma_last_non_ws_stops(s: Seq<char>, j: int)
    requires
        0 <= j <= s.len(),
        last_non_ws(s, j) > 0,
    ensures
        !is_white_space(s[last_non_ws(s, j) - 1]),
    decreases j,
{
    if j > 0 && is_white_space(s[j - 1]) {
        lemma_last_non_ws_stops(s, j - 1);
    }
}

/// Trimming twice is trimming once.
pub proof fn lemma_trimmed_idempotent(s: Seq<char>)
    ensures
        trimmed(trimmed(s)) == trimmed(s),
{
    let a = first_non_ws(s, 0);
    let b = last_non_ws(s, s.len() as int);
    lemma_first_non_ws_bounds(s, 0);
    lemma_last_non_ws_bounds(s, s.len() as int);
    if a < b {
        lemma_first_non_ws_stops(s, 0);
        lemma_last_non_ws_stops(s, s.len() as int);
        let t = s.subrange(a, b);
        assert(t[0] == s[a]);
        assert(t[t.len() - 1] == s[b - 1]);
        assert(first_non_ws(t, 0) == 0);
        assert(last_non_ws(t, t.len() as int) == t.len());
        assert(t.subrange(0, t.len() as int) =~= t);
    } else {
        let e = Seq::<char>::empty();
        assert(first_non_ws(e, 0) == 0);
        assert(last_non_ws(e, 0) == 0);
    }
}

/// `s` with leading and trailing white space removed.
pub fn trim(s: &str) -> (r: String)
    ensures
        r@ == trimmed(s@),
{
    let cs = chars_of(s);
    let mut a: usize = 0;
    while a < cs.len() && is_white_space_char(cs[a])
        invariant
            cs@ == s@,
            a <= cs@.len(),
            first_non_ws(s@, a as int) == first_non_ws(s@, 0),
        decreases cs@.len() - a,
    {
        a = a + 1;
    }
    let mut b: usize = cs.len();
    while b > 0 && is_white_space_char(cs[b - 1])
        invariant
            cs@ == s@,
            b <= cs@.len(),
            last_non_ws(s@, b as int) == last_non_ws(s@, s@.len() as int),
        decreases b,
    {
        b = b - 1;
    }
    if a >= b {
        String::new()
    } else {
        string_of(&cs, a, b)
    }
}

// ---------- decimal rendering ----------
/// The decimal digits of `n`.
pub open spec fn nat_digits(n: nat) -> Seq<char>
    decreases n,
{
    if n < 10 {
        seq![digit_char(n)]
    } else {
        nat_digits(n / 10).push(digit_char(n % 10))
    }
}

/// The character of a decimal digit.
pub open spec fn digit_char(d: nat) -> char {
    if d == 0 { '0' }
    else if d == 1 { '1' }
    else if d == 2 { '2' }
    else if d == 3 { '3' }
    else if d == 4 { '4' }
    else if d == 5 { '5' }
    else if d == 6 { '6' }
    else if d == 7 { '7' }
    else if d == 8 { '8' }
    else { '9' }
}

/// What `to_string` gives for an integer.
pub open spec fn decimal(n: int) -> Seq<char> {
    if n < 0 {
        seq!['-'] + nat_digits((-n) as nat)
    } else {
        nat_digits(n as nat)
    }
}

fn digit(d: u64) -> (c: char)
    requires
        d < 10,
    ensures
        c == digit_char(d as nat),
{
    if d == 0 { '0' }
    else if d == 1 { '1' }
    else if d == 2 { '2' }
    else if d == 3 { '3' }
    else if d == 4 { '4' }
    else if d == 5 { '5' }
    else if d == 6 { '6' }
    else if d == 7 { '7' }
    else if d == 8 { '8' }
    else { '9' }
}

/// The decimal digits of `n`.
pub fn u64_to_string(n: u64) -> (r: String)
    ensures
        r@ == nat_digits(n as nat),
    decreases n,
{
    if n < 10 {
        let mut r = String::new();
        push_char(&mut r, digit(n));
        r
    } else {
        let mut r = u64_to_string(n / 10);
        push_char(&mut r, digit(n % 10));
        r
    }
}

/// The decimal rendering of `n`, with a leading `-` when negative.
pub fn i64_to_string(n: i64) -> (r: String)
    ensures
        r@ == decimal(n as int),
{
    if n < 0 {
        let m: u64 = if n == i64::MIN {
            9223372036854775808u64
        } else {
            (-n) as u64
        };
        let mut r = String::new();
        push_char(&mut r, '-');
        let d = u64_to_string(m);
        r.append(d.as_str());
        r
    } else {
        u64_to_string(n as u64)
    }
}

// ---------- byte-prefix truncation ----------
/// `s` cut to its first `n` UTF-8 bytes, when longer than `n` bytes.
pub open spec fn truncated(s: Seq<char>, n: nat) -> Seq<char> {
    if encode_utf8(s).len() <= n {
        s
    } else {
        decode_utf8(encode_utf8(s).take(n as int))
    }
}

/// Whether cutting `s` to `n` bytes falls between characters (or does not
/// cut at all).
pub open spec fn cut_ok(s: Seq<char>, n: nat) -> bool {
    encode_utf8(s).len() <= n || is_char_boundary(encode_utf8(s), n as int)
}

/// `s` cut to its first `n` bytes, when longer.
pub fn truncate_str(s: &str, n: usize) -> (r: &str)
    requires
        cut_ok(s@, n as nat),
        encode_utf8(s@).len() <= usize::MAX,
    ensures
        r@ == truncated(s@, n as nat),
{
    if s.len() <= n {
        s
    } else {
        let (head, _tail) = s.split_at(n);
        proof {
            assert(head.spec_bytes() == encode_utf8(head@));
        }
        head
    }
}

/// Whether cutting `s` to `n` bytes falls between characters.
pub fn can_cut(s: &str, n: usize) -> (r: bool)
    requires
        encode_utf8(s@).len() <= usize::MAX,
    ensures
        r == cut_ok(s@, n as nat),
{
    s.len() <= n || s.is_char_boundary(n)
}

// ---------- session directory naming ----------
/// `/` replaced by `-` throughout.
pub open spec fn dashed(s: Seq<char>) -> Seq<char> {
    s.map_values(|c: char| if c == '/' { '-' } else { c })
}

/// The directory name under which sessions for working directory `cwd`
/// are kept: the path with `/` turned into `-`, wrapped in `-`.
pub fn session_dir_name(cwd: &str) -> (r: String)
    ensures
        r@ == seq!['-'] + dashed(cwd@) + seq!['-'],
{
    let cs = chars_of(cwd);
    let mut r = String::new();
    push_char(&mut r, '-');
    let mut i: usize = 0;
    while i < cs.len()
        invariant
            cs@ == cwd@,
            i <= cs@.len(),
            r@ == seq!['-'] + dashed(cwd@.take(i as int)),
        decreases cs@.len() - i,
    {
        let c = cs[i];
        if c == '/' {
            push_char(&mut r, '-');
        } else {
            push_char(&mut r, c);
        }
        assert(dashed(cwd@.take(i + 1)) =~= dashed(cwd@.take(i as int)).push(
            if c == '/' { '-' } else { c },
        ));
        i = i + 1;
    }
    assert(cwd@.take(cs@.len() as int) =~= cwd@);
    push_char(&mut r, '-');
    r
}

} // verus!
