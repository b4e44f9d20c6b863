//! Codepoint-level text utilities shared by every rewrite pass.
//!
//! Every pass works on a `Vec<char>` so that all offsets are codepoint
//! indices and stay valid under multi-byte text.

use vstd::prelude::*;

verus! {

/// ASCII lowercase of one codepoint; non-ASCII codepoints are untouched.
pub open spec fn lower_char(c: char) -> char {
    if 'A' <= c && c <= 'Z' {
        (((c as u8) + 32) as char)
    } else {
        c
    }
}

/// ASCII lowercase of a whole sequence.
pub open spec fn lower_seq(s: Seq<char>) -> Seq<char> {
    s.map_values(|c: char| lower_char(c))
}

/// The characters this library collapses as whitespace.
pub open spec fn is_space_char(c: char) -> bool {
    c == ' ' || c == '\t' || c == '\n' || c == '\r' || c == '\u{0b}' || c == '\u{c}'
}

/// `pat` (compared lowercase) occurs in `s` at offset `i`, ignoring ASCII case.
pub open spec fn matches_at_ci(s: Seq<char>, i: int, pat: Seq<char>) -> bool {
    0 <= i && i + pat.len() <= s.len() && (forall|j: int|
        0 <= j < pat.len() ==> lower_char(s[i + j]) == lower_char(pat[j]))
}

/// `pat` occurs in `s` at offset `i`, exactly.
pub open spec fn matches_at_cs(s: Seq<char>, i: int, pat: Seq<char>) -> bool {
    0 <= i && i + pat.len() <= s.len() && (forall|j: int| 0 <= j < pat.len() ==> s[i + j] == pat[j])
}

/// `s` contains `pat` somewhere, ignoring ASCII case.
pub open spec fn contains_ci(s: Seq<char>, pat: Seq<char>) -> bool {
    exists|i: int| matches_at_ci(s, i, pat)
}

/// `s` contains `pat` somewhere, exactly.
pub open spec fn contains_cs(s: Seq<char>, pat: Seq<char>) -> bool {
    exists|i: int| matches_at_cs(s, i, pat)
}

pub fn to_lower_char(c: char) -> (r: char)
    ensures
        r == lower_char(c),
{
    if 'A' <= c && c <= 'Z' {
        ((c as u8) + 32) as char
    } else {
        c
    }
}

pub fn is_space(c: char) -> (r: bool)
    ensures
        r == is_space_char(c),
{
    c == ' ' || c == '\t' || c == '\n' || c == '\r' || c == '\u{0b}' || c == '\u{c}'
}

/// Case-insensitive match of `pat` against `s` at offset `i`.
pub fn match_at_ci(s: &Vec<char>, i: usize, pat: &Vec<char>) -> (r: bool)
    ensures
        r == matches_at_ci(s@, i as int, pat@),
{
    let n: usize = s.len();
    if i > n || n - i < pat.len() {
        return false;
    }
    let mut j: usize = 0;
    while j < pat.len()
        invariant
            n == s@.len(),
            i + pat@.len() <= n,
            j <= pat@.len(),
            forall|m: int| 0 <= m < j ==> lower_char(s@[i + m]) == lower_char(pat@[m]),
        decreases pat@.len() - j,
    {
        if to_lower_char(s[i + j]) != to_lower_char(pat[j]) {
            return false;
        }
        j += 1;
    }
    true
}

/// Exact match of `pat` against `s` at offset `i`.
pub fn match_at_cs(s: &Vec<char>, i: usize, pat: &Vec<char>) -> (r: bool)
    ensures
        r == matches_at_cs(s@, i as int, pat@),
{
    let n: usize = s.len();
    if i > n || n - i < pat.len() {
        return false;
    }
    let mut j: usize = 0;
    while j < pat.len()
        invariant
            n == s@.len(),
            i + pat@.len() <= n,
            j <= pat@.len(),
            forall|m: int| 0 <= m < j ==> s@[i + m] == pat@[m],
        decreases pat@.len() - j,
    {
        if s[i + j] != pat[j] {
            return false;
        }
        j += 1;
    }
    true
}

/// Whether `s` contains `pat`, ignoring ASCII case.
pub fn find_ci(s: &Vec<char>, pat: &Vec<char>) -> (r: Option<usize>)
    requires
        pat@.len() > 0,
    ensures
        match r {
            Some(k) => matches_at_ci(s@, k as int, pat@) && (forall|m: int|
                0 <= m < k ==> !matches_at_ci(s@, m, pat@)),
            None => forall|m: int| !matches_at_ci(s@, m, pat@),
        },
{
    let mut i: usize = 0;
    while i < s.len()
        invariant
            i <= s@.len(),
            forall|m: int| 0 <= m < i ==> !matches_at_ci(s@, m, pat@),
        decreases s@.len() - i,
    {
        if match_at_ci(s, i, pat) {
            return Some(i);
        }
        i += 1;
    }
    assert(forall|m: int| m >= s@.len() ==> !matches_at_ci(s@, m, pat@));
    None
}

pub fn has_ci(s: &Vec<char>, pat: &Vec<char>) -> (r: bool)
    requires
        pat@.len() > 0,
    ensures
        r == contains_ci(s@, pat@),
{
    let r = find_ci(s, pat);
    match r {
        Some(_) => true,
        None => false,
    }
}

/// Whether `s` contains `pat`, exactly.
pub fn find_cs(s: &Vec<char>, pat: &Vec<char>) -> (r: Option<usize>)
    requires
        pat@.len() > 0,
    ensures
        match r {
            Some(k) => matches_at_cs(s@, k as int, pat@) && (forall|m: int|
                0 <= m < k ==> !matches_at_cs(s@, m, pat@)),
            None => forall|m: int| !matches_at_cs(s@, m, pat@),
        },
{
    let mut i: usize = 0;
    while i < s.len()
        invariant
            i <= s@.len(),
            forall|m: int| 0 <= m < i ==> !matches_at_cs(s@, m, pat@),
        decreases s@.len() - i,
    {
        if match_at_cs(s, i, pat) {
            return Some(i);
        }
        i += 1;
    }
    assert(forall|m: int| m >= s@.len() ==> !matches_at_cs(s@, m, pat@));
    None
}

pub fn has_cs(s: &Vec<char>, pat: &Vec<char>) -> (r: bool)
    requires
        pat@.len() > 0,
    ensures
        r == contains_cs(s@, pat@),
{
    let r = find_cs(s, pat);
    match r {
        Some(_) => true,
        None => false,
    }
}

/// The codepoints of `s`, in order.
pub fn str_to_chars(s: &str) -> (r: Vec<char>)
    ensures
        r@ == s@,
{
    let n = s.unicode_len();
    let mut v: Vec<char> = Vec::new();
    let mut i: usize = 0;
    while i < n
        invariant
            i <= n,
            n == s@.len(),
            v@ =~= s@.take(i as int),
        decreases n - i,
    {
        v.push(s.get_char(i));
        i += 1;
    }
    assert(v@ =~= s@);
    v
}

/// Relies on std's `FromIterator` for `String`: collecting the characters
/// of `v` yields the string with exactly those characters.
#[verifier::external_body]
pub fn chars_to_string(v: &Vec<char>) -> (r: String)
    ensures
        r@ == v@,
{
    v.iter().collect()
}

/// ASCII-lowercased copy of `s`.
pub fn to_lower_vec(s: &Vec<char>) -> (r: Vec<char>)
    ensures
        r@ == lower_seq(s@),
{
    let mut v: Vec<char> = Vec::new();
    let mut i: usize = 0;
    while i < s.len()
        invariant
            i <= s@.len(),
            v@ =~= lower_seq(s@).take(i as int),
        decreases s@.len() - i,
    {
        v.push(to_lower_char(s[i]));
        assert(v@ =~= lower_seq(s@).take(i + 1));
        i += 1;
    }
    assert(v@ =~= lower_seq(s@));
    v
}

/// Append `src[from..to]` to `dst`.
pub fn push_range(dst: &mut Vec<char>, src: &Vec<char>, from: usize, to: usize)
    requires
        from <= to <= src@.len(),
    ensures
        final(dst)@ == old(dst)@ + src@.subrange(from as int, to as int),
{
    let mut i: usize = from;
    while i < to
        invariant
            from <= i <= to <= src@.len(),
            dst@ =~= old(dst)@ + src@.subrange(from as int, i as int),
        decreases to - i,
    {
        dst.push(src[i]);
        assert(dst@ =~= old(dst)@ + src@.subrange(from as int, i + 1));
        i += 1;
    }
}

/// Append the whole of `src` to `dst`.
pub fn push_all(dst: &mut Vec<char>, src: &Vec<char>)
    ensures
        final(dst)@ == old(dst)@ + src@,
{
    let n = src.len();
    push_range(dst, src, 0, n);
    assert(src@.subrange(0, n as int) =~= src@);
}


/// ASCII letter or digit.
pub open spec fn is_alnum_char(c: char) -> bool {
    ('a' <= c && c <= 'z') || ('A' <= c && c <= 'Z') || ('0' <= c && c <= '9')
}

/// ASCII letter.
pub open spec fn is_alpha_char(c: char) -> bool {
    ('a' <= c && c <= 'z') || ('A' <= c && c <= 'Z')
}

/// A character of a selector atom: ASCII letter, digit, `-` or `_`.
pub open spec fn is_atom_char(c: char) -> bool {
    is_alnum_char(c) || c == '-' || c == '_'
}

pub fn is_alnum(c: char) -> (r: bool)
    ensures
        r == is_alnum_char(c),
{
    ('a' <= c && c <= 'z') || ('A' <= c && c <= 'Z') || ('0' <= c && c <= '9')
}

pub fn is_alpha(c: char) -> (r: bool)
    ensures
        r == is_alpha_char(c),
{
    ('a' <= c && c <= 'z') || ('A' <= c && c <= 'Z')
}

pub fn is_atom(c: char) -> (r: bool)
    ensures
        r == is_atom_char(c),
{
    is_alnum(c) || c == '-' || c == '_'
}

/// `s` without its leading whitespace.
pub open spec fn trim_start_spec(s: Seq<char>) -> Seq<char>
    decreases s.len(),
{
    if s.len() > 0 && is_space_char(s[0]) {
        trim_start_spec(s.drop_first())
    } else {
        s
    }
}

/// `s` without its trailing whitespace.
pub open spec fn trim_end_spec(s: Seq<char>) -> Seq<char>
    decreases s.len(),
{
    if s.len() > 0 && is_space_char(s[s.len() - 1]) {
        trim_end_spec(s.drop_last())
    } else {
        s
    }
}

/// `s` without leading and trailing whitespace.
pub open spec fn trim_spec(s: Seq<char>) -> Seq<char> {
    trim_end_spec(trim_start_spec(s))
}

pub proof fn lemma_trim_start_skip(s: Seq<char>, a: int)
    requires
        0 <= a <= s.len(),
        forall|m: int| 0 <= m < a ==> is_space_char(s[m]),
        a < s.len() ==> !is_space_char(s[a]),
    ensures
        trim_start_spec(s) == s.skip(a),
    decreases a,
{
    if a == 0 {
        assert(s.skip(0) =~= s);
        if s.len() > 0 && is_space_char(s[0]) {
            assert(false);
        }
    } else {
        assert(is_space_char(s[0]));
        lemma_trim_start_skip(s.drop_first(), a - 1);
        assert(s.drop_first().skip(a - 1) =~= s.skip(a));
    }
}

pub proof fn lemma_trim_end_take(s: Seq<char>, b: int)
    requires
        0 <= b <= s.len(),
        forall|m: int| b <= m < s.len() ==> is_space_char(s[m]),
        b > 0 ==> !is_space_char(s[b - 1]),
    ensures
        trim_end_spec(s) == s.take(b),
    decreases s.len() - b,
{
    if b == s.len() {
        assert(s.take(b) =~= s);
        if s.len() > 0 && is_space_char(s[s.len() - 1]) {
            assert(false);
        }
    } else {
        assert(is_space_char(s[s.len() - 1]));
        lemma_trim_end_take(s.drop_last(), b);
        assert(s.drop_last().take(b) =~= s.take(b));
    }
}

/// Copy of `s` without leading and trailing whitespace.
pub fn trim_chars(s: &Vec<char>) -> (r: Vec<char>)
    ensures
        r@ == trim_spec(s@),
{
    let n = s.len();
    let mut a: usize = 0;
    while a < n && is_space(s[a])
        invariant
            a <= n,
            n == s@.len(),
            forall|m: int| 0 <= m < a ==> is_space_char(s@[m]),
        decreases n - a,
    {
        a += 1;
    }
    proof {
        lemma_trim_start_skip(s@, a as int);
    }
    let mut b: usize = n;
    if a == n {
        b = a;
    } else {
        while b > a && is_space(s[b - 1])
            invariant
                a <= b <= n,
                n == s@.len(),
                forall|m: int| b <= m < n ==> is_space_char(s@[m]),
            decreases b,
        {
            b -= 1;
        }
    }
    proof {
        let st = s@.skip(a as int);
        lemma_trim_end_take(st, b - a);
        assert(st.take(b - a) =~= s@.subrange(a as int, b as int));
    }
    let mut out: Vec<char> = Vec::new();
    push_range(&mut out, s, a, b);
    proof {
        assert(out@ =~= s@.subrange(a as int, b as int));
    }
    out
}


/// The character sequences of a sequence of strings.
pub open spec fn views_of_strings(v: Seq<String>) -> Seq<Seq<char>> {
    Seq::new(v.len(), |k: int| v[k]@)
}

pub fn string_eq(a: &String, b: &String) -> (r: bool)
    ensures
        r == (a@ == b@),
{
    a.eq(b)
}


/// Trimming is idempotent: a trimmed text trims to itself.
pub proof fn lemma_trim_of_trim(s: Seq<char>)
    ensures
        trim_spec(trim_spec(s)) == trim_spec(s),
{
    let t = trim_spec(s);
    lemma_trim_start_all(s);
    lemma_trim_end_all(trim_start_spec(s));
    assert(t.len() > 0 ==> !is_space_char(t[0]) && !is_space_char(t[t.len() - 1]));
    lemma_trim_start_skip(t, 0);
    assert(t.skip(0) =~= t);
    lemma_trim_end_take(t, t.len() as int);
    assert(t.take(t.len() as int) =~= t);
}

/// The head of a start-trimmed text is not whitespace.
pub proof fn lemma_trim_start_all(s: Seq<char>)
    ensures
        trim_start_spec(s).len() > 0 ==> !is_space_char(trim_start_spec(s)[0]),
        trim_end_spec(trim_start_spec(s)).len() > 0 ==> !is_space_char(
            trim_end_spec(trim_start_spec(s))[0],
        ),
    decreases s.len(),
{
    if s.len() > 0 && is_space_char(s[0]) {
        lemma_trim_start_all(s.drop_first());
    } else {
        lemma_trim_end_head(s);
    }
}

/// End-trimming keeps the head and removes trailing whitespace.
pub proof fn lemma_trim_end_head(s: Seq<char>)
    ensures
        trim_end_spec(s).len() > 0 ==> trim_end_spec(s)[0] == s[0],
    decreases s.len(),
{
    if s.len() > 0 && is_space_char(s[s.len() - 1]) {
        lemma_trim_end_head(s.drop_last());
    }
}

/// The last character of an end-trimmed text is not whitespace.
pub proof fn lemma_trim_end_all(s: Seq<char>)
    ensures
        trim_end_spec(s).len() > 0 ==> !is_space_char(
            trim_end_spec(s)[trim_end_spec(s).len() - 1],
        ),
    decreases s.len(),
{
    if s.len() > 0 && is_space_char(s[s.len() - 1]) {
        lemma_trim_end_all(s.drop_last());
    }
}


/// Start-trimming removes a prefix: the result is a suffix of `s`.
pub proof fn lemma_trim_start_infix(s: Seq<char>)
    ensures
        trim_start_spec(s).len() <= s.len(),
        trim_start_spec(s) == s.skip(s.len() - trim_start_spec(s).len()),
    decreases s.len(),
{
    if s.len() > 0 && is_space_char(s[0]) {
        lemma_trim_start_infix(s.drop_first());
        let t = trim_start_spec(s);
        assert(s.drop_first().skip(s.drop_first().len() - t.len()) =~= s.skip(s.len() - t.len()));
    } else {
        assert(s.skip(0) =~= s);
    }
}

/// End-trimming removes a suffix: the result is a prefix of `s`.
pub proof fn lemma_trim_end_infix(s: Seq<char>)
    ensures
        trim_end_spec(s).len() <= s.len(),
        trim_end_spec(s) == s.take(trim_end_spec(s).len() as int),
    decreases s.len(),
{
    if s.len() > 0 && is_space_char(s[s.len() - 1]) {
        lemma_trim_end_infix(s.drop_last());
        let t = trim_end_spec(s);
        assert(s.drop_last().take(t.len() as int) =~= s.take(t.len() as int));
    } else {
        assert(s.take(s.len() as int) =~= s);
    }
}

/// The trimmed text is a contiguous part of `s`.
pub proof fn lemma_trim_infix(s: Seq<char>)
    ensures
        trim_spec(s).len() <= s.len(),
        exists|a: int|
            0 <= a && a + trim_spec(s).len() <= s.len() && trim_spec(s) == #[trigger] s.subrange(
                a,
                a + trim_spec(s).len(),
            ),
{
    lemma_trim_start_infix(s);
    let ts = trim_start_spec(s);
    let a = s.len() - ts.len();
    lemma_trim_end_infix(ts);
    let t = trim_spec(s);
    assert(t == ts.take(t.len() as int));
    assert(ts == s.skip(a as int));
    assert(s.skip(a as int).take(t.len() as int) =~= s.subrange(a as int, a + t.len()));
    assert(t == s.subrange(a as int, a + t.len()));
}


/// ASCII uppercase of one codepoint; non-ASCII codepoints untouched.
pub open spec fn upper_char(c: char) -> char {
    if 'a' <= c && c <= 'z' {
        (((c as u8) - 32) as char)
    } else {
        c
    }
}

pub fn to_upper_char(c: char) -> (r: char)
    ensures
        r == upper_char(c),
{
    if 'a' <= c && c <= 'z' {
        ((c as u8) - 32) as char
    } else {
        c
    }
}

pub open spec fn digit_char(d: nat) -> char {
    if d == 0 {
        '0'
    } else if d == 1 {
        '1'
    } else if d == 2 {
        '2'
    } else if d == 3 {
        '3'
    } else if d == 4 {
        '4'
    } else if d == 5 {
        '5'
    } else if d == 6 {
        '6'
    } else if d == 7 {
        '7'
    } else if d == 8 {
        '8'
    } else {
        '9'
    }
}

/// The decimal digits of `n`, most significant first.
pub open spec fn dec_digits(n: nat) -> Seq<char>
    decreases n,
{
    if n < 10 {
        seq![digit_char(n)]
    } else {
        dec_digits(n / 10) + seq![digit_char(n % 10)]
    }
}

/// The decimal text of `n`.
pub fn usize_to_chars(n: usize) -> (r: Vec<char>)
    ensures
        r@ == dec_digits(n as nat),
{
    let mut rev: Vec<char> = Vec::new();
    let mut m: usize = n;
    proof {
        assert(dec_digits(n as nat) =~= dec_digits(n as nat) + rev@.reverse());
    }
    loop
        invariant_except_break
            dec_digits(n as nat) == dec_digits(m as nat) + rev@.reverse(),
        ensures
            dec_digits(n as nat) == rev@.reverse(),
        decreases m,
    {
        let ghost m0 = m as nat;
        let d = m % 10;
        let c: char = if d == 0 {
            '0'
        } else if d == 1 {
            '1'
        } else if d == 2 {
            '2'
        } else if d == 3 {
            '3'
        } else if d == 4 {
            '4'
        } else if d == 5 {
            '5'
        } else if d == 6 {
            '6'
        } else if d == 7 {
            '7'
        } else if d == 8 {
            '8'
        } else {
            '9'
        };
        proof {
            assert(c == digit_char((m % 10) as nat));
        }
        let ghost old_rev = rev@;
        rev.push(c);
        m = m / 10;
        proof {
            assert(rev@.reverse() =~= seq![c] + old_rev.reverse());
            if m0 < 10 {
                assert(dec_digits(m0) == seq![digit_char(m0)]);
                assert(dec_digits(n as nat) =~= rev@.reverse());
            } else {
                assert(dec_digits(m0) == dec_digits(m0 / 10) + seq![digit_char(m0 % 10)]);
                assert(dec_digits(n as nat) =~= dec_digits(m as nat) + rev@.reverse());
            }
        }
        if m == 0 {
            break;
        }
    }
    let mut out: Vec<char> = Vec::new();
    let mut i: usize = rev.len();
    while i > 0
        invariant
            i <= rev@.len(),
            out@ =~= rev@.reverse().take(rev@.len() - i),
        decreases i,
    {
        i -= 1;
        out.push(rev[i]);
        proof {
            assert(out@ =~= rev@.reverse().take(rev@.len() - i));
        }
    }
    proof {
        assert(out@ =~= rev@.reverse());
    }
    out
}


/// Whole-sequence equality of two character buffers.
pub fn chars_eq(a: &Vec<char>, b: &Vec<char>) -> (r: bool)
    ensures
        r == (a@ == b@),
{
    if a.len() != b.len() {
        return false;
    }
    let m = match_at_cs(a, 0, b);
    proof {
        if m {
            assert(a@ =~= b@);
        }
    }
    m
}

/// View equality of two strings.
pub fn str_eq_str(a: &str, b: &str) -> (r: bool)
    ensures
        r == (a@ == b@),
{
    let av = str_to_chars(a);
    let bv = str_to_chars(b);
    chars_eq(&av, &bv)
}


/// The decimal text of a wide nonnegative counter.
pub fn u128_to_chars(n: u128) -> (r: Vec<char>)
    ensures
        r@ == dec_digits(n as nat),
{
    let mut rev: Vec<char> = Vec::new();
    let mut m: u128 = n;
    proof {
        assert(dec_digits(n as nat) =~= dec_digits(n as nat) + rev@.reverse());
    }
    loop
        invariant_except_break
            dec_digits(n as nat) == dec_digits(m as nat) + rev@.reverse(),
        ensures
            dec_digits(n as nat) == rev@.reverse(),
        decreases m,
    {
        let ghost m0 = m as nat;
        let d = m % 10;
        let c: char = if d == 0 {
            '0'
        } else if d == 1 {
            '1'
        } else if d == 2 {
            '2'
        } else if d == 3 {
            '3'
        } else if d == 4 {
            '4'
        } else if d == 5 {
            '5'
        } else if d == 6 {
            '6'
        } else if d == 7 {
            '7'
        } else if d == 8 {
            '8'
        } else {
            '9'
        };
        proof {
            assert(c == digit_char((m % 10) as nat));
        }
        let ghost old_rev = rev@;
        rev.push(c);
        m = m / 10;
        proof {
            assert(rev@.reverse() =~= seq![c] + old_rev.reverse());
            if m0 < 10 {
                assert(dec_digits(m0) == seq![digit_char(m0)]);
                assert(dec_digits(n as nat) =~= rev@.reverse());
            } else {
                assert(dec_digits(m0) == dec_digits(m0 / 10) + seq![digit_char(m0 % 10)]);
                assert(dec_digits(n as nat) =~= dec_digits(m as nat) + rev@.reverse());
            }
        }
        if m == 0 {
            break;
        }
    }
    let mut out: Vec<char> = Vec::new();
    let mut i: usize = rev.len();
    while i > 0
        invariant
            i <= rev@.len(),
            out@ =~= rev@.reverse().take(rev@.len() - i),
        decreases i,
    {
        i -= 1;
        out.push(rev[i]);
        proof {
            assert(out@ =~= rev@.reverse().take(rev@.len() - i));
        }
    }
    proof {
        assert(out@ =~= rev@.reverse());
    }
    out
}

} // verus!
