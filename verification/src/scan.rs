//! The tag-stream scanner: one pass over a codepoint buffer that finds
//! case-insensitive tag prefixes, cuts the whole tag out to its closing
//! `>`, and hands it to a per-pass transform.  Malformed input (a tag
//! with no closing `>`) is copied through verbatim, never an error.

use vstd::prelude::*;

use crate::text::{
    match_at_ci, match_at_cs, matches_at_ci, matches_at_cs, push_all, push_range,
};

verus! {

/// Index of the first `>` at or after `i`, or `s.len()` if there is none.
pub open spec fn find_gt_from(s: Seq<char>, i: nat) -> nat
    decreases s.len() - i,
    when i <= s.len()
{
    if i >= s.len() {
        i
    } else if s[i as int] == '>' {
        i
    } else {
        find_gt_from(s, (i + 1) as nat)
    }
}

pub proof fn lemma_find_gt_from(s: Seq<char>, i: nat)
    requires
        i <= s.len(),
    ensures
        i <= find_gt_from(s, i) <= s.len(),
        find_gt_from(s, i) < s.len() ==> s[find_gt_from(s, i) as int] == '>',
        forall|m: int| i <= m < find_gt_from(s, i) ==> s[m] != '>',
    decreases s.len() - i,
{
    if i < s.len() && s[i as int] != '>' {
        lemma_find_gt_from(s, (i + 1) as nat);
    }
}

pub proof fn lemma_find_gt_from_is(s: Seq<char>, i: nat, j: nat)
    requires
        i <= j <= s.len(),
        forall|m: int| i <= m < j ==> s[m] != '>',
        j < s.len() ==> s[j as int] == '>',
    ensures
        find_gt_from(s, i) == j,
    decreases j - i,
{
    if i < j {
        lemma_find_gt_from_is(s, (i + 1) as nat, j);
    }
}

/// Index of the first exact occurrence of `pat` at or after `i`, or
/// `s.len()` if there is none.
pub open spec fn find_cs_from(s: Seq<char>, pat: Seq<char>, i: nat) -> nat
    decreases s.len() - i,
    when i <= s.len() && pat.len() > 0
{
    if i + pat.len() > s.len() {
        s.len()
    } else if matches_at_cs(s, i as int, pat) {
        i
    } else {
        find_cs_from(s, pat, (i + 1) as nat)
    }
}

pub proof fn lemma_find_cs_from(s: Seq<char>, pat: Seq<char>, i: nat)
    requires
        i <= s.len(),
        pat.len() > 0,
    ensures
        i <= find_cs_from(s, pat, i) <= s.len(),
        find_cs_from(s, pat, i) < s.len() ==> matches_at_cs(s, find_cs_from(s, pat, i) as int, pat),
        forall|m: int| i <= m < find_cs_from(s, pat, i) ==> !matches_at_cs(s, m, pat),
        find_cs_from(s, pat, i) == s.len() ==> forall|m: int| i <= m ==> !matches_at_cs(s, m, pat),
    decreases s.len() - i,
{
    if i + pat.len() > s.len() {
        assert forall|m: int| i <= m implies !matches_at_cs(s, m, pat) by {}
    } else if !matches_at_cs(s, i as int, pat) {
        lemma_find_cs_from(s, pat, (i + 1) as nat);
    }
}

pub proof fn lemma_find_cs_from_is(s: Seq<char>, pat: Seq<char>, i: nat, j: nat)
    requires
        pat.len() > 0,
        i <= j <= s.len(),
        forall|m: int| i <= m < j ==> !matches_at_cs(s, m, pat),
        j < s.len() ==> matches_at_cs(s, j as int, pat),
        j == s.len() ==> forall|m: int| i <= m ==> !matches_at_cs(s, m, pat),
    ensures
        find_cs_from(s, pat, i) == j,
    decreases j - i,
{
    if i < j {
        lemma_find_cs_from_is(s, pat, (i + 1) as nat, j);
    }
}

/// `s` with the first exact occurrence of `pat` replaced by `rep`;
/// `s` itself when `pat` does not occur.
pub open spec fn replace_first_cs(s: Seq<char>, pat: Seq<char>, rep: Seq<char>) -> Seq<char> {
    let k = find_cs_from(s, pat, 0);
    if k == s.len() {
        s
    } else {
        s.take(k as int) + rep + s.skip(k + pat.len() as int)
    }
}

/// `s` with every (left-to-right, non-overlapping) exact occurrence of
/// `pat` replaced by `rep`.
pub open spec fn replace_all_cs(s: Seq<char>, pat: Seq<char>, rep: Seq<char>) -> Seq<char>
    decreases s.len(),
    when pat.len() > 0
    via replace_all_cs_dec
{
    let k = find_cs_from(s, pat, 0);
    if k == s.len() {
        s
    } else {
        s.take(k as int) + rep + replace_all_cs(s.skip(k + pat.len() as int), pat, rep)
    }
}

#[via_fn]
proof fn replace_all_cs_dec(s: Seq<char>, pat: Seq<char>, rep: Seq<char>) {
    lemma_find_cs_from(s, pat, 0);
}

pub fn replace_first(s: &Vec<char>, pat: &Vec<char>, rep: &Vec<char>) -> (r: Vec<char>)
    requires
        pat@.len() > 0,
    ensures
        r@ == replace_first_cs(s@, pat@, rep@),
{
    let k = match crate::text::find_cs(s, pat) {
        Some(k) => k,
        None => {
            proof {
                lemma_find_cs_from_is(s@, pat@, 0, s@.len());
            }
            return s.clone();
        },
    };
    proof {
        lemma_find_cs_from_is(s@, pat@, 0, k as nat);
    }
    let mut out: Vec<char> = Vec::new();
    push_range(&mut out, s, 0, k);
    push_all(&mut out, rep);
    let n = s.len();
    push_range(&mut out, s, k + pat.len(), n);
    proof {
        assert(out@ =~= s@.take(k as int) + rep@ + s@.skip(k + pat@.len() as int));
    }
    out
}

pub fn replace_all(s: &Vec<char>, pat: &Vec<char>, rep: &Vec<char>) -> (r: Vec<char>)
    requires
        pat@.len() > 0,
    ensures
        r@ == replace_all_cs(s@, pat@, rep@),
{
    let mut out: Vec<char> = Vec::new();
    let mut i: usize = 0;
    let n = s.len();
    proof {
        assert(s@.skip(0) =~= s@);
    }
    while i < n
        invariant
            i <= n,
            n == s@.len(),
            pat@.len() > 0,
            replace_all_cs(s@, pat@, rep@) == out@ + replace_all_cs(s@.skip(i as int), pat@, rep@),
        decreases n - i,
    {
        // find the next match at or after i, by absolute index
        let mut j: usize = i;
        let mut found: bool = false;
        while j < n && !found
            invariant
                i <= j <= n,
                n == s@.len(),
                pat@.len() > 0,
                !found ==> forall|m: int| i <= m < j ==> !matches_at_cs(s@, m, pat@),
                found ==> matches_at_cs(s@, j as int, pat@) && i <= j && (forall|m: int|
                    i <= m < j ==> !matches_at_cs(s@, m, pat@)),
            decreases n - j + (if found { 0int } else { 1int }),
        {
            if match_at_cs(s, j, pat) {
                found = true;
            } else {
                j += 1;
            }
        }
        let ghost suf = s@.skip(i as int);
        if found {
            proof {
                assert forall|m: int| 0 <= m < j - i implies !matches_at_cs(suf, m, pat@) by {
                    assert(!matches_at_cs(s@, m + i, pat@));
                    assert(forall|x: int| 0 <= x < suf.len() ==> suf[x] == s@[x + i]);
                }
                assert(matches_at_cs(suf, j - i, pat@)) by {
                    assert(forall|x: int| 0 <= x < suf.len() ==> suf[x] == s@[x + i]);
                }
                lemma_find_cs_from_is(suf, pat@, 0, (j - i) as nat);
            }
            push_range(&mut out, s, i, j);
            push_all(&mut out, rep);
            proof {
                assert(suf.take(j - i) =~= s@.subrange(i as int, j as int));
                assert(suf.skip(j - i + pat@.len()) =~= s@.skip(j + pat@.len() as int));
            }
            i = j + pat.len();
        } else {
            proof {
                assert forall|m: int| 0 <= m implies !matches_at_cs(suf, m, pat@) by {
                    if 0 <= m < suf.len() {
                        assert(!matches_at_cs(s@, m + i, pat@));
                        assert(forall|x: int| 0 <= x < suf.len() ==> suf[x] == s@[x + i]);
                        if matches_at_cs(suf, m, pat@) {
                            assert(forall|y: int|
                                0 <= y < pat@.len() ==> s@[m + i + y] == #[trigger] suf[m + y]);
                            assert(matches_at_cs(s@, m + i, pat@));
                        }
                    } else {
                        if matches_at_cs(suf, m, pat@) {
                        }
                    }
                }
                lemma_find_cs_from_is(suf, pat@, 0, suf.len() as nat);
            }
            push_range(&mut out, s, i, n);
            proof {
                assert(suf =~= s@.subrange(i as int, n as int));
            }
            i = n;
        }
    }
    proof {
        assert(s@.skip(n as int) =~= Seq::<char>::empty());
        assert(replace_all_cs(s@.skip(n as int), pat@, rep@) =~= Seq::<char>::empty());
        assert(out@ =~= replace_all_cs(s@, pat@, rep@));
    }
    out
}

/// End of the tag that starts at `i`: one past its closing `>`, or the
/// end of the text when the tag is unterminated.
pub open spec fn tag_end(s: Seq<char>, i: nat) -> nat {
    let j = find_gt_from(s, i);
    if j < s.len() {
        (j + 1) as nat
    } else {
        s.len()
    }
}

/// One rewrite pass: every tag whose opening matches `pat` (ignoring
/// ASCII case) is replaced by `tr` applied to the whole tag text; all
/// other characters are copied unchanged.
pub open spec fn scan_tags(
    s: Seq<char>,
    i: nat,
    pat: Seq<char>,
    tr: spec_fn(Seq<char>) -> Seq<char>,
) -> Seq<char>
    decreases s.len() - i,
    when i <= s.len() && pat.len() > 0
    via scan_tags_dec
{
    if i >= s.len() {
        Seq::empty()
    } else if matches_at_ci(s, i as int, pat) {
        let e = tag_end(s, i);
        tr(s.subrange(i as int, e as int)) + scan_tags(s, e, pat, tr)
    } else {
        seq![s[i as int]] + scan_tags(s, (i + 1) as nat, pat, tr)
    }
}

#[via_fn]
proof fn scan_tags_dec(s: Seq<char>, i: nat, pat: Seq<char>, tr: spec_fn(Seq<char>) -> Seq<char>) {
    if i < s.len() {
        lemma_find_gt_from(s, i);
    }
}

/// How many matched tags of the pass satisfy `pred`.
pub open spec fn scan_tags_count(
    s: Seq<char>,
    i: nat,
    pat: Seq<char>,
    pred: spec_fn(Seq<char>) -> bool,
) -> nat
    decreases s.len() - i,
    when i <= s.len() && pat.len() > 0
    via scan_tags_count_dec
{
    if i >= s.len() {
        0
    } else if matches_at_ci(s, i as int, pat) {
        let e = tag_end(s, i);
        (if pred(s.subrange(i as int, e as int)) {
            1nat
        } else {
            0nat
        }) + scan_tags_count(s, e, pat, pred)
    } else {
        scan_tags_count(s, (i + 1) as nat, pat, pred)
    }
}

#[via_fn]
proof fn scan_tags_count_dec(
    s: Seq<char>,
    i: nat,
    pat: Seq<char>,
    pred: spec_fn(Seq<char>) -> bool,
) {
    if i < s.len() {
        lemma_find_gt_from(s, i);
    }
}

pub proof fn lemma_scan_tags_count_le(
    s: Seq<char>,
    i: nat,
    pat: Seq<char>,
    pred: spec_fn(Seq<char>) -> bool,
)
    requires
        i <= s.len(),
        pat.len() > 0,
    ensures
        scan_tags_count(s, i, pat, pred) <= s.len() - i,
    decreases s.len() - i,
{
    if i < s.len() {
        if matches_at_ci(s, i as int, pat) {
            lemma_find_gt_from(s, i);
            lemma_scan_tags_count_le(s, tag_end(s, i), pat, pred);
        } else {
            lemma_scan_tags_count_le(s, (i + 1) as nat, pat, pred);
        }
    }
}

/// Run one tag pass over `v`.  The closure must implement the spec
/// transform `tr` and the spec count predicate `pred`.
pub fn scan_exec<F: Fn(Vec<char>) -> (Vec<char>, bool)>(
    v: &Vec<char>,
    pat: &Vec<char>,
    f: F,
    Ghost(tr): Ghost<spec_fn(Seq<char>) -> Seq<char>>,
    Ghost(pred): Ghost<spec_fn(Seq<char>) -> bool>,
) -> (r: (Vec<char>, usize))
    requires
        pat@.len() > 0,
        forall|t: Vec<char>| #[trigger] f.requires((t,)),
        forall|t: Vec<char>, out: (Vec<char>, bool)|
            #[trigger] f.ensures((t,), out) ==> out.0@ == tr(t@) && out.1 == pred(t@),
    ensures
        r.0@ == scan_tags(v@, 0, pat@, tr),
        r.1 == scan_tags_count(v@, 0, pat@, pred),
{
    let n = v.len();
    let mut out: Vec<char> = Vec::new();
    let mut count: usize = 0;
    let mut i: usize = 0;
    while i < n
        invariant
            i <= n,
            n == v@.len(),
            pat@.len() > 0,
            count <= i,
            forall|t: Vec<char>| #[trigger] f.requires((t,)),
            forall|t: Vec<char>, fout: (Vec<char>, bool)|
                #[trigger] f.ensures((t,), fout) ==> fout.0@ == tr(t@) && fout.1 == pred(t@),
            scan_tags(v@, 0, pat@, tr) == out@ + scan_tags(v@, i as nat, pat@, tr),
            scan_tags_count(v@, 0, pat@, pred) == count + scan_tags_count(
                v@,
                i as nat,
                pat@,
                pred,
            ),
        decreases n - i,
    {
        if match_at_ci(v, i, pat) {
            let mut j: usize = i;
            while j < n && v[j] != '>'
                invariant
                    i <= j <= n,
                    n == v@.len(),
                    forall|m: int| i <= m < j ==> v@[m] != '>',
                decreases n - j,
            {
                j += 1;
            }
            proof {
                lemma_find_gt_from_is(v@, i as nat, j as nat);
            }
            let e = if j < n {
                j + 1
            } else {
                n
            };
            assert(e == tag_end(v@, i as nat));
            let mut tag: Vec<char> = Vec::new();
            push_range(&mut tag, v, i, e);
            let ghost tag_view = tag@;
            let ghost old_out = out@;
            let fout = f(tag);
            let (newtag, counted) = fout;
            proof {
                assert(newtag@ == tr(tag_view) && counted == pred(tag_view));
            }
            push_all(&mut out, &newtag);
            if counted {
                count += 1;
            }
            proof {
                let e_n = e as nat;
                assert(scan_tags(v@, i as nat, pat@, tr) == tr(tag_view) + scan_tags(
                    v@,
                    e_n,
                    pat@,
                    tr,
                ));
                assert(out@ =~= old_out + tr(tag_view)) by {
                    assert(out@ == old_out + newtag@);
                }
                assert(scan_tags(v@, 0, pat@, tr) == out@ + scan_tags(v@, e_n, pat@, tr));
                assert(scan_tags_count(v@, i as nat, pat@, pred) == (if pred(tag_view) {
                    1nat
                } else {
                    0nat
                }) + scan_tags_count(v@, e_n, pat@, pred));
            }
            i = e;
        } else {
            out.push(v[i]);
            proof {
                assert(scan_tags(v@, i as nat, pat@, tr) == seq![v@[i as int]] + scan_tags(
                    v@,
                    (i + 1) as nat,
                    pat@,
                    tr,
                ));
                assert(out@ =~= out@);
                assert(scan_tags(v@, 0, pat@, tr) == out@ + scan_tags(v@, (i + 1) as nat, pat@, tr));
                assert(scan_tags_count(v@, i as nat, pat@, pred) == scan_tags_count(
                    v@,
                    (i + 1) as nat,
                    pat@,
                    pred,
                ));
            }
            i += 1;
        }
    }
    proof {
        assert(scan_tags(v@, n as nat, pat@, tr) =~= Seq::<char>::empty());
        assert(out@ =~= scan_tags(v@, 0, pat@, tr));
    }
    (out, count)
}

/// `s` with `ins` inserted at offset `p`.
pub open spec fn insert_at(s: Seq<char>, p: nat, ins: Seq<char>) -> Seq<char> {
    s.take(p as int) + ins + s.skip(p as int)
}

pub fn insert_chars(s: &Vec<char>, p: usize, ins: &Vec<char>) -> (r: Vec<char>)
    requires
        p <= s@.len(),
    ensures
        r@ == insert_at(s@, p as nat, ins@),
{
    let mut out: Vec<char> = Vec::new();
    push_range(&mut out, s, 0, p);
    push_all(&mut out, ins);
    let n = s.len();
    push_range(&mut out, s, p, n);
    proof {
        assert(out@ =~= insert_at(s@, p as nat, ins@));
    }
    out
}


/// Index of the first character at or after `i` satisfying `p`, or
/// `s.len()` if there is none.
pub open spec fn find_if_from(s: Seq<char>, i: nat, p: spec_fn(char) -> bool) -> nat
    decreases s.len() - i,
    when i <= s.len()
{
    if i >= s.len() {
        i
    } else if p(s[i as int]) {
        i
    } else {
        find_if_from(s, (i + 1) as nat, p)
    }
}

pub proof fn lemma_find_if_from(s: Seq<char>, i: nat, p: spec_fn(char) -> bool)
    requires
        i <= s.len(),
    ensures
        i <= find_if_from(s, i, p) <= s.len(),
        find_if_from(s, i, p) < s.len() ==> p(s[find_if_from(s, i, p) as int]),
        forall|m: int| i <= m < find_if_from(s, i, p) ==> !p(s[m]),
    decreases s.len() - i,
{
    if i < s.len() && !p(s[i as int]) {
        lemma_find_if_from(s, (i + 1) as nat, p);
    }
}

pub proof fn lemma_find_if_from_is(s: Seq<char>, i: nat, j: nat, p: spec_fn(char) -> bool)
    requires
        i <= j <= s.len(),
        forall|m: int| i <= m < j ==> !p(s[m]),
        j < s.len() ==> p(s[j as int]),
    ensures
        find_if_from(s, i, p) == j,
    decreases j - i,
{
    if i < j {
        lemma_find_if_from_is(s, (i + 1) as nat, j, p);
    }
}


/// Equality-with-`q` as a named predicate, so that spec and proof sites
/// denote the same closure.
pub open spec fn char_pred(q: char) -> spec_fn(char) -> bool {
    |c: char| c == q
}

/// First occurrence of `q` at or after `i`, or `s.len()`.
pub fn find_char_from(s: &Vec<char>, i: usize, q: char) -> (r: usize)
    requires
        i <= s@.len(),
    ensures
        r == find_if_from(s@, i as nat, char_pred(q)),
        i <= r <= s@.len(),
        r < s@.len() ==> s@[r as int] == q,
        forall|m: int| i <= m < r ==> s@[m] != q,
{
    let n = s.len();
    let mut j: usize = i;
    while j < n && s[j] != q
        invariant
            i <= j <= n,
            n == s@.len(),
            forall|m: int| i <= m < j ==> s@[m] != q,
        decreases n - j,
    {
        j += 1;
    }
    proof {
        lemma_find_if_from_is(s@, i as nat, j as nat, char_pred(q));
    }
    j
}

/// The value of attribute `name` inside the tag text `tag`: the text
/// after the first `name=` (ASCII case-insensitive) that is directly
/// followed by a quote, up to the matching quote (or the end of the tag
/// when the quote is never closed).  `None` when no such occurrence
/// exists.
pub open spec fn attr_value_from(tag: Seq<char>, search: Seq<char>, i: nat) -> Option<Seq<char>>
    decreases tag.len() - i,
    when i <= tag.len() && search.len() > 0
{
    if i + search.len() > tag.len() {
        None
    } else if matches_at_ci(tag, i as int, search) && i + search.len() < tag.len() && (tag[(i
        + search.len()) as int] == '"' || tag[(i + search.len()) as int] == '\'') {
        let q = tag[(i + search.len()) as int];
        let e = find_if_from(tag, (i + search.len() + 1) as nat, char_pred(q));
        Some(tag.subrange((i + search.len() + 1) as int, e as int))
    } else {
        attr_value_from(tag, search, (i + 1) as nat)
    }
}

pub open spec fn attr_value(tag: Seq<char>, name: Seq<char>) -> Option<Seq<char>> {
    attr_value_from(tag, name + seq!['='], 0)
}

pub fn attr_value_exec(tag: &Vec<char>, name: &Vec<char>) -> (r: Option<Vec<char>>)
    ensures
        match r {
            Some(v) => attr_value(tag@, name@) == Some(v@),
            None => attr_value(tag@, name@) is None,
        },
{
    let mut search: Vec<char> = Vec::new();
    push_all(&mut search, name);
    search.push('=');
    assert(search@ =~= name@ + seq!['=']);
    let n = tag.len();
    let mut i: usize = 0;
    while n - i >= search.len() && i < n
        invariant
            i <= n,
            n == tag@.len(),
            search@ == name@ + seq!['='],
            search@.len() == name@.len() + 1,
            attr_value(tag@, name@) == attr_value_from(tag@, search@, i as nat),
        decreases n - i,
    {
        if match_at_ci(tag, i, &search) {
            let start = i + search.len();
            if start < n && (tag[start] == '"' || tag[start] == '\'') {
                let q = tag[start];
                let e = find_char_from(tag, start + 1, q);
                let mut v: Vec<char> = Vec::new();
                push_range(&mut v, tag, start + 1, e);
                proof {
                    assert(v@ =~= tag@.subrange((start + 1) as int, e as int));
                }
                return Some(v);
            }
        }
        i += 1;
    }
    assert(i + search@.len() > n);
    None
}


/// Searching from `i` is searching the suffix from its start.
pub proof fn lemma_find_if_shift(s: Seq<char>, i: nat, p: spec_fn(char) -> bool)
    requires
        i <= s.len(),
    ensures
        find_if_from(s, i, p) == i + find_if_from(s.skip(i as int), 0, p),
{
    let j = find_if_from(s, i, p);
    lemma_find_if_from(s, i, p);
    let suf = s.skip(i as int);
    assert forall|m: int| 0 <= m < j - i implies !p(suf[m]) by {
        assert(suf[m] == s[m + i]);
    }
    if j < s.len() {
        assert(suf[j - i] == s[j as int]);
    }
    lemma_find_if_from_is(suf, 0, (j - i) as nat, p);
}


/// Index of the first ASCII-case-insensitive occurrence of `pat` at or
/// after `i`, or `s.len()` if there is none.
pub open spec fn find_ci_from(s: Seq<char>, pat: Seq<char>, i: nat) -> nat
    decreases s.len() - i,
    when i <= s.len() && pat.len() > 0
{
    if i + pat.len() > s.len() {
        s.len()
    } else if matches_at_ci(s, i as int, pat) {
        i
    } else {
        find_ci_from(s, pat, (i + 1) as nat)
    }
}

pub proof fn lemma_find_ci_from(s: Seq<char>, pat: Seq<char>, i: nat)
    requires
        i <= s.len(),
        pat.len() > 0,
    ensures
        i <= find_ci_from(s, pat, i) <= s.len(),
        find_ci_from(s, pat, i) < s.len() ==> matches_at_ci(s, find_ci_from(s, pat, i) as int, pat),
        forall|m: int| i <= m < find_ci_from(s, pat, i) ==> !matches_at_ci(s, m, pat),
        find_ci_from(s, pat, i) == s.len() ==> forall|m: int| i <= m ==> !matches_at_ci(s, m, pat),
    decreases s.len() - i,
{
    if i + pat.len() > s.len() {
        assert forall|m: int| i <= m implies !matches_at_ci(s, m, pat) by {}
    } else if !matches_at_ci(s, i as int, pat) {
        lemma_find_ci_from(s, pat, (i + 1) as nat);
    }
}

pub proof fn lemma_find_ci_from_is(s: Seq<char>, pat: Seq<char>, i: nat, j: nat)
    requires
        pat.len() > 0,
        i <= j <= s.len(),
        forall|m: int| i <= m < j ==> !matches_at_ci(s, m, pat),
        j < s.len() ==> matches_at_ci(s, j as int, pat),
        j == s.len() ==> forall|m: int| i <= m ==> !matches_at_ci(s, m, pat),
    ensures
        find_ci_from(s, pat, i) == j,
    decreases j - i,
{
    if i < j {
        lemma_find_ci_from_is(s, pat, (i + 1) as nat, j);
    }
}

/// First case-insensitive occurrence of `pat` at or after `from`, as an
/// absolute index; `s.len()` when there is none.
pub fn find_ci_at(s: &Vec<char>, pat: &Vec<char>, from: usize) -> (r: usize)
    requires
        pat@.len() > 0,
        from <= s@.len(),
    ensures
        r == find_ci_from(s@, pat@, from as nat),
        from <= r <= s@.len(),
        r < s@.len() ==> matches_at_ci(s@, r as int, pat@),
{
    let n = s.len();
    let mut i: usize = from;
    while i < n
        invariant
            from <= i <= n,
            n == s@.len(),
            pat@.len() > 0,
            forall|m: int| from <= m < i ==> !matches_at_ci(s@, m, pat@),
        decreases n - i,
    {
        if match_at_ci(s, i, pat) {
            proof {
                lemma_find_ci_from_is(s@, pat@, from as nat, i as nat);
            }
            return i;
        }
        i += 1;
    }
    proof {
        assert forall|m: int| from <= m implies !matches_at_ci(s@, m, pat@) by {}
        lemma_find_ci_from_is(s@, pat@, from as nat, n as nat);
    }
    n
}

} // verus!
