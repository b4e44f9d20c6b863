//! CSS rule tree-shaking: streaming rule extraction over a style block,
//! a keep/drop decision per rule from the usage index and a static
//! whitelist, and rule-level minification of what is kept.

use vstd::prelude::*;

use crate::scan::{
    attr_value, attr_value_exec, char_pred, find_char_from, find_if_from, lemma_find_gt_from,
    lemma_find_gt_from_is, lemma_find_if_from, lemma_find_if_from_is, lemma_find_if_shift,
    tag_end,
};
use crate::text::{lemma_trim_infix, lemma_trim_of_trim};
use crate::text::{
    contains_cs, is_alnum_char, is_alpha_char, is_atom_char, is_space_char, is_alnum, is_alpha,
    is_atom, is_space, lower_seq, lower_char, push_all, push_range, to_lower_vec, trim_chars,
    trim_spec, str_to_chars, chars_to_string, views_of_strings, string_eq, has_cs,
};

verus! {

/// A selector-token separator: whitespace or a combinator.
pub open spec fn sep_pred() -> spec_fn(char) -> bool {
    |c: char| is_space_char(c) || c == '>' || c == '+' || c == '~'
}

/// A character that ends a selector atom.
pub open spec fn non_atom_pred() -> spec_fn(char) -> bool {
    |c: char| !is_atom_char(c)
}

/// A character that ends the element name at the head of a token.
pub open spec fn elem_end_pred() -> spec_fn(char) -> bool {
    |c: char| c == '.' || c == '#' || c == '[' || c == ':'
}

/// A character that ends the element name for the used-selector check.
pub open spec fn non_alnum_pred() -> spec_fn(char) -> bool {
    |c: char| !is_alnum_char(c)
}

pub open spec fn space_pred() -> spec_fn(char) -> bool {
    |c: char| is_space_char(c)
}

pub open spec fn nonspace_pred() -> spec_fn(char) -> bool {
    |c: char| !is_space_char(c)
}

/// Whitespace runs collapsed to single spaces, with no leading or
/// trailing whitespace.
pub open spec fn collapse_ws_spec(s: Seq<char>, i: nat) -> Seq<char>
    decreases s.len() - i,
    when i <= s.len()
    via collapse_ws_spec_dec
{
    if i >= s.len() {
        Seq::empty()
    } else if is_space_char(s[i as int]) {
        collapse_ws_spec(s, (i + 1) as nat)
    } else {
        let e = find_if_from(s, i, space_pred());
        let nxt = find_if_from(s, e, nonspace_pred());
        s.subrange(i as int, e as int) + (if nxt < s.len() {
            seq![' '] + collapse_ws_spec(s, nxt)
        } else {
            Seq::empty()
        })
    }
}

#[via_fn]
proof fn collapse_ws_spec_dec(s: Seq<char>, i: nat) {
    if i < s.len() && !is_space_char(s[i as int]) {
        lemma_find_if_from(s, i, space_pred());
        let e = find_if_from(s, i, space_pred());
        lemma_find_if_from(s, e, nonspace_pred());
    }
}

/// The minified form of a declaration body: pieces split on `;`,
/// trimmed, empties dropped, each followed by `;`.
pub open spec fn minify_body_core(body: Seq<char>, i: nat) -> Seq<char>
    decreases body.len() - i,
    when i <= body.len()
    via minify_body_core_dec
{
    if i >= body.len() {
        Seq::empty()
    } else {
        let e = find_if_from(body, i, char_pred(';'));
        let t = trim_spec(body.subrange(i as int, e as int));
        (if t.len() > 0 {
            t + seq![';']
        } else {
            Seq::empty()
        }) + (if e < body.len() {
            minify_body_core(body, (e + 1) as nat)
        } else {
            Seq::empty()
        })
    }
}

#[via_fn]
proof fn minify_body_core_dec(body: Seq<char>, i: nat) {
    if i < body.len() {
        lemma_find_if_from(body, i, char_pred(';'));
    }
}

/// The minified declaration body always ends with `;`; an empty or
/// all-whitespace body minifies to `;` alone.
pub open spec fn minify_body_spec(body: Seq<char>) -> Seq<char> {
    let c = minify_body_core(body, 0);
    if c.len() == 0 {
        seq![';']
    } else {
        c
    }
}

/// One past the end of the at-rule that starts the text, found by brace
/// depth counting; `None` when its braces never close.
pub open spec fn at_rule_end_from(css: Seq<char>, i: nat, depth: int, started: bool) -> Option<
    nat,
>
    decreases css.len() - i,
    when i <= css.len()
{
    if i >= css.len() {
        None
    } else if css[i as int] == '{' {
        at_rule_end_from(css, (i + 1) as nat, depth + 1, true)
    } else if css[i as int] == '}' {
        if started && depth - 1 == 0 {
            Some((i + 1) as nat)
        } else {
            at_rule_end_from(css, (i + 1) as nat, depth - 1, started)
        }
    } else {
        at_rule_end_from(css, (i + 1) as nat, depth, started)
    }
}

pub proof fn lemma_at_rule_end_bounds(css: Seq<char>, i: nat, depth: int, started: bool)
    requires
        i <= css.len(),
    ensures
        match at_rule_end_from(css, i, depth, started) {
            Some(e) => i < e <= css.len(),
            None => true,
        },
    decreases css.len() - i,
{
    if i < css.len() {
        if css[i as int] == '{' {
            lemma_at_rule_end_bounds(css, (i + 1) as nat, depth + 1, true);
        } else if css[i as int] == '}' {
            if !(started && depth - 1 == 0) {
                lemma_at_rule_end_bounds(css, (i + 1) as nat, depth - 1, started);
            }
        } else {
            lemma_at_rule_end_bounds(css, (i + 1) as nat, depth, started);
        }
    }
}

/// The whitelist of substrings that force a selector to be kept:
/// prefixes of widely used frameworks and classes toggled from scripts.
pub open spec fn default_whitelist() -> Seq<Seq<char>> {
    seq![
        "wp-"@,
        "admin-bar"@,
        "elementor-"@,
        "e-"@,
        "et_"@,
        "et-"@,
        "divi"@,
        "fl-"@,
        "vc_"@,
        "wpb_"@,
        "avia-"@,
        "av-"@,
        "wpcf7"@,
        "gform"@,
        "gfield"@,
        "woocommerce"@,
        "wc-"@,
        "active"@,
        "open"@,
        "show"@,
        "hidden"@,
        "visible"@,
        "hover"@,
        "focus"@,
        "selected"@,
        "disabled"@,
        "loading"@,
    ]
}

/// Some whitelist pattern occurs in the lowercased selector.
pub open spec fn whitelist_hit(lo: Seq<char>, wl: Seq<Seq<char>>) -> bool {
    exists|k: int| 0 <= k < wl.len() && contains_cs(lo, wl[k])
}

/// The selector names a pseudo-class or pseudo-element that must always
/// be kept.
pub open spec fn pseudo_exception(lo: Seq<char>) -> bool {
    contains_cs(lo, "::"@) || contains_cs(lo, ":hover"@) || contains_cs(lo, ":focus"@)
        || contains_cs(lo, ":active"@) || contains_cs(lo, ":before"@) || contains_cs(
        lo,
        ":after"@,
    ) || contains_cs(lo, ":nth"@) || contains_cs(lo, ":first"@) || contains_cs(lo, ":last"@)
        || contains_cs(lo, ":not"@)
}

/// The class atoms of one token: for each `.`, the maximal run of atom
/// characters after it, prefixed with `.`; empty runs yield nothing.
pub open spec fn class_parts(tok: Seq<char>, i: nat, marker: char) -> Seq<Seq<char>>
    decreases tok.len() - i,
    when i <= tok.len()
    via class_parts_dec
{
    if i >= tok.len() {
        Seq::empty()
    } else if tok[i as int] == marker {
        let a = find_if_from(tok, (i + 1) as nat, non_atom_pred());
        if a > i + 1 {
            seq![seq![marker] + tok.subrange((i + 1) as int, a as int)] + class_parts(
                tok,
                a,
                marker,
            )
        } else {
            class_parts(tok, (i + 1) as nat, marker)
        }
    } else {
        class_parts(tok, (i + 1) as nat, marker)
    }
}

#[via_fn]
proof fn class_parts_dec(tok: Seq<char>, i: nat, marker: char) {
    if i < tok.len() && tok[i as int] == marker {
        lemma_find_if_from(tok, (i + 1) as nat, non_atom_pred());
    }
}

/// The element-name part of one token: its head up to the first `.`,
/// `#`, `[` or `:`, lowercased, if it starts with a letter.
pub open spec fn elem_part(tok: Seq<char>) -> Seq<Seq<char>> {
    let e = find_if_from(tok, 0, elem_end_pred());
    let name = tok.subrange(0, e as int);
    if name.len() > 0 && is_alpha_char(name[0]) {
        seq![lower_seq(name)]
    } else {
        Seq::empty()
    }
}

/// All atoms of one selector token: classes, then ids, then the element
/// name.
pub open spec fn parts_of_token(tok: Seq<char>) -> Seq<Seq<char>> {
    class_parts(tok, 0, '.') + class_parts(tok, 0, '#') + elem_part(tok)
}

/// All atoms of a compound selector: the selector is cut at whitespace
/// and combinators, and each token contributes its atoms.
pub open spec fn selector_parts(sel: Seq<char>, i: nat) -> Seq<Seq<char>>
    decreases sel.len() - i,
    when i <= sel.len()
    via selector_parts_dec
{
    if i >= sel.len() {
        Seq::empty()
    } else if sep_pred()(sel[i as int]) {
        selector_parts(sel, (i + 1) as nat)
    } else {
        let e = find_if_from(sel, i, sep_pred());
        parts_of_token(sel.subrange(i as int, e as int)) + selector_parts(sel, e)
    }
}

#[via_fn]
proof fn selector_parts_dec(sel: Seq<char>, i: nat) {
    if i < sel.len() && !sep_pred()(sel[i as int]) {
        lemma_find_if_from(sel, i, sep_pred());
    }
}

/// The keep/drop decision for one selector: kept when a whitelist
/// pattern occurs in it, when it names a pseudo exception, when it is
/// an at-rule head, when any of its atoms is in the usage index, or
/// when it starts with an element name that the document uses.
pub open spec fn spec_selector_used(
    selector: Seq<char>,
    used: Seq<Seq<char>>,
    wl: Seq<Seq<char>>,
) -> bool {
    let t = trim_spec(selector);
    let lo = lower_seq(t);
    ||| whitelist_hit(lo, wl)
    ||| pseudo_exception(lo)
    ||| (lo.len() > 0 && lo[0] == '@')
    ||| (exists|k: int| 0 <= k < selector_parts(t, 0).len() && used.contains(selector_parts(t, 0)[k]))
    ||| (t.len() > 0 && is_alpha_char(t[0]) && used.contains(
        lower_seq(t.subrange(0, find_if_from(t, 0, non_alnum_pred()) as int)),
    ))
}

/// The CSS tree-shaker: the usage index of the document and the static
/// whitelist of always-kept patterns.
pub struct CssOptimizer {
    /// Selector atoms found in the document.
    pub used_selectors: Vec<String>,
    /// Substring patterns that force a selector to be kept.
    pub whitelist_patterns: Vec<String>,
}

impl CssOptimizer {
    pub open spec fn used_view(&self) -> Seq<Seq<char>> {
        Seq::new(self.used_selectors@.len(), |k: int| self.used_selectors@[k]@)
    }

    pub open spec fn wl_view(&self) -> Seq<Seq<char>> {
        Seq::new(self.whitelist_patterns@.len(), |k: int| self.whitelist_patterns@[k]@)
    }

    /// A fresh tree-shaker with an empty usage index and the default
    /// whitelist.
    pub fn new() -> (r: CssOptimizer)
        ensures
            r.used_selectors@.len() == 0,
            r.used_view() == Seq::<Seq<char>>::empty(),
            r.wl_view() == default_whitelist(),
    {
        let mut wl: Vec<String> = Vec::new();
        wl.push(String::from_str("wp-"));
        wl.push(String::from_str("admin-bar"));
        wl.push(String::from_str("elementor-"));
        wl.push(String::from_str("e-"));
        wl.push(String::from_str("et_"));
        wl.push(String::from_str("et-"));
        wl.push(String::from_str("divi"));
        wl.push(String::from_str("fl-"));
        wl.push(String::from_str("vc_"));
        wl.push(String::from_str("wpb_"));
        wl.push(String::from_str("avia-"));
        wl.push(String::from_str("av-"));
        wl.push(String::from_str("wpcf7"));
        wl.push(String::from_str("gform"));
        wl.push(String::from_str("gfield"));
        wl.push(String::from_str("woocommerce"));
        wl.push(String::from_str("wc-"));
        wl.push(String::from_str("active"));
        wl.push(String::from_str("open"));
        wl.push(String::from_str("show"));
        wl.push(String::from_str("hidden"));
        wl.push(String::from_str("visible"));
        wl.push(String::from_str("hover"));
        wl.push(String::from_str("focus"));
        wl.push(String::from_str("selected"));
        wl.push(String::from_str("disabled"));
        wl.push(String::from_str("loading"));
        let r = CssOptimizer { used_selectors: Vec::new(), whitelist_patterns: wl };
        proof {
            assert(r.wl_view() =~= default_whitelist());
            assert(r.used_view() =~= Seq::<Seq<char>>::empty());
        }
        r
    }

    /// A tree-shaker whose usage index holds exactly the given atoms.
    pub fn with_selectors(selectors: &[String]) -> (r: CssOptimizer)
        ensures
            r.used_view() == selectors.deep_view(),
            r.wl_view() == default_whitelist(),
    {
        let mut opt = Self::new();
        let mut i: usize = 0;
        while i < selectors.len()
            invariant
                i <= selectors@.len(),
                opt.used_selectors@.len() == i,
                forall|k: int| 0 <= k < i ==> opt.used_selectors@[k]@ == selectors@[k]@,
                opt.wl_view() == default_whitelist(),
            decreases selectors@.len() - i,
        {
            opt.used_selectors.push(selectors[i].clone());
            i += 1;
        }
        proof {
            assert(opt.used_view() =~= selectors.deep_view());
        }
        opt
    }
}


/// Collapse whitespace runs in `s` to single spaces.
fn collapse_ws_chars(s: &Vec<char>) -> (r: Vec<char>)
    ensures
        r@ == collapse_ws_spec(s@, 0),
{
    let n = s.len();
    let mut out: Vec<char> = Vec::new();
    let mut i: usize = 0;
    while i < n
        invariant
            i <= n,
            n == s@.len(),
            collapse_ws_spec(s@, 0) == out@ + collapse_ws_spec(s@, i as nat),
        decreases n - i,
    {
        if is_space(s[i]) {
            i += 1;
        } else {
            let mut j: usize = i;
            while j < n && !is_space(s[j])
                invariant
                    i <= j <= n,
                    n == s@.len(),
                    forall|m: int| i <= m < j ==> !is_space_char(s@[m]),
                decreases n - j,
            {
                j += 1;
            }
            proof {
                lemma_find_if_from_is(s@, i as nat, j as nat, space_pred());
            }
            let mut k: usize = j;
            while k < n && is_space(s[k])
                invariant
                    j <= k <= n,
                    n == s@.len(),
                    forall|m: int| j <= m < k ==> is_space_char(s@[m]),
                decreases n - k,
            {
                k += 1;
            }
            proof {
                lemma_find_if_from_is(s@, j as nat, k as nat, nonspace_pred());
            }
            let ghost old_out = out@;
            push_range(&mut out, s, i, j);
            if k < n {
                out.push(' ');
                proof {
                    assert(out@ =~= old_out + (s@.subrange(i as int, j as int) + seq![' ']));
                    assert(s@.subrange(i as int, j as int) + seq![' '] + collapse_ws_spec(
                        s@,
                        k as nat,
                    ) =~= s@.subrange(i as int, j as int) + (seq![' '] + collapse_ws_spec(
                        s@,
                        k as nat,
                    )));
                }
            }
            i = k;
        }
    }
    proof {
        assert(out@ =~= collapse_ws_spec(s@, 0));
    }
    out
}

/// Minify a declaration body: split on `;`, trim, drop empties, rejoin
/// with a trailing `;`.
fn minify_body_chars(body: &Vec<char>) -> (r: Vec<char>)
    ensures
        r@ == minify_body_spec(body@),
{
    let n = body.len();
    let mut out: Vec<char> = Vec::new();
    let mut i: usize = 0;
    let mut done: bool = false;
    while !done
        invariant
            i <= n,
            n == body@.len(),
            done ==> i == n || out@ == minify_body_core(body@, 0),
            !done ==> minify_body_core(body@, 0) == out@ + minify_body_core(body@, i as nat),
            done && i == n ==> out@ == minify_body_core(body@, 0),
        decreases n - i + (if done { 0int } else { 1int }),
    {
        if i >= n {
            done = true;
        } else {
            let e = find_char_from(body, i, ';');
            let mut piece: Vec<char> = Vec::new();
            push_range(&mut piece, body, i, e);
            let tv = trim_chars(&piece);
            proof {
                assert(piece@ =~= body@.subrange(i as int, e as int));
            }
            if tv.len() > 0 {
                push_all(&mut out, &tv);
                out.push(';');
            }
            proof {
                assert(out@ =~= out@);
            }
            if e < n {
                proof {
                    let t = trim_spec(body@.subrange(i as int, e as int));
                    if t.len() > 0 {
                        assert(out@ =~= (out@.subrange(
                            0,
                            out@.len() - t.len() - 1,
                        ) + (t + seq![';'])));
                    }
                }
                i = e + 1;
            } else {
                i = n;
                done = true;
            }
        }
    }
    if out.len() == 0 {
        out.push(';');
        proof {
            assert(out@ =~= seq![';']);
        }
    }
    out
}

/// Append the atoms that the `marker` scan of one token yields.
fn push_marker_parts(out: &mut Vec<String>, tok: &Vec<char>, marker: char)
    ensures
        views_of_strings(final(out)@) == views_of_strings(old(out)@) + class_parts(
            tok@,
            0,
            marker,
        ),
{
    let n = tok.len();
    let mut i: usize = 0;
    while i < n
        invariant
            i <= n,
            n == tok@.len(),
            views_of_strings(old(out)@) + class_parts(tok@, 0, marker) == views_of_strings(out@)
                + class_parts(tok@, i as nat, marker),
        decreases n - i,
    {
        if tok[i] == marker {
            let mut a: usize = i + 1;
            while a < n && is_atom(tok[a])
                invariant
                    i + 1 <= a <= n,
                    n == tok@.len(),
                    forall|m: int| i + 1 <= m < a ==> is_atom_char(tok@[m]),
                decreases n - a,
            {
                a += 1;
            }
            proof {
                lemma_find_if_from_is(tok@, (i + 1) as nat, a as nat, non_atom_pred());
            }
            if a > i + 1 {
                let mut part: Vec<char> = Vec::new();
                part.push(marker);
                push_range(&mut part, tok, i + 1, a);
                let s = chars_to_string(&part);
                out.push(s);
                proof {
                    assert(part@ =~= seq![marker] + tok@.subrange((i + 1) as int, a as int));
                    assert(views_of_strings(out@) =~= views_of_strings(out@.drop_last()) + seq![
                        part@,
                    ]);
                    assert(views_of_strings(out@.drop_last()) + (seq![part@] + class_parts(
                        tok@,
                        a as nat,
                        marker,
                    )) =~= views_of_strings(out@) + class_parts(tok@, a as nat, marker));
                }
                i = a;
            } else {
                i += 1;
            }
        } else {
            i += 1;
        }
    }
}

/// Append the element-name atom of one token, when it has one.
fn push_elem_part(out: &mut Vec<String>, tok: &Vec<char>)
    ensures
        views_of_strings(final(out)@) == views_of_strings(old(out)@) + elem_part(tok@),
{
    let n = tok.len();
    let mut e: usize = 0;
    while e < n && !(tok[e] == '.' || tok[e] == '#' || tok[e] == '[' || tok[e] == ':')
        invariant
            e <= n,
            n == tok@.len(),
            forall|m: int|
                0 <= m < e ==> !(tok@[m] == '.' || tok@[m] == '#' || tok@[m] == '[' || tok@[m]
                    == ':'),
        decreases n - e,
    {
        e += 1;
    }
    proof {
        lemma_find_if_from_is(tok@, 0, e as nat, elem_end_pred());
    }
    if e > 0 && is_alpha(tok[0]) {
        let mut name: Vec<char> = Vec::new();
        push_range(&mut name, tok, 0, e);
        proof {
            assert(name@ =~= tok@.subrange(0, e as int));
        }
        let lowered = to_lower_vec(&name);
        let s = chars_to_string(&lowered);
        out.push(s);
        proof {
            assert(views_of_strings(out@) =~= views_of_strings(out@.drop_last()) + seq![lowered@]);
        }
    } else {
        proof {
            assert(views_of_strings(out@) + elem_part(tok@) =~= views_of_strings(out@));
        }
    }
}

impl CssOptimizer {
    /// Decompose a compound selector into its atoms: for each token,
    /// the `.class` atoms, the `#id` atoms, and a leading element name.
    pub fn parse_selector_parts(&self, selector: &str) -> (r: Vec<String>)
        ensures
            views_of_strings(r@) == selector_parts(selector@, 0),
    {
        let v = str_to_chars(selector);
        let n = v.len();
        let mut out: Vec<String> = Vec::new();
        let mut i: usize = 0;
        proof {
            assert(views_of_strings(out@) + selector_parts(v@, 0) =~= selector_parts(v@, 0));
        }
        while i < n
            invariant
                i <= n,
                n == v@.len(),
                v@ == selector@,
                selector_parts(v@, 0) == views_of_strings(out@) + selector_parts(v@, i as nat),
            decreases n - i,
        {
            let c = v[i];
            if is_space(c) || c == '>' || c == '+' || c == '~' {
                i += 1;
            } else {
                let mut j: usize = i;
                while j < n && !(is_space(v[j]) || v[j] == '>' || v[j] == '+' || v[j] == '~')
                    invariant
                        i <= j <= n,
                        n == v@.len(),
                        forall|m: int| i <= m < j ==> !sep_pred()(v@[m]),
                    decreases n - j,
                {
                    j += 1;
                }
                proof {
                    lemma_find_if_from_is(v@, i as nat, j as nat, sep_pred());
                }
                let mut tok: Vec<char> = Vec::new();
                push_range(&mut tok, &v, i, j);
                proof {
                    assert(tok@ =~= v@.subrange(i as int, j as int));
                }
                let ghost before = out@;
                push_marker_parts(&mut out, &tok, '.');
                push_marker_parts(&mut out, &tok, '#');
                push_elem_part(&mut out, &tok);
                proof {
                    assert(views_of_strings(out@) =~= views_of_strings(before) + parts_of_token(
                        tok@,
                    ));
                    assert(views_of_strings(before) + (parts_of_token(tok@) + selector_parts(
                        v@,
                        j as nat,
                    )) =~= views_of_strings(out@) + selector_parts(v@, j as nat));
                }
                i = j;
            }
        }
        proof {
            assert(views_of_strings(out@) =~= selector_parts(v@, 0));
        }
        out
    }

    /// Whether a selector is kept: a whitelist pattern occurs in it, it
    /// names a pseudo exception, it is an at-rule head, one of its
    /// atoms is in the usage index, or its leading element name is.
    pub fn is_selector_used(&self, selector: &str) -> (r: bool)
        ensures
            r == spec_selector_used(selector@, self.used_view(), self.wl_view()),
    {
        let chars = str_to_chars(selector);
        let t = trim_chars(&chars);
        let lo = to_lower_vec(&t);

        // whitelist patterns
        let mut k: usize = 0;
        while k < self.whitelist_patterns.len()
            invariant
                k <= self.whitelist_patterns@.len(),
                lo@ == lower_seq(trim_spec(selector@)),
                forall|m: int| 0 <= m < k ==> !contains_cs(lo@, self.wl_view()[m]),
            decreases self.whitelist_patterns@.len() - k,
        {
            let pat = str_to_chars(self.whitelist_patterns[k].as_str());
            if pat.len() == 0 {
                proof {
                    assert(crate::text::matches_at_cs(lo@, 0, pat@));
                    assert(contains_cs(lo@, self.wl_view()[k as int]));
                    assert(whitelist_hit(lo@, self.wl_view()));
                }
                return true;
            }
            if has_cs(&lo, &pat) {
                proof {
                    assert(contains_cs(lo@, self.wl_view()[k as int]));
                    assert(whitelist_hit(lo@, self.wl_view()));
                }
                return true;
            }
            k += 1;
        }

        // pseudo-class and pseudo-element exceptions
        proof {
            reveal_strlit("::");
            reveal_strlit(":hover");
            reveal_strlit(":focus");
            reveal_strlit(":active");
            reveal_strlit(":before");
            reveal_strlit(":after");
            reveal_strlit(":nth");
            reveal_strlit(":first");
            reveal_strlit(":last");
            reveal_strlit(":not");
        }
        if has_cs(&lo, &str_to_chars("::")) || has_cs(&lo, &str_to_chars(":hover")) || has_cs(
            &lo,
            &str_to_chars(":focus"),
        ) || has_cs(&lo, &str_to_chars(":active")) || has_cs(&lo, &str_to_chars(":before"))
            || has_cs(&lo, &str_to_chars(":after")) || has_cs(&lo, &str_to_chars(":nth"))
            || has_cs(&lo, &str_to_chars(":first")) || has_cs(&lo, &str_to_chars(":last"))
            || has_cs(&lo, &str_to_chars(":not")) {
            return true;
        }

        // at-rule heads are always kept
        if lo.len() > 0 && lo[0] == '@' {
            return true;
        }

        // any atom present in the usage index
        let t_str = chars_to_string(&t);
        let parts = self.parse_selector_parts(t_str.as_str());
        let mut p: usize = 0;
        while p < parts.len()
            invariant
                p <= parts@.len(),
                views_of_strings(parts@) == selector_parts(trim_spec(selector@), 0),
                forall|m: int|
                    0 <= m < p ==> !self.used_view().contains(views_of_strings(parts@)[m]),
            decreases parts@.len() - p,
        {
            let mut u: usize = 0;
            while u < self.used_selectors.len()
                invariant
                    p < parts@.len(),
                    u <= self.used_selectors@.len(),
                    views_of_strings(parts@) == selector_parts(trim_spec(selector@), 0),
                    forall|m: int|
                        0 <= m < u ==> self.used_view()[m] != views_of_strings(parts@)[p as int],
                decreases self.used_selectors@.len() - u,
            {
                if string_eq(&parts[p], &self.used_selectors[u]) {
                    proof {
                        let x = selector_parts(trim_spec(selector@), 0)[p as int];
                        assert(views_of_strings(parts@)[p as int] == parts@[p as int]@);
                        assert(x == parts@[p as int]@);
                        assert(self.used_view()[u as int] == x);
                        assert(0 <= u < self.used_view().len());
                        assert(self.used_view().contains(x));
                    }
                    return true;
                }
                u += 1;
            }
            p += 1;
        }

        // leading element name present in the usage index
        if t.len() > 0 && is_alpha(t[0]) {
            let n = t.len();
            let mut e: usize = 0;
            while e < n && is_alnum(t[e])
                invariant
                    e <= n,
                    n == t@.len(),
                    forall|m: int| 0 <= m < e ==> is_alnum_char(t@[m]),
                decreases n - e,
            {
                e += 1;
            }
            proof {
                lemma_find_if_from_is(t@, 0, e as nat, non_alnum_pred());
            }
            let mut name: Vec<char> = Vec::new();
            push_range(&mut name, &t, 0, e);
            proof {
                assert(name@ =~= t@.subrange(0, e as int));
            }
            let lname = to_lower_vec(&name);
            let lname_s = chars_to_string(&lname);
            let mut u: usize = 0;
            while u < self.used_selectors.len()
                invariant
                    u <= self.used_selectors@.len(),
                    trim_spec(selector@).len() > 0,
                    is_alpha_char(trim_spec(selector@)[0]),
                    lname_s@ == lower_seq(
                        trim_spec(selector@).subrange(
                            0,
                            find_if_from(trim_spec(selector@), 0, non_alnum_pred()) as int,
                        ),
                    ),
                    forall|m: int| 0 <= m < u ==> self.used_view()[m] != lname_s@,
                decreases self.used_selectors@.len() - u,
            {
                if string_eq(&lname_s, &self.used_selectors[u]) {
                    proof {
                        let x = lower_seq(
                            trim_spec(selector@).subrange(
                                0,
                                find_if_from(trim_spec(selector@), 0, non_alnum_pred()) as int,
                            ),
                        );
                        assert(x == lname_s@);
                        assert(self.used_view()[u as int] == x);
                        assert(0 <= u < self.used_view().len());
                        assert(self.used_view().contains(x));
                    }
                    return true;
                }
                u += 1;
            }
        }
        false
    }
}

/// The tree-shaken, minified form of a style block: at-rules are kept
/// verbatim, other rules are kept minified when their selector is used
/// and dropped otherwise, and malformed tails are passed through.
pub open spec fn shake_css(
    css: Seq<char>,
    i: nat,
    used: Seq<Seq<char>>,
    wl: Seq<Seq<char>>,
) -> Seq<char>
    decreases css.len() - i,
    when i <= css.len()
    via shake_css_dec
{
    if i >= css.len() {
        Seq::empty()
    } else {
        let b = find_if_from(css, i, char_pred('{'));
        if b >= css.len() {
            trim_spec(css.skip(i as int))
        } else {
            let selector = trim_spec(css.subrange(i as int, b as int));
            if selector.len() > 0 && selector[0] == '@' && at_rule_end_from(
                css.skip(i as int),
                0,
                0,
                false,
            ) is Some {
                let e = at_rule_end_from(css.skip(i as int), 0, 0, false)->0;
                css.subrange(i as int, i + e as int) + shake_css(css, (i + e) as nat, used, wl)
            } else {
                let close = find_if_from(css, b, char_pred('}'));
                if close >= css.len() {
                    css.skip(i as int)
                } else {
                    (if spec_selector_used(selector, used, wl) {
                        collapse_ws_spec(selector, 0) + seq!['{'] + minify_body_spec(
                            css.subrange((b + 1) as int, close as int),
                        ) + seq!['}']
                    } else {
                        Seq::empty()
                    }) + shake_css(css, (close + 1) as nat, used, wl)
                }
            }
        }
    }
}

#[via_fn]
proof fn shake_css_dec(css: Seq<char>, i: nat, used: Seq<Seq<char>>, wl: Seq<Seq<char>>) {
    if i < css.len() {
        lemma_find_if_from(css, i, char_pred('{'));
        let b = find_if_from(css, i, char_pred('{'));
        if b < css.len() {
            lemma_at_rule_end_bounds(css.skip(i as int), 0, 0, false);
            lemma_find_if_from(css, b, char_pred('}'));
        }
    }
}

/// Brace-depth scan for the end of an at-rule in `v`.
fn at_rule_end_exec(v: &Vec<char>) -> (r: Option<usize>)
    ensures
        match r {
            Some(e) => at_rule_end_from(v@, 0, 0, false) == Some(e as nat) && 0 < e <= v@.len(),
            None => at_rule_end_from(v@, 0, 0, false) is None,
        },
{
    let n = v.len();
    let mut i: usize = 0;
    let mut depth: i128 = 0;
    let mut started: bool = false;
    while i < n
        invariant
            i <= n,
            n == v@.len(),
            -(i as int) <= depth <= i as int,
            at_rule_end_from(v@, 0, 0, false) == at_rule_end_from(
                v@,
                i as nat,
                depth as int,
                started,
            ),
        decreases n - i,
    {
        let c = v[i];
        if c == '{' {
            depth = depth + 1;
            started = true;
        } else if c == '}' {
            if started && depth - 1 == 0 {
                return Some(i + 1);
            }
            depth = depth - 1;
        }
        i += 1;
    }
    None
}

impl CssOptimizer {
    /// The full at-rule at the head of `css`, found by brace-depth
    /// counting, or `None` when its braces never close.
    pub fn extract_at_rule(&self, css: &str) -> (r: Option<String>)
        ensures
            match r {
                Some(x) => at_rule_end_from(css@, 0, 0, false) is Some && x@ == css@.take(
                    at_rule_end_from(css@, 0, 0, false)->0 as int,
                ),
                None => at_rule_end_from(css@, 0, 0, false) is None,
            },
    {
        let v = str_to_chars(css);
        match at_rule_end_exec(&v) {
            Some(e) => {
                let mut out: Vec<char> = Vec::new();
                push_range(&mut out, &v, 0, e);
                proof {
                    assert(out@ =~= css@.take(e as int));
                }
                Some(chars_to_string(&out))
            },
            None => None,
        }
    }

    /// Tree-shake a style block: keep at-rules verbatim, keep used
    /// rules minified, drop unused rules, pass malformed tails through.
    pub fn remove_unused_css(&self, css: &str) -> (r: Result<String, String>)
        ensures
            r is Ok,
            r->Ok_0@ == shake_css(css@, 0, self.used_view(), self.wl_view()),
    {
        let v = str_to_chars(css);
        let n = v.len();
        let mut out: Vec<char> = Vec::new();
        let mut i: usize = 0;
        let ghost used = self.used_view();
        let ghost wl = self.wl_view();
        while i < n
            invariant
                i <= n,
                n == v@.len(),
                v@ == css@,
                used == self.used_view(),
                wl == self.wl_view(),
                shake_css(v@, 0, used, wl) == out@ + shake_css(v@, i as nat, used, wl),
            decreases n - i,
        {
            let b = find_char_from(&v, i, '{');
            if b >= n {
                let mut rest: Vec<char> = Vec::new();
                push_range(&mut rest, &v, i, n);
                proof {
                    assert(rest@ =~= v@.skip(i as int));
                }
                let tr = trim_chars(&rest);
                push_all(&mut out, &tr);
                i = n;
            } else {
                let mut selv: Vec<char> = Vec::new();
                push_range(&mut selv, &v, i, b);
                proof {
                    assert(selv@ =~= v@.subrange(i as int, b as int));
                }
                let sel_t = trim_chars(&selv);
                let mut handled = false;
                if sel_t.len() > 0 && sel_t[0] == '@' {
                    let mut rest: Vec<char> = Vec::new();
                    push_range(&mut rest, &v, i, n);
                    proof {
                        assert(rest@ =~= v@.skip(i as int));
                    }
                    match at_rule_end_exec(&rest) {
                        Some(e) => {
                            push_range(&mut out, &v, i, i + e);
                            proof {
                                assert(v@.subrange(i as int, i + e) =~= rest@.take(e as int));
                            }
                            i = i + e;
                            handled = true;
                        },
                        None => {},
                    }
                }
                if !handled {
                    let close = find_char_from(&v, b, '}');
                    if close >= n {
                        push_range(&mut out, &v, i, n);
                        proof {
                            assert(v@.subrange(i as int, n as int) =~= v@.skip(i as int));
                        }
                        i = n;
                    } else {
                        let sel_str = chars_to_string(&sel_t);
                        if self.is_selector_used(sel_str.as_str()) {
                            proof {
                                assert(trim_spec(sel_t@) == sel_t@) by {
                                    crate::text::lemma_trim_of_trim(selv@);
                                }
                            }
                            let csel = collapse_ws_chars(&sel_t);
                            push_all(&mut out, &csel);
                            out.push('{');
                            let mut bodyv: Vec<char> = Vec::new();
                            push_range(&mut bodyv, &v, b + 1, close);
                            proof {
                                assert(bodyv@ =~= v@.subrange((b + 1) as int, close as int));
                            }
                            let mbody = minify_body_chars(&bodyv);
                            push_all(&mut out, &mbody);
                            out.push('}');
                        }
                        i = close + 1;
                    }
                }
            }
        }
        proof {
            assert(out@ =~= shake_css(v@, 0, used, wl));
        }
        Ok(chars_to_string(&out))
    }
}

/// A character that ends a tag name.
pub open spec fn tag_name_end_pred() -> spec_fn(char) -> bool {
    |c: char| !(is_alnum_char(c) || c == '-')
}

/// The whitespace-separated tokens of a `class` attribute value, each
/// as a `.class` atom.
pub open spec fn class_atoms(v: Seq<char>, i: nat) -> Seq<Seq<char>>
    decreases v.len() - i,
    when i <= v.len()
    via class_atoms_dec
{
    if i >= v.len() {
        Seq::empty()
    } else if is_space_char(v[i as int]) {
        class_atoms(v, (i + 1) as nat)
    } else {
        let e = find_if_from(v, i, space_pred());
        seq![seq!['.'] + v.subrange(i as int, e as int)] + class_atoms(v, e)
    }
}

#[via_fn]
proof fn class_atoms_dec(v: Seq<char>, i: nat) {
    if i < v.len() && !is_space_char(v[i as int]) {
        lemma_find_if_from(v, i, space_pred());
    }
}

/// The atoms one element tag contributes to the usage index: its
/// lowercased name, a `.class` atom per class token, and a `#id` atom.
pub open spec fn tag_atoms(tag: Seq<char>) -> Seq<Seq<char>> {
    let ne = find_if_from(tag, 1, tag_name_end_pred());
    let name = lower_seq(tag.subrange(1, ne as int));
    let cls = match attr_value(tag, "class"@) {
        Some(v) => class_atoms(v, 0),
        None => Seq::empty(),
    };
    let ids = match attr_value(tag, "id"@) {
        Some(v) => seq![seq!['#'] + v],
        None => Seq::empty(),
    };
    seq![name] + cls + ids
}

/// The atoms every full document implies: a parser inserts `html`,
/// `head` and `body` elements whether or not they are written, so
/// their rules must always count as used.
pub open spec fn implied_atoms() -> Seq<Seq<char>> {
    seq!["html"@, "head"@, "body"@]
}

/// The atoms of every element tag of the document, in scan order.
pub open spec fn used_atoms(html: Seq<char>, i: nat) -> Seq<Seq<char>>
    decreases html.len() - i,
    when i <= html.len()
    via used_atoms_dec
{
    if i >= html.len() {
        Seq::empty()
    } else if html[i as int] == '<' && i + 1 < html.len() && is_alpha_char(
        html[(i + 1) as int],
    ) {
        let e = tag_end(html, i);
        tag_atoms(html.subrange(i as int, e as int)) + used_atoms(html, e)
    } else {
        used_atoms(html, (i + 1) as nat)
    }
}

#[via_fn]
proof fn used_atoms_dec(html: Seq<char>, i: nat) {
    if i < html.len() {
        lemma_find_gt_from(html, i);
    }
}

/// Append the atoms of one element tag to the usage index.
fn push_tag_atoms(out: &mut Vec<String>, tag: &Vec<char>)
    requires
        tag@.len() >= 2,
    ensures
        views_of_strings(final(out)@) == views_of_strings(old(out)@) + tag_atoms(tag@),
{
    let n = tag.len();
    let mut ne: usize = 1;
    while ne < n && (is_alnum(tag[ne]) || tag[ne] == '-')
        invariant
            1 <= ne <= n,
            n == tag@.len(),
            forall|m: int| 1 <= m < ne ==> (is_alnum_char(tag@[m]) || tag@[m] == '-'),
        decreases n - ne,
    {
        ne += 1;
    }
    proof {
        lemma_find_if_from_is(tag@, 1, ne as nat, tag_name_end_pred());
    }
    let mut namev: Vec<char> = Vec::new();
    push_range(&mut namev, tag, 1, ne);
    proof {
        assert(namev@ =~= tag@.subrange(1, ne as int));
    }
    let lname = to_lower_vec(&namev);
    out.push(chars_to_string(&lname));
    proof {
        assert(views_of_strings(out@) =~= views_of_strings(out@.drop_last()) + seq![lname@]);
    }
    let ghost after_name = out@;
    let ghost cls = match attr_value(tag@, "class"@) {
        Some(v0) => class_atoms(v0, 0),
        None => Seq::<Seq<char>>::empty(),
    };
    let ghost ids = match attr_value(tag@, "id"@) {
        Some(v0) => seq![seq!['#'] + v0],
        None => Seq::<Seq<char>>::empty(),
    };
    match attr_value_exec(tag, &str_to_chars("class")) {
        Some(v) => {
            let vn = v.len();
            let mut i: usize = 0;
            while i < vn
                invariant
                    i <= vn,
                    vn == v@.len(),
                    views_of_strings(after_name) + class_atoms(v@, 0) == views_of_strings(out@)
                        + class_atoms(v@, i as nat),
                decreases vn - i,
            {
                if is_space(v[i]) {
                    i += 1;
                } else {
                    let mut j: usize = i;
                    while j < vn && !is_space(v[j])
                        invariant
                            i <= j <= vn,
                            vn == v@.len(),
                            forall|m: int| i <= m < j ==> !is_space_char(v@[m]),
                        decreases vn - j,
                    {
                        j += 1;
                    }
                    proof {
                        lemma_find_if_from_is(v@, i as nat, j as nat, space_pred());
                    }
                    let mut atom: Vec<char> = Vec::new();
                    atom.push('.');
                    push_range(&mut atom, &v, i, j);
                    out.push(chars_to_string(&atom));
                    proof {
                        assert(atom@ =~= seq!['.'] + v@.subrange(i as int, j as int));
                        assert(views_of_strings(out@) =~= views_of_strings(out@.drop_last())
                            + seq![atom@]);
                        assert(views_of_strings(out@.drop_last()) + (seq![atom@] + class_atoms(
                            v@,
                            j as nat,
                        )) =~= views_of_strings(out@) + class_atoms(v@, j as nat));
                    }
                    i = j;
                }
            }
            proof {
                assert(views_of_strings(out@) =~= views_of_strings(after_name) + cls);
            }
        },
        None => {
            proof {
                assert(views_of_strings(out@) =~= views_of_strings(after_name) + cls);
            }
        },
    }
    let ghost after_class = out@;
    match attr_value_exec(tag, &str_to_chars("id")) {
        Some(v) => {
            let mut atom: Vec<char> = Vec::new();
            atom.push('#');
            push_all(&mut atom, &v);
            out.push(chars_to_string(&atom));
            proof {
                assert(atom@ =~= seq!['#'] + v@);
                assert(views_of_strings(out@) =~= views_of_strings(out@.drop_last()) + seq![
                    atom@,
                ]);
                assert(views_of_strings(out@) =~= views_of_strings(after_class) + ids);
            }
        },
        None => {
            proof {
                assert(views_of_strings(out@) =~= views_of_strings(after_class) + ids);
            }
        },
    }
    proof {
        assert(views_of_strings(after_name) =~= views_of_strings(old(out)@) + seq![lname@]);
        assert(tag_atoms(tag@) == seq![
            lower_seq(tag@.subrange(1, find_if_from(tag@, 1, tag_name_end_pred()) as int)),
        ] + cls + ids);
        assert(views_of_strings(out@) =~= views_of_strings(old(out)@) + tag_atoms(tag@));
    }
}

impl CssOptimizer {
    /// Walk the document once and record every atom it uses: element
    /// names, `.class` tokens and `#id` values.
    pub fn extract_used_selectors(&mut self, html: &str)
        ensures
            final(self).used_view() == old(self).used_view() + implied_atoms() + used_atoms(
                html@,
                0,
            ),
            final(self).whitelist_patterns == old(self).whitelist_patterns,
    {
        let v = str_to_chars(html);
        let n = v.len();
        let mut i: usize = 0;
        self.used_selectors.push(String::from_str("html"));
        self.used_selectors.push(String::from_str("head"));
        self.used_selectors.push(String::from_str("body"));
        proof {
            assert(self.used_view() =~= old(self).used_view() + implied_atoms());
            assert(self.used_view() + used_atoms(v@, 0) =~= old(self).used_view()
                + implied_atoms() + used_atoms(v@, 0));
        }
        while i < n
            invariant
                i <= n,
                n == v@.len(),
                v@ == html@,
                self.whitelist_patterns == old(self).whitelist_patterns,
                old(self).used_view() + implied_atoms() + used_atoms(v@, 0) == self.used_view()
                    + used_atoms(v@, i as nat),
            decreases n - i,
        {
            if v[i] == '<' && i + 1 < n && is_alpha(v[i + 1]) {
                let mut j: usize = i;
                while j < n && v[j] != '>'
                    invariant
                        i <= j <= n,
                        n == v@.len(),
                        v@[i as int] == '<',
                        i + 1 < n,
                        is_alpha_char(v@[(i + 1) as int]),
                        forall|m: int| i <= m < j ==> v@[m] != '>',
                    decreases n - j,
                {
                    j += 1;
                }
                proof {
                    lemma_find_gt_from_is(v@, i as nat, j as nat);
                }
                let e = if j < n {
                    j + 1
                } else {
                    n
                };
                assert(e >= i + 2);
                let mut tag: Vec<char> = Vec::new();
                push_range(&mut tag, &v, i, e);
                proof {
                    assert(tag@ =~= v@.subrange(i as int, e as int));
                }
                push_tag_atoms(&mut self.used_selectors, &tag);
                proof {
                    assert(used_atoms(v@, i as nat) =~= tag_atoms(tag@) + used_atoms(
                        v@,
                        e as nat,
                    ));
                }
                i = e;
            } else {
                i += 1;
            }
        }
    }

    /// The usage index of a document, as a fresh list of atoms.
    pub fn extract_used_selectors_static(html: &str) -> (r: Vec<String>)
        ensures
            views_of_strings(r@) == implied_atoms() + used_atoms(html@, 0),
    {
        let mut opt = Self::new();
        opt.extract_used_selectors(html);
        proof {
            assert(views_of_strings(opt.used_selectors@) =~= implied_atoms() + used_atoms(
                html@,
                0,
            ));
        }
        opt.used_selectors
    }
}

/// What lightningcss produces for a stylesheet: a pure function of the
/// source text alone.
pub uninterp spec fn css_minified_of(css: Seq<char>) -> Seq<char>;

/// Whether lightningcss accepts a stylesheet: parsing and printing
/// either both succeed or fail, as a pure function of the source text
/// alone.
pub uninterp spec fn css_parses(css: Seq<char>) -> bool;

/// Relies on lightningcss: `StyleSheet::parse` followed by `to_css`
/// with `minify: true`.  Acceptance and the printed stylesheet depend
/// on the source text alone; a source the parser or printer rejects
/// yields an error.
#[verifier::external_body]
pub fn minify_css(css: &str) -> (r: Result<String, String>)
    ensures
        r is Ok <==> css_parses(css@),
        r is Ok ==> r->Ok_0@ == css_minified_of(css@),
{
    let opts = lightningcss::stylesheet::ParserOptions::default();
    let printer_opts = lightningcss::stylesheet::PrinterOptions {
        minify: true,
        ..Default::default()
    };
    let stylesheet = lightningcss::stylesheet::StyleSheet::parse(css, opts)
        .map_err(|e| format!("CSS parse error: {:?}", e))?;
    let result = stylesheet.to_css(printer_opts)
        .map_err(|e| format!("CSS print error: {:?}", e))?;
    Ok(result.code)
}

/// CSS optimization result.
pub struct CssResult {
    /// Critical CSS to inline in the document head.
    pub critical_css: String,
    /// Non-critical CSS to defer.
    pub deferred_css: String,
    /// Original total CSS size.
    pub original_size: usize,
    /// Optimized total CSS size.
    pub optimized_size: usize,
    /// Tenths of a percent of CSS removed.
    pub unused_removed_tenths: i128,
}

impl CssOptimizer {
    /// Minify a whole stylesheet and treat all of it as critical.
    pub fn extract_critical_css(&self, css: &str, _html: &str) -> (r: Result<CssResult, String>)
        ensures
            r is Ok <==> css_parses(css@),
            match r {
                Ok(res) => {
                    &&& res.critical_css@ == css_minified_of(css@)
                    &&& res.deferred_css@ == Seq::<char>::empty()
                    &&& res.original_size == css@.len()
                    &&& res.unused_removed_tenths == crate::stats::reduction_tenths(
                        css@.len() as int,
                        res.optimized_size as int,
                    )
                },
                Err(_) => true,
            },
    {
        let original_size = css.unicode_len();
        let minified = match minify_css(css) {
            Ok(m) => m,
            Err(e) => {
                return Err(e);
            },
        };
        let optimized_size = minified.as_str().unicode_len();
        let tenths = crate::stats::reduction_tenths_exec(original_size, optimized_size);
        Ok(
            CssResult {
                critical_css: minified,
                deferred_css: String::new(),
                original_size,
                optimized_size,
                unused_removed_tenths: tenths,
            },
        )
    }
}

proof fn lemma_core_shift(b: Seq<char>, i: nat)
    requires
        i <= b.len(),
    ensures
        minify_body_core(b, i) == minify_body_core(b.skip(i as int), 0),
    decreases b.len() - i,
{
    let suf = b.skip(i as int);
    if i >= b.len() {
        assert(suf.len() == 0);
    } else {
        let e = find_if_from(b, i, char_pred(';'));
        lemma_find_if_from(b, i, char_pred(';'));
        lemma_find_if_shift(b, i, char_pred(';'));
        let e2 = find_if_from(suf, 0, char_pred(';'));
        assert(e == i + e2);
        assert(b.subrange(i as int, e as int) =~= suf.subrange(0, e2 as int));
        if e < b.len() {
            lemma_core_shift(b, (e + 1) as nat);
            lemma_core_shift(suf, (e2 + 1) as nat);
            assert(b.skip(e + 1 as int) =~= suf.skip(e2 + 1 as int));
        }
    }
}

proof fn lemma_collapse_shift(s: Seq<char>, i: nat)
    requires
        i <= s.len(),
    ensures
        collapse_ws_spec(s, i) == collapse_ws_spec(s.skip(i as int), 0),
    decreases s.len() - i,
{
    let suf = s.skip(i as int);
    if i >= s.len() {
    } else if is_space_char(s[i as int]) {
        lemma_collapse_shift(s, (i + 1) as nat);
        lemma_collapse_shift(suf, 1);
        assert(s.skip(i + 1 as int) =~= suf.skip(1int));
        assert(suf[0] == s[i as int]);
    } else {
        let e = find_if_from(s, i, space_pred());
        lemma_find_if_from(s, i, space_pred());
        lemma_find_if_shift(s, i, space_pred());
        let e2 = find_if_from(suf, 0, space_pred());
        assert(e == i + e2);
        let nxt = find_if_from(s, e, nonspace_pred());
        lemma_find_if_from(s, e, nonspace_pred());
        lemma_find_if_shift(s, e, nonspace_pred());
        lemma_find_if_shift(suf, e2, nonspace_pred());
        let n2 = find_if_from(suf, e2, nonspace_pred());
        assert(s.skip(e as int) =~= suf.skip(e2 as int));
        assert(nxt == e + find_if_from(s.skip(e as int), 0, nonspace_pred()));
        assert(n2 == e2 + find_if_from(suf.skip(e2 as int), 0, nonspace_pred()));
        assert(nxt == i + n2);
        assert(s.subrange(i as int, e as int) =~= suf.subrange(0, e2 as int));
        if nxt < s.len() {
            lemma_collapse_shift(s, nxt);
            lemma_collapse_shift(suf, n2);
            assert(s.skip(nxt as int) =~= suf.skip(n2 as int));
        }
    }
}

proof fn lemma_core_idempotent_from(b: Seq<char>, i: nat)
    requires
        i <= b.len(),
    ensures
        minify_body_core(minify_body_core(b, i), 0) == minify_body_core(b, i),
    decreases b.len() - i,
{
    let c = minify_body_core(b, i);
    if i >= b.len() {
        assert(c.len() == 0);
    } else {
        let e = find_if_from(b, i, char_pred(';'));
        lemma_find_if_from(b, i, char_pred(';'));
        let piece = b.subrange(i as int, e as int);
        let t = trim_spec(piece);
        let rest: Seq<char> = if e < b.len() {
            minify_body_core(b, (e + 1) as nat)
        } else {
            Seq::empty()
        };
        if e < b.len() {
            lemma_core_idempotent_from(b, (e + 1) as nat);
        }
        if t.len() == 0 {
            assert(c =~= rest);
            if e < b.len() {
            } else {
                assert(c.len() == 0);
            }
        } else {
            // no `;` occurs in the trimmed piece
            lemma_trim_infix(piece);
            let a = choose|a: int|
                0 <= a && a + t.len() <= piece.len() && t == #[trigger] piece.subrange(
                    a,
                    a + t.len(),
                );
            assert forall|m: int| 0 <= m < t.len() implies t[m] != ';' by {
                assert(t[m] == piece[a + m]);
                assert(piece[a + m] == b[i + a + m]);
            }
            assert(c =~= t + seq![';'] + rest);
            // the first `;` of the minified text ends the first piece
            assert forall|m: int| 0 <= m < t.len() implies c[m] != ';' by {
                assert(c[m] == t[m]);
            }
            assert(c[t.len() as int] == ';');
            lemma_find_if_from_is(c, 0, t.len() as nat, char_pred(';'));
            assert(c.subrange(0, t.len() as int) =~= t);
            lemma_trim_of_trim(piece);
            assert(trim_spec(t) == t);
            assert(t.len() < c.len());
            lemma_core_shift(c, (t.len() + 1) as nat);
            assert(c.skip(t.len() + 1 as int) =~= rest);
            if e < b.len() {
                assert(minify_body_core(c, (t.len() + 1) as nat) == rest);
            } else {
                assert(rest.len() == 0);
                assert(minify_body_core(c, (t.len() + 1) as nat) == rest);
            }
            assert(minify_body_core(c, 0) =~= t + seq![';'] + rest);
        }
    }
}

/// Minifying an already-minified declaration body changes nothing, so
/// a second run produces no further size change.
pub proof fn lemma_minify_body_idempotent(body: Seq<char>)
    ensures
        minify_body_spec(minify_body_spec(body)) == minify_body_spec(body),
{
    lemma_core_idempotent_from(body, 0);
    let c = minify_body_core(body, 0);
    if c.len() == 0 {
        // the body minified to `;` alone, which minifies to itself
        let semi: Seq<char> = seq![';'];
        assert(semi[0] == ';');
        lemma_find_if_from_is(semi, 0, 0, char_pred(';'));
        assert(semi.subrange(0, 0) =~= Seq::<char>::empty());
        assert(trim_spec(Seq::<char>::empty()).len() == 0);
        assert(minify_body_core(semi, 1).len() == 0);
        assert(minify_body_core(semi, 0).len() == 0);
    }
}

proof fn lemma_collapse_idempotent_from(s: Seq<char>, i: nat)
    requires
        i <= s.len(),
    ensures
        collapse_ws_spec(collapse_ws_spec(s, i), 0) == collapse_ws_spec(s, i),
    decreases s.len() - i,
{
    let c = collapse_ws_spec(s, i);
    if i >= s.len() {
        assert(c.len() == 0);
    } else if is_space_char(s[i as int]) {
        lemma_collapse_idempotent_from(s, (i + 1) as nat);
    } else {
        let e = find_if_from(s, i, space_pred());
        lemma_find_if_from(s, i, space_pred());
        let nxt = find_if_from(s, e, nonspace_pred());
        lemma_find_if_from(s, e, nonspace_pred());
        let tok = s.subrange(i as int, e as int);
        assert(tok.len() > 0);
        assert forall|m: int| 0 <= m < tok.len() implies !is_space_char(tok[m]) by {
            assert(tok[m] == s[i + m]);
        }
        if nxt >= s.len() {
            assert(c =~= tok);
            lemma_find_if_from_is(c, 0, c.len() as nat, space_pred());
            assert(find_if_from(c, c.len() as nat, nonspace_pred()) == c.len());
            assert(c.subrange(0, c.len() as int) =~= c);
            assert(collapse_ws_spec(c, 0) =~= c);
        } else {
            let rest = collapse_ws_spec(s, nxt);
            lemma_collapse_idempotent_from(s, nxt);
            // the rest begins with the next token's first character
            assert(e < s.len());
            assert(!is_space_char(s[nxt as int]));
            let e3 = find_if_from(s, nxt, space_pred());
            lemma_find_if_from(s, nxt, space_pred());
            assert(e3 > nxt);
            assert(rest.len() > 0 && rest[0] == s[nxt as int]);
            assert(c =~= tok + seq![' '] + rest);
            assert forall|m: int| 0 <= m < tok.len() implies !is_space_char(c[m]) by {
                assert(c[m] == tok[m]);
            }
            assert(c[tok.len() as int] == ' ');
            lemma_find_if_from_is(c, 0, tok.len() as nat, space_pred());
            assert(c[tok.len() + 1 as int] == rest[0]);
            assert(is_space_char(c[tok.len() as int]));
            lemma_find_if_from_is(
                c,
                tok.len() as nat,
                (tok.len() + 1) as nat,
                nonspace_pred(),
            );
            assert(c.subrange(0, tok.len() as int) =~= tok);
            lemma_collapse_shift(c, (tok.len() + 1) as nat);
            assert(c.skip(tok.len() + 1 as int) =~= rest);
            assert(collapse_ws_spec(c, (tok.len() + 1) as nat) == rest);
            assert(collapse_ws_spec(c, 0) =~= tok + seq![' '] + rest);
        }
    }
}

/// Collapsing whitespace in an already-collapsed selector changes
/// nothing, so a second run produces no further size change.
pub proof fn lemma_collapse_ws_idempotent(s: Seq<char>)
    ensures
        collapse_ws_spec(collapse_ws_spec(s, 0), 0) == collapse_ws_spec(s, 0),
{
    lemma_collapse_idempotent_from(s, 0);
}

/// A selector in which a whitelist pattern occurs is kept, whatever
/// the usage index holds.
pub proof fn lemma_whitelist_always_kept(
    sel: Seq<char>,
    used: Seq<Seq<char>>,
    k: int,
)
    requires
        0 <= k < default_whitelist().len(),
        contains_cs(lower_seq(trim_spec(sel)), default_whitelist()[k]),
    ensures
        spec_selector_used(sel, used, default_whitelist()),
{
    assert(whitelist_hit(lower_seq(trim_spec(sel)), default_whitelist()));
}

/// A selector containing `wp-` survives tree-shaking regardless of
/// usage.
pub proof fn lemma_wp_selector_kept(sel: Seq<char>, used: Seq<Seq<char>>)
    requires
        contains_cs(lower_seq(trim_spec(sel)), "wp-"@),
    ensures
        spec_selector_used(sel, used, default_whitelist()),
{
    assert(default_whitelist()[0] == "wp-"@);
    lemma_whitelist_always_kept(sel, used, 0);
}

/// A `:hover` rule survives tree-shaking regardless of usage, under
/// any whitelist.
pub proof fn lemma_hover_selector_kept(sel: Seq<char>, used: Seq<Seq<char>>, wl: Seq<Seq<char>>)
    requires
        contains_cs(lower_seq(trim_spec(sel)), ":hover"@),
    ensures
        spec_selector_used(sel, used, wl),
{
    assert(pseudo_exception(lower_seq(trim_spec(sel))));
}

/// An at-rule head (`@media`, `@keyframes`, `@font-face`, ...) is kept
/// regardless of usage, under any whitelist.
pub proof fn lemma_at_rule_selector_kept(sel: Seq<char>, used: Seq<Seq<char>>, wl: Seq<Seq<char>>)
    requires
        trim_spec(sel).len() > 0,
        trim_spec(sel)[0] == '@',
    ensures
        spec_selector_used(sel, used, wl),
{
    let t = trim_spec(sel);
    let lo = lower_seq(t);
    assert(lo[0] == lower_char(t[0]));
    assert(lower_char('@') == '@');
}
} // verus!
