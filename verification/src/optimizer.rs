//! The document rewrite pipeline: whitespace/comment minification,
//! inline-CSS tree-shaking, lazy-load injection, script deferral and
//! preconnect hints, run in fixed order over one text buffer.

use vstd::prelude::*;

use crate::css_optimizer::{default_whitelist, implied_atoms, shake_css, used_atoms, CssOptimizer};
use crate::error::AppError;
use crate::handlers::OptimizeOptions;
use crate::stats::reduction_tenths;
use crate::text::{dec_digits, u128_to_chars, usize_to_chars, views_of_strings};
use crate::scan::{
    attr_value, find_ci_from, find_gt_from, insert_at, insert_chars, lemma_find_ci_from,
    lemma_find_gt_from, lemma_find_gt_from_is, find_ci_at, replace_first, replace_first_cs,
    scan_exec, scan_tags, scan_tags_count, tag_end,
};
use crate::text::{
    chars_to_string, contains_cs, contains_ci, has_cs, is_space, is_space_char, lower_seq,
    matches_at_ci, matches_at_cs, push_all, push_range, str_to_chars, to_lower_vec,
};

verus! {

/// An `img` tag gets `loading="lazy"` when it carries neither a
/// `loading=` nor a `fetchpriority=` attribute.
pub open spec fn lazy_needs(tag: Seq<char>) -> bool {
    !contains_cs(tag, "loading="@) && !contains_cs(tag, "fetchpriority="@)
}

pub open spec fn lazy_tr(tag: Seq<char>) -> Seq<char> {
    if lazy_needs(tag) {
        replace_first_cs(tag, "<img"@, "<img loading=\"lazy\""@)
    } else {
        tag
    }
}

pub open spec fn lazy_tr_fn() -> spec_fn(Seq<char>) -> Seq<char> {
    |t: Seq<char>| lazy_tr(t)
}

pub open spec fn lazy_needs_fn() -> spec_fn(Seq<char>) -> bool {
    |t: Seq<char>| lazy_needs(t)
}

/// The document after the lazy-load pass.
pub open spec fn lazy_spec(s: Seq<char>) -> Seq<char> {
    scan_tags(s, 0, "<img"@, lazy_tr_fn())
}

pub open spec fn lazy_count_spec(s: Seq<char>) -> nat {
    scan_tags_count(s, 0, "<img"@, lazy_needs_fn())
}

fn lazy_transform(tag: Vec<char>) -> (r: (Vec<char>, bool))
    ensures
        r.0@ == lazy_tr(tag@),
        r.1 == lazy_needs(tag@),
{
    proof {
        reveal_strlit("loading=");
        reveal_strlit("fetchpriority=");
        reveal_strlit("<img");
    }
    let p1 = str_to_chars("loading=");
    let p2 = str_to_chars("fetchpriority=");
    if !has_cs(&tag, &p1) && !has_cs(&tag, &p2) {
        let r = replace_first(&tag, &str_to_chars("<img"), &str_to_chars("<img loading=\"lazy\""));
        (r, true)
    } else {
        (tag, false)
    }
}

/// Add `loading="lazy"` to every `img` tag that has no loading or
/// fetch-priority attribute; all other text is unchanged.
pub fn add_lazy_loading(html: &mut String) -> (count: usize)
    ensures
        final(html)@ == lazy_spec(old(html)@),
        count == lazy_count_spec(old(html)@),
{
    proof {
        reveal_strlit("<img");
    }
    let v = str_to_chars(html.as_str());
    let pat = str_to_chars("<img");
    let r = scan_exec(&v, &pat, lazy_transform, Ghost(lazy_tr_fn()), Ghost(lazy_needs_fn()));
    *html = chars_to_string(&r.0);
    r.1
}

/// A `script` tag gets `defer` when it has a `src=` attribute and
/// neither `defer` nor `async` appears in it.
pub open spec fn defer_needs(tag: Seq<char>) -> bool {
    let lo = lower_seq(tag);
    !contains_cs(lo, "defer"@) && !contains_cs(lo, "async"@) && contains_cs(lo, "src="@)
}

pub open spec fn defer_tr(tag: Seq<char>) -> Seq<char> {
    if defer_needs(tag) {
        replace_first_cs(tag, "<script"@, "<script defer"@)
    } else {
        tag
    }
}

pub open spec fn defer_tr_fn() -> spec_fn(Seq<char>) -> Seq<char> {
    |t: Seq<char>| defer_tr(t)
}

pub open spec fn defer_needs_fn() -> spec_fn(Seq<char>) -> bool {
    |t: Seq<char>| defer_needs(t)
}

/// The document after the script-deferral pass.
pub open spec fn defer_spec(s: Seq<char>) -> Seq<char> {
    scan_tags(s, 0, "<script"@, defer_tr_fn())
}

pub open spec fn defer_count_spec(s: Seq<char>) -> nat {
    scan_tags_count(s, 0, "<script"@, defer_needs_fn())
}

fn defer_transform(tag: Vec<char>) -> (r: (Vec<char>, bool))
    ensures
        r.0@ == defer_tr(tag@),
        r.1 == defer_needs(tag@),
{
    proof {
        reveal_strlit("defer");
        reveal_strlit("async");
        reveal_strlit("src=");
        reveal_strlit("<script");
    }
    let lo = to_lower_vec(&tag);
    let p1 = str_to_chars("defer");
    let p2 = str_to_chars("async");
    let p3 = str_to_chars("src=");
    if !has_cs(&lo, &p1) && !has_cs(&lo, &p2) && has_cs(&lo, &p3) {
        let r = replace_first(&tag, &str_to_chars("<script"), &str_to_chars("<script defer"));
        (r, true)
    } else {
        (tag, false)
    }
}

/// Add `defer` to every external `script src=` tag that is neither
/// deferred nor async; inline scripts are untouched.
pub fn defer_scripts(html: &mut String) -> (count: usize)
    ensures
        final(html)@ == defer_spec(old(html)@),
        count == defer_count_spec(old(html)@),
{
    proof {
        reveal_strlit("<script");
    }
    let v = str_to_chars(html.as_str());
    let pat = str_to_chars("<script");
    let r = scan_exec(&v, &pat, defer_transform, Ghost(defer_tr_fn()), Ghost(defer_needs_fn()));
    *html = chars_to_string(&r.0);
    r.1
}

/// The preconnect domains the document calls for: font hosts when
/// Google Fonts is referenced without an existing preconnect, and the
/// analytics hosts whenever they are referenced.
pub open spec fn preconnect_domains(s: Seq<char>) -> Seq<Seq<char>> {
    (if contains_cs(s, "fonts.googleapis.com"@) && !contains_cs(s, "preconnect"@) {
        seq!["https://fonts.googleapis.com"@, "https://fonts.gstatic.com"@]
    } else {
        Seq::empty()
    }) + (if contains_cs(s, "googletagmanager.com"@) {
        seq!["https://www.googletagmanager.com"@]
    } else {
        Seq::empty()
    }) + (if contains_cs(s, "google-analytics.com"@) {
        seq!["https://www.google-analytics.com"@]
    } else {
        Seq::empty()
    })
}

/// One preconnect link tag.
pub open spec fn preconnect_link(domain: Seq<char>) -> Seq<char> {
    "<link rel=\"preconnect\" href=\""@ + domain + "\" crossorigin>"@
}

pub open spec fn preconnect_links(domains: Seq<Seq<char>>, i: nat) -> Seq<char>
    decreases domains.len() - i,
    when i <= domains.len()
{
    if i >= domains.len() {
        Seq::empty()
    } else {
        preconnect_link(domains[i as int]) + preconnect_links(domains, (i + 1) as nat)
    }
}

/// The document after the preconnect pass: the link tags inserted
/// directly after `<head>` when one exists and any domain is called
/// for.
pub open spec fn preconnect_spec(s: Seq<char>) -> Seq<char> {
    let domains = preconnect_domains(s);
    if domains.len() == 0 {
        s
    } else {
        let p = find_ci_from(s, "<head>"@, 0);
        if p < s.len() {
            insert_at(s, (p + 6) as nat, preconnect_links(domains, 0))
        } else {
            s
        }
    }
}

/// Insert preconnect hints for known third-party hosts after `<head>`.
/// The count of hints called for is returned even when the document
/// has no head to insert them into.
pub fn add_preconnect_hints(html: &mut String) -> (count: usize)
    ensures
        final(html)@ == preconnect_spec(old(html)@),
        count == preconnect_domains(old(html)@).len(),
{
    proof {
        reveal_strlit("fonts.googleapis.com");
        reveal_strlit("preconnect");
        reveal_strlit("googletagmanager.com");
        reveal_strlit("google-analytics.com");
        reveal_strlit("<head>");
    }
    let v = str_to_chars(html.as_str());
    let mut domains: Vec<&str> = Vec::new();
    let ghost dspec = preconnect_domains(v@);
    if has_cs(&v, &str_to_chars("fonts.googleapis.com")) && !has_cs(
        &v,
        &str_to_chars("preconnect"),
    ) {
        domains.push("https://fonts.googleapis.com");
        domains.push("https://fonts.gstatic.com");
    }
    if has_cs(&v, &str_to_chars("googletagmanager.com")) {
        domains.push("https://www.googletagmanager.com");
    }
    if has_cs(&v, &str_to_chars("google-analytics.com")) {
        domains.push("https://www.google-analytics.com");
    }
    proof {
        assert(Seq::new(domains@.len(), |k: int| domains@[k]@) =~= dspec);
    }
    if domains.len() == 0 {
        return 0;
    }
    let mut links: Vec<char> = Vec::new();
    let mut k: usize = 0;
    while k < domains.len()
        invariant
            k <= domains@.len(),
            dspec == Seq::new(domains@.len(), |m: int| domains@[m]@),
            preconnect_links(dspec, 0) == links@ + preconnect_links(dspec, k as nat),
        decreases domains@.len() - k,
    {
        push_all(&mut links, &str_to_chars("<link rel=\"preconnect\" href=\""));
        push_all(&mut links, &str_to_chars(domains[k]));
        push_all(&mut links, &str_to_chars("\" crossorigin>"));
        proof {
            assert(links@ =~= links@);
            assert(dspec[k as int] == domains@[k as int]@);
            assert(preconnect_links(dspec, k as nat) == preconnect_link(dspec[k as int])
                + preconnect_links(dspec, (k + 1) as nat));
        }
        k += 1;
    }
    proof {
        assert(links@ =~= preconnect_links(dspec, 0));
    }
    let head_pat = str_to_chars("<head>");
    let p = find_ci_at(&v, &head_pat, 0);
    if p < v.len() {
        let out = insert_chars(&v, p + 6, &links);
        *html = chars_to_string(&out);
    }
    domains.len()
}


/// The verbatim-region flags after looking at position `i`: literal
/// case-insensitive prefix matches toggle the `pre`, `script` and
/// `style` states.
pub open spec fn verbatim_flags(s: Seq<char>, i: int, pre: bool, scr: bool, sty: bool) -> (
    bool,
    bool,
    bool,
) {
    if matches_at_ci(s, i, "<pre"@) {
        (true, scr, sty)
    } else if matches_at_ci(s, i, "</pre"@) {
        (false, scr, sty)
    } else if matches_at_ci(s, i, "<script"@) {
        (pre, true, sty)
    } else if matches_at_ci(s, i, "</script"@) {
        (pre, false, sty)
    } else if matches_at_ci(s, i, "<style"@) {
        (pre, scr, true)
    } else if matches_at_ci(s, i, "</style"@) {
        (pre, scr, false)
    } else {
        (pre, scr, sty)
    }
}

/// The whitespace/comment minification pass: complete comments
/// outside verbatim regions are stripped and whitespace runs outside
/// them collapse to one space; the contents of `pre`, `script` and
/// `style` regions are copied byte for byte; from an unterminated
/// comment on, the remainder is copied verbatim, never dropped.
pub open spec fn minify_html_spec(
    s: Seq<char>,
    i: nat,
    pre: bool,
    scr: bool,
    sty: bool,
    lsp: bool,
) -> Seq<char>
    decreases s.len() - i,
    when i <= s.len()
    via minify_html_spec_dec
{
    if i >= s.len() {
        Seq::empty()
    } else {
        let f = verbatim_flags(s, i as int, pre, scr, sty);
        let c = s[i as int];
        if f.0 || f.1 || f.2 {
            seq![c] + minify_html_spec(s, (i + 1) as nat, f.0, f.1, f.2, false)
        } else if matches_at_cs(s, i as int, "<!--"@) {
            let k = crate::scan::find_cs_from(s, "-->"@, (i + 4) as nat);
            if k < s.len() {
                minify_html_spec(s, (k + 3) as nat, f.0, f.1, f.2, lsp)
            } else {
                s.subrange(i as int, s.len() as int)
            }
        } else if is_space_char(c) {
            if !lsp {
                seq![' '] + minify_html_spec(s, (i + 1) as nat, f.0, f.1, f.2, true)
            } else {
                minify_html_spec(s, (i + 1) as nat, f.0, f.1, f.2, true)
            }
        } else {
            seq![c] + minify_html_spec(s, (i + 1) as nat, f.0, f.1, f.2, false)
        }
    }
}

#[via_fn]
proof fn minify_html_spec_dec(s: Seq<char>, i: nat, pre: bool, scr: bool, sty: bool, lsp: bool) {
    reveal_strlit("<!--");
    reveal_strlit("-->");
    if i < s.len() && matches_at_cs(s, i as int, "<!--"@) {
        crate::scan::lemma_find_cs_from(s, "-->"@, (i + 4) as nat);
    }
}

/// Strip complete comments and collapse whitespace runs to single
/// spaces, leaving `pre`, `script` and `style` contents untouched and
/// copying the remainder of an unterminated comment verbatim.
pub fn minify_html(html: &str) -> (r: String)
    ensures
        r@ == minify_html_spec(html@, 0, false, false, false, false),
{
    let v = str_to_chars(html);
    let n = v.len();
    let com_open = str_to_chars("<!--");
    let com_close = str_to_chars("-->");
    let pre_open = str_to_chars("<pre");
    let pre_close = str_to_chars("</pre");
    let scr_open = str_to_chars("<script");
    let scr_close = str_to_chars("</script");
    let sty_open = str_to_chars("<style");
    let sty_close = str_to_chars("</style");
    let mut out: Vec<char> = Vec::new();
    let mut i: usize = 0;
    let mut pre: bool = false;
    let mut scr: bool = false;
    let mut sty: bool = false;
    let mut lsp: bool = false;
    while i < n
        invariant
            i <= n,
            n == v@.len(),
            v@ == html@,
            com_open@ == "<!--"@,
            com_close@ == "-->"@,
            pre_open@ == "<pre"@,
            pre_close@ == "</pre"@,
            scr_open@ == "<script"@,
            scr_close@ == "</script"@,
            sty_open@ == "<style"@,
            sty_close@ == "</style"@,
            minify_html_spec(v@, 0, false, false, false, false) == out@ + minify_html_spec(
                v@,
                i as nat,
                pre,
                scr,
                sty,
                lsp,
            ),
        decreases n - i,
    {
        proof {
            reveal_strlit("<!--");
            reveal_strlit("-->");
        }
        if crate::text::match_at_ci(&v, i, &pre_open) {
            pre = true;
        } else if crate::text::match_at_ci(&v, i, &pre_close) {
            pre = false;
        } else if crate::text::match_at_ci(&v, i, &scr_open) {
            scr = true;
        } else if crate::text::match_at_ci(&v, i, &scr_close) {
            scr = false;
        } else if crate::text::match_at_ci(&v, i, &sty_open) {
            sty = true;
        } else if crate::text::match_at_ci(&v, i, &sty_close) {
            sty = false;
        }
        if pre || scr || sty {
            out.push(v[i]);
            lsp = false;
            i += 1;
        } else if crate::text::match_at_cs(&v, i, &com_open) {
            let mut m: usize = i + 4;
            let mut found: bool = false;
            while m < n && !found
                invariant
                    i + 4 <= m <= n,
                    n == v@.len(),
                    com_close@ == "-->"@,
                    com_close@.len() == 3,
                    !found ==> forall|x: int| i + 4 <= x < m ==> !matches_at_cs(v@, x, "-->"@),
                    found ==> m == crate::scan::find_cs_from(v@, "-->"@, (i + 4) as nat) && m
                        < n && matches_at_cs(v@, m as int, "-->"@),
                decreases n - m + (if found { 0int } else { 1int }),
            {
                if crate::text::match_at_cs(&v, m, &com_close) {
                    proof {
                        crate::scan::lemma_find_cs_from_is(v@, "-->"@, (i + 4) as nat, m as nat);
                    }
                    found = true;
                } else {
                    m += 1;
                }
            }
            if found {
                i = m + 3;
            } else {
                proof {
                    assert forall|x: int| i + 4 <= x implies !matches_at_cs(v@, x, "-->"@) by {}
                    crate::scan::lemma_find_cs_from_is(v@, "-->"@, (i + 4) as nat, n as nat);
                }
                push_range(&mut out, &v, i, n);
                proof {
                    assert(out@ =~= out@);
                }
                i = n;
            }
        } else {
            let c = v[i];
            if is_space(c) {
                if !lsp {
                    out.push(' ');
                }
                lsp = true;
            } else {
                out.push(c);
                lsp = false;
            }
            i += 1;
        }
    }
    proof {
        assert(out@ =~= minify_html_spec(v@, 0, false, false, false, false));
    }
    chars_to_string(&out)
}

/// The inline-style tree-shaking pass over the whole document: each
/// `<style>` block's contents are tree-shaken against the usage index
/// unless the block exceeds the size ceiling, in which case it passes
/// through unchanged.  Also carries the count of blocks shaken and the
/// sum of their whole-percent reductions.
pub open spec fn shake_blocks(
    s: Seq<char>,
    i: nat,
    used: Seq<Seq<char>>,
    wl: Seq<Seq<char>>,
) -> (Seq<char>, nat, int)
    decreases s.len() - i,
    when i <= s.len()
    via shake_blocks_dec
{
    if i >= s.len() {
        (Seq::empty(), 0nat, 0int)
    } else if matches_at_ci(s, i as int, "<style"@) {
        let tc = tag_end(s, i);
        let k = find_ci_from(s, "</style>"@, tc);
        if k < s.len() {
            let css = s.subrange(tc as int, k as int);
            let big = css.len() > 100000;
            let shaken = if big {
                css
            } else {
                shake_css(css, 0, used, wl)
            };
            let pct: int = if big || css.len() == 0 {
                0
            } else if shaken.len() <= css.len() {
                (css.len() - shaken.len()) * 100 / (css.len() as int)
            } else {
                0
            };
            let rest = shake_blocks(s, (k + 8) as nat, used, wl);
            (
                s.subrange(i as int, tc as int) + shaken + "</style>"@ + rest.0,
                (if big {
                    0nat
                } else {
                    1nat
                }) + rest.1,
                pct + rest.2,
            )
        } else {
            // an unterminated block is malformed markup: its whole
            // remainder passes through verbatim
            (s.subrange(i as int, s.len() as int), 0nat, 0int)
        }
    } else {
        let rest = shake_blocks(s, (i + 1) as nat, used, wl);
        (seq![s[i as int]] + rest.0, rest.1, rest.2)
    }
}

#[via_fn]
proof fn shake_blocks_dec(s: Seq<char>, i: nat, used: Seq<Seq<char>>, wl: Seq<Seq<char>>) {
    reveal_strlit("</style>");
    if i < s.len() {
        lemma_find_gt_from(s, i);
        let tc = tag_end(s, i);
        crate::scan::lemma_find_ci_from(s, "</style>"@, tc);
    }
}

/// Tree-shake every inline `<style>` block against the atoms the
/// document uses.  Returns the count of blocks shaken and their
/// average whole-percent reduction.
#[verifier::rlimit(100)]
pub fn optimize_and_treeshake_css(html: &mut String) -> (r: (usize, i128))
    ensures
        ({
            let b = shake_blocks(
                old(html)@,
                0,
                implied_atoms() + used_atoms(old(html)@, 0),
                default_whitelist(),
            );
            &&& final(html)@ == b.0
            &&& r.0 == b.1
            &&& r.1 == (if b.1 > 0 {
                b.2 / (b.1 as int)
            } else {
                0int
            })
            &&& r.1 >= 0
        }),
{
    proof {
        reveal_strlit("<style");
        reveal_strlit("</style>");
    }
    let mut opt = CssOptimizer::new();
    opt.extract_used_selectors(html.as_str());
    let ghost used = implied_atoms() + used_atoms(html@, 0);
    let ghost wl = default_whitelist();
    let v = str_to_chars(html.as_str());
    let n = v.len();
    let open_pat = str_to_chars("<style");
    let close_pat = str_to_chars("</style>");
    let mut out: Vec<char> = Vec::new();
    let mut count: usize = 0;
    let mut total: i128 = 0;
    let mut i: usize = 0;
    while i < n
        invariant
            i <= n,
            n == v@.len(),
            v@ == old(html)@,
            open_pat@ == "<style"@,
            close_pat@ == "</style>"@,
            close_pat@.len() == 8,
            opt.used_view() == used,
            opt.wl_view() == wl,
            used == implied_atoms() + used_atoms(old(html)@, 0),
            wl == default_whitelist(),
            count <= i,
            0 <= total <= (i as int) * 0x100000000,
            shake_blocks(v@, 0, used, wl).0 == out@ + shake_blocks(v@, i as nat, used, wl).0,
            shake_blocks(v@, 0, used, wl).1 == count + shake_blocks(v@, i as nat, used, wl).1,
            shake_blocks(v@, 0, used, wl).2 == total + shake_blocks(v@, i as nat, used, wl).2,
        decreases n - i,
    {
        if crate::text::match_at_ci(&v, i, &open_pat) {
            let mut j: usize = i;
            while j < n && v[j] != '>'
                invariant
                    i <= j <= n,
                    n == v@.len(),
                    forall|m: int| i <= m < j ==> v@[m] != '>',
                decreases n - j,
            {
                j += 1;
            }
            proof {
                lemma_find_gt_from_is(v@, i as nat, j as nat);
            }
            let tc = if j < n {
                j + 1
            } else {
                n
            };
            assert(tc == tag_end(v@, i as nat));
            let k = find_ci_at(&v, &close_pat, tc);
            if k < n {
                let mut css: Vec<char> = Vec::new();
                push_range(&mut css, &v, tc, k);
                proof {
                    assert(css@ =~= v@.subrange(tc as int, k as int));
                }
                let ghost old_out = out@;
                push_range(&mut out, &v, i, tc);
                let mut pct: u32 = 0;
                if css.len() > 100000 {
                    push_all(&mut out, &css);
                } else {
                    let css_str = chars_to_string(&css);
                    let shaken = match opt.remove_unused_css(css_str.as_str()) {
                        Ok(x) => str_to_chars(x.as_str()),
                        Err(_) => {
                            proof {
                                assert(false);
                            }
                            Vec::new()
                        },
                    };
                    if css.len() > 0 && shaken.len() <= css.len() {
                        let d = css.len() - shaken.len();
                        pct = (((d as u64) * 100) / (css.len() as u64)) as u32;
                        proof {
                            assert(pct == (css@.len() - shaken@.len()) * 100 / (
                            css@.len() as int));
                        }
                    }
                    push_all(&mut out, &shaken);
                    count += 1;
                }
                push_all(&mut out, &close_pat);
                total = total + (pct as i128);
                let nx = k + 8;
                proof {
                    let step = shake_blocks(v@, i as nat, used, wl);
                    assert(step.0 == v@.subrange(i as int, tc as int) + (if css@.len()
                        > 100000 {
                        css@
                    } else {
                        shake_css(css@, 0, used, wl)
                    }) + "</style>"@ + shake_blocks(v@, nx as nat, used, wl).0);
                    assert(out@ =~= old_out + (v@.subrange(i as int, tc as int) + (if css@.len()
                        > 100000 {
                        css@
                    } else {
                        shake_css(css@, 0, used, wl)
                    }) + "</style>"@));
                    assert(shake_blocks(v@, 0, used, wl).0 == out@ + shake_blocks(
                        v@,
                        nx as nat,
                        used,
                        wl,
                    ).0);
                }
                i = nx;
            } else {
                push_range(&mut out, &v, i, n);
                proof {
                    assert(shake_blocks(v@, i as nat, used, wl).0 =~= v@.subrange(
                        i as int,
                        n as int,
                    ));
                }
                i = n;
            }
        } else {
            out.push(v[i]);
            proof {
                assert(shake_blocks(v@, 0, used, wl).0 == out@ + shake_blocks(
                    v@,
                    (i + 1) as nat,
                    used,
                    wl,
                ).0);
            }
            i += 1;
        }
    }
    proof {
        assert(out@ =~= shake_blocks(v@, 0, used, wl).0);
    }
    *html = chars_to_string(&out);
    let avg: i128 = if count > 0 {
        total / (count as i128)
    } else {
        0
    };
    (count, avg)
}

/// An `img` tag that carries neither a quoted `width` nor a quoted
/// `height` attribute.
pub open spec fn missing_dims(tag: Seq<char>) -> bool {
    attr_value(tag, "width"@) is None && attr_value(tag, "height"@) is None
}

pub open spec fn id_tr_fn() -> spec_fn(Seq<char>) -> Seq<char> {
    |t: Seq<char>| t
}

pub open spec fn missing_dims_fn() -> spec_fn(Seq<char>) -> bool {
    |t: Seq<char>| missing_dims(t)
}

pub fn dims_probe_pub(tag: Vec<char>) -> (r: (Vec<char>, bool))
    ensures
        r.0@ == tag@,
        r.1 == missing_dims(tag@),
{
    let w = crate::scan::attr_value_exec(&tag, &str_to_chars("width"));
    let h = crate::scan::attr_value_exec(&tag, &str_to_chars("height"));
    let b = match w {
        Some(_) => false,
        None => match h {
            Some(_) => false,
            None => true,
        },
    };
    (tag, b)
}

/// How many `img` tags carry neither dimension attribute (a source of
/// layout shift).
pub fn count_images_without_dimensions(html: &str) -> (c: usize)
    ensures
        c == scan_tags_count(html@, 0, "<img"@, missing_dims_fn()),
{
    proof {
        reveal_strlit("<img");
    }
    let v = str_to_chars(html);
    let pat = str_to_chars("<img");
    let r = scan_exec(&v, &pat, dims_probe_pub, Ghost(id_tr_fn()), Ghost(missing_dims_fn()));
    r.1
}

pub open spec fn seo_prefix_fn() -> spec_fn(Seq<char>) -> Seq<char> {
    |c: Seq<char>| "SEO: "@ + c
}

pub open spec fn image_prefix_fn() -> spec_fn(Seq<char>) -> Seq<char> {
    |c: Seq<char>| "Image: "@ + c
}

/// The result of one document run.
pub struct OptimizeResult {
    pub html: String,
    pub original_size: usize,
    pub optimized_size: usize,
    /// Tenths of a percent saved.
    pub reduction_percent_tenths: i128,
    pub optimizations: Vec<String>,
}

/// The whole document pipeline, in fixed order: inline-CSS
/// tree-shaking, whitespace/comment minification, lazy loading, script
/// deferral, the dimension count, preconnect hints, the metadata
/// passes, schema injection, and the image analysis; with the change
/// report each pass contributes.
/// The first half of the pipeline: tree-shaking through preconnect
/// hints.
pub open spec fn pipeline_head_spec(html: Seq<char>, o: OptimizeOptions) -> (
    Seq<char>,
    Seq<Seq<char>>,
) {
    let b = shake_blocks(html, 0, implied_atoms() + used_atoms(html, 0), default_whitelist());
    let s1 = if o.minify_css {
        b.0
    } else {
        html
    };
    let m1: Seq<Seq<char>> = if o.minify_css && b.1 > 0 {
        seq![
            dec_digits(b.1) + " style blocks optimized ("@ + dec_digits(
                (b.2 / (b.1 as int)) as nat,
            ) + "% reduction)"@,
        ]
    } else {
        Seq::empty()
    };
    let s2 = if o.minify_html {
        minify_html_spec(s1, 0, false, false, false, false)
    } else {
        s1
    };
    let m2: Seq<Seq<char>> = if o.minify_html {
        seq!["HTML minified"@]
    } else {
        Seq::empty()
    };
    let s3 = if o.lazy_images {
        lazy_spec(s2)
    } else {
        s2
    };
    let m3: Seq<Seq<char>> = if o.lazy_images && lazy_count_spec(s2) > 0 {
        seq![dec_digits(lazy_count_spec(s2)) + " images lazy-loaded"@]
    } else {
        Seq::empty()
    };
    let s4 = if o.defer_js {
        defer_spec(s3)
    } else {
        s3
    };
    let m4: Seq<Seq<char>> = if o.defer_js && defer_count_spec(s3) > 0 {
        seq![dec_digits(defer_count_spec(s3)) + " scripts deferred"@]
    } else {
        Seq::empty()
    };
    let dims = scan_tags_count(s4, 0, "<img"@, missing_dims_fn());
    let m5: Seq<Seq<char>> = if dims > 0 {
        seq![dec_digits(dims) + " images need dimensions"@]
    } else {
        Seq::empty()
    };
    let s5 = preconnect_spec(s4);
    let m6: Seq<Seq<char>> = if preconnect_domains(s4).len() > 0 {
        seq![dec_digits(preconnect_domains(s4).len()) + " preconnect hints added"@]
    } else {
        Seq::empty()
    };
    (s5, m1 + m2 + m3 + m4 + m5 + m6)
}

/// The whole document pipeline: the first half, then the metadata
/// passes, schema injection and image analysis, with the change
/// report each pass contributes.
pub open spec fn pipeline_spec(html: Seq<char>, url: Seq<char>, o: OptimizeOptions) -> (
    Seq<char>,
    Seq<Seq<char>>,
) {
    let head = pipeline_head_spec(html, o);
    let s5 = head.0;
    let seo = crate::seo_optimizer::seo_spec(s5, url, Seq::empty());
    let s6 = seo.0;
    let m7 = seo.1.map_values(seo_prefix_fn());
    let inj = crate::schema_generator::inject_schema_spec(s6, url);
    let s7 = inj.0;
    let m8: Seq<Seq<char>> = if inj.1 > 0 {
        seq![dec_digits(inj.1) + " Schema.org types added"@]
    } else {
        Seq::empty()
    };
    let wc = scan_tags_count(s7, 0, "<img"@, crate::image_optimizer::webp_candidate_fn());
    let dc = scan_tags_count(s7, 0, "<img"@, missing_dims_fn());
    let m9: Seq<Seq<char>> = ((if wc > 0 {
        seq![dec_digits(wc) + " images can be converted to WebP"@]
    } else {
        Seq::empty()
    }) + (if dc > 0 {
        seq![dec_digits(dc) + " images missing width/height (causes CLS)"@]
    } else {
        Seq::empty()
    })).map_values(image_prefix_fn());
    let m10: Seq<Seq<char>> = match crate::image_optimizer::lcp_hint_spec(s7) {
        Some(h) => seq!["LCP: "@ + h],
        None => Seq::empty(),
    };
    (s7, head.1 + m7 + m8 + m9 + m10)
}


/// Run the first half of the pipeline over one document.
#[verifier::rlimit(100)]
fn run_pipeline_head(html: &str, options: &OptimizeOptions) -> (r: (String, Vec<String>))
    ensures
        r.0@ == pipeline_head_spec(html@, *options).0,
        views_of_strings(r.1@) == pipeline_head_spec(html@, *options).1,
{
    let mut optimized = html.to_owned();
    let mut optimizations: Vec<String> = Vec::new();
    let ghost b = shake_blocks(
        html@,
        0,
        implied_atoms() + used_atoms(html@, 0),
        default_whitelist(),
    );
    let ghost gs1: Seq<char> = if options.minify_css {
        b.0
    } else {
        html@
    };
    let ghost gm1: Seq<Seq<char>> = if options.minify_css && b.1 > 0 {
        seq![
            dec_digits(b.1) + " style blocks optimized ("@ + dec_digits(
                (b.2 / (b.1 as int)) as nat,
            ) + "% reduction)"@,
        ]
    } else {
        Seq::empty()
    };
    let ghost gs2: Seq<char> = if options.minify_html {
        minify_html_spec(gs1, 0, false, false, false, false)
    } else {
        gs1
    };
    let ghost gm2: Seq<Seq<char>> = if options.minify_html {
        seq!["HTML minified"@]
    } else {
        Seq::empty()
    };
    let ghost gs3: Seq<char> = if options.lazy_images {
        lazy_spec(gs2)
    } else {
        gs2
    };
    let ghost gm3: Seq<Seq<char>> = if options.lazy_images && lazy_count_spec(gs2) > 0 {
        seq![dec_digits(lazy_count_spec(gs2)) + " images lazy-loaded"@]
    } else {
        Seq::empty()
    };
    let ghost gs4: Seq<char> = if options.defer_js {
        defer_spec(gs3)
    } else {
        gs3
    };
    let ghost gm4: Seq<Seq<char>> = if options.defer_js && defer_count_spec(gs3) > 0 {
        seq![dec_digits(defer_count_spec(gs3)) + " scripts deferred"@]
    } else {
        Seq::empty()
    };
    let ghost gdims = scan_tags_count(gs4, 0, "<img"@, missing_dims_fn());
    let ghost gm5: Seq<Seq<char>> = if gdims > 0 {
        seq![dec_digits(gdims) + " images need dimensions"@]
    } else {
        Seq::empty()
    };
    let ghost gm6: Seq<Seq<char>> = if preconnect_domains(gs4).len() > 0 {
        seq![dec_digits(preconnect_domains(gs4).len()) + " preconnect hints added"@]
    } else {
        Seq::empty()
    };

    if options.minify_css {
        let css_result = optimize_and_treeshake_css(&mut optimized);
        if css_result.0 > 0 {
            let mut m = usize_to_chars(css_result.0);
            push_all(&mut m, &str_to_chars(" style blocks optimized ("));
            let avg = u128_to_chars(css_result.1 as u128);
            push_all(&mut m, &avg);
            push_all(&mut m, &str_to_chars("% reduction)"));
            optimizations.push(chars_to_string(&m));
        }
    }
    proof {
        assert(optimized@ == gs1);
        assert(views_of_strings(optimizations@) =~= gm1);
    }

    if options.minify_html {
        optimized = minify_html(optimized.as_str());
        optimizations.push(String::from_str("HTML minified"));
    }
    proof {
        assert(optimized@ == gs2);
        assert(views_of_strings(optimizations@) =~= gm1 + gm2);
    }

    if options.lazy_images {
        let count = add_lazy_loading(&mut optimized);
        if count > 0 {
            let mut m = usize_to_chars(count);
            push_all(&mut m, &str_to_chars(" images lazy-loaded"));
            optimizations.push(chars_to_string(&m));
        }
    }
    proof {
        assert(optimized@ == gs3);
        assert(views_of_strings(optimizations@) =~= gm1 + gm2 + gm3);
    }

    if options.defer_js {
        let count = defer_scripts(&mut optimized);
        if count > 0 {
            let mut m = usize_to_chars(count);
            push_all(&mut m, &str_to_chars(" scripts deferred"));
            optimizations.push(chars_to_string(&m));
        }
    }
    proof {
        assert(optimized@ == gs4);
        assert(views_of_strings(optimizations@) =~= gm1 + gm2 + gm3 + gm4);
    }

    let dims_count = count_images_without_dimensions(optimized.as_str());
    if dims_count > 0 {
        let mut m = usize_to_chars(dims_count);
        push_all(&mut m, &str_to_chars(" images need dimensions"));
        optimizations.push(chars_to_string(&m));
    }
    proof {
        assert(views_of_strings(optimizations@) =~= gm1 + gm2 + gm3 + gm4 + gm5);
    }

    let preconnects = add_preconnect_hints(&mut optimized);
    if preconnects > 0 {
        let mut m = usize_to_chars(preconnects);
        push_all(&mut m, &str_to_chars(" preconnect hints added"));
        optimizations.push(chars_to_string(&m));
    }
    proof {
        assert(optimized@ == pipeline_head_spec(html@, *options).0);
        assert(views_of_strings(optimizations@) =~= gm1 + gm2 + gm3 + gm4 + gm5 + gm6);
        assert(views_of_strings(optimizations@) =~= pipeline_head_spec(html@, *options).1);
    }
    (optimized, optimizations)
}

/// Run the whole pipeline over one document.  An empty document is a
/// client fault and the only fatal input; every pass-local fault
/// degrades to leaving its fragment untouched instead.
#[verifier::rlimit(100)]
pub fn optimize_html(html: &str, url: &str, options: &OptimizeOptions) -> (r: Result<
    OptimizeResult,
    AppError,
>)
    ensures
        html@.len() == 0 <==> r is Err,
        r is Err ==> r->Err_0 is BadRequest && r->Err_0->BadRequest_0@ == "HTML is required"@,
        r is Ok ==> ({
            let p = pipeline_spec(html@, url@, *options);
            &&& r->Ok_0.html@ == p.0
            &&& views_of_strings(r->Ok_0.optimizations@) == p.1
            &&& r->Ok_0.original_size == html@.len()
            &&& r->Ok_0.optimized_size == p.0.len()
            &&& r->Ok_0.reduction_percent_tenths == reduction_tenths(
                html@.len() as int,
                p.0.len() as int,
            )
        }),
{
    if html.unicode_len() == 0 {
        return Err(AppError::BadRequest(String::from_str("HTML is required")));
    }
    let original_size = html.unicode_len();
    let ghost p = pipeline_spec(html@, url@, *options);
    let ghost ghead = pipeline_head_spec(html@, *options);
    let ghost gs5: Seq<char> = ghead.0;
    let ghost gseo = crate::seo_optimizer::seo_spec(gs5, url@, Seq::empty());
    let ghost gs6: Seq<char> = gseo.0;
    let ghost gm7: Seq<Seq<char>> = gseo.1.map_values(seo_prefix_fn());
    let ghost ginj = crate::schema_generator::inject_schema_spec(gs6, url@);
    let ghost gs7: Seq<char> = ginj.0;
    let ghost gm8: Seq<Seq<char>> = if ginj.1 > 0 {
        seq![dec_digits(ginj.1) + " Schema.org types added"@]
    } else {
        Seq::empty()
    };
    let ghost gwc = scan_tags_count(gs7, 0, "<img"@, crate::image_optimizer::webp_candidate_fn());
    let ghost gdc = scan_tags_count(gs7, 0, "<img"@, missing_dims_fn());
    let ghost gm9: Seq<Seq<char>> = ((if gwc > 0 {
        seq![dec_digits(gwc) + " images can be converted to WebP"@]
    } else {
        Seq::empty()
    }) + (if gdc > 0 {
        seq![dec_digits(gdc) + " images missing width/height (causes CLS)"@]
    } else {
        Seq::empty()
    })).map_values(image_prefix_fn());
    let ghost gm10: Seq<Seq<char>> = match crate::image_optimizer::lcp_hint_spec(gs7) {
        Some(h) => seq!["LCP: "@ + h],
        None => Seq::empty(),
    };
    proof {
        assert(p.0 == gs7);
        assert(p.1 == ghead.1 + gm7 + gm8 + gm9 + gm10);
    }

    let head = run_pipeline_head(html, options);
    let mut optimized = head.0;
    let mut optimizations = head.1;
    let ghost c6 = optimizations@;

    let seo_optimizer = crate::seo_optimizer::SeoOptimizer::new();
    let seo_result = seo_optimizer.optimize(optimized.as_str(), url);
    optimized = seo_result.html;
    let mut sk: usize = 0;
    let ghost seo_changes = seo_result.changes@;
    while sk < seo_result.changes.len()
        invariant
            sk <= seo_changes.len(),
            seo_result.changes@ == seo_changes,
            views_of_strings(optimizations@) == views_of_strings(c6) + views_of_strings(
                seo_changes.take(sk as int),
            ).map_values(seo_prefix_fn()),
        decreases seo_changes.len() - sk,
    {
        let mut m = str_to_chars("SEO: ");
        push_all(&mut m, &str_to_chars(seo_result.changes[sk].as_str()));
        let ghost prev_opt = optimizations@;
        optimizations.push(chars_to_string(&m));
        proof {
            assert(views_of_strings(optimizations@) =~= views_of_strings(prev_opt).push(m@));
            assert(views_of_strings(seo_changes.take(sk + 1)) =~= views_of_strings(
                seo_changes.take(sk as int),
            ).push(seo_changes[sk as int]@));
            assert(views_of_strings(seo_changes.take(sk + 1)).map_values(seo_prefix_fn())
                =~= views_of_strings(seo_changes.take(sk as int)).map_values(
                seo_prefix_fn(),
            ).push(seo_prefix_fn()(seo_changes[sk as int]@)));
            assert(views_of_strings(optimizations@) =~= views_of_strings(c6) + views_of_strings(
                seo_changes.take(sk + 1),
            ).map_values(seo_prefix_fn()));
        }
        sk += 1;
    }
    proof {
        assert(seo_changes.take(seo_changes.len() as int) =~= seo_changes);
    }
    let ghost c7 = optimizations@;
    proof {
        assert(optimized@ == gs6);
        assert(views_of_strings(c7) =~= views_of_strings(c6) + gm7) by {
            assert(views_of_strings(seo_changes) == gseo.1);
        }
    }

    let schemas_added = crate::schema_generator::inject_schema(&mut optimized, url);
    if schemas_added > 0 {
        let mut m = usize_to_chars(schemas_added);
        push_all(&mut m, &str_to_chars(" Schema.org types added"));
        optimizations.push(chars_to_string(&m));
    }
    let ghost c8 = optimizations@;
    proof {
        assert(optimized@ == gs7);
        assert(views_of_strings(c8) =~= views_of_strings(c7) + gm8);
    }

    let image_result = crate::image_optimizer::analyze_images(optimized.as_str());
    let mut ik: usize = 0;
    let ghost img_msgs = image_result.optimizations@;
    while ik < image_result.optimizations.len()
        invariant
            ik <= img_msgs.len(),
            image_result.optimizations@ == img_msgs,
            views_of_strings(optimizations@) == views_of_strings(c8) + views_of_strings(
                img_msgs.take(ik as int),
            ).map_values(image_prefix_fn()),
        decreases img_msgs.len() - ik,
    {
        let mut m = str_to_chars("Image: ");
        push_all(&mut m, &str_to_chars(image_result.optimizations[ik].as_str()));
        let ghost prev_opt = optimizations@;
        optimizations.push(chars_to_string(&m));
        proof {
            assert(views_of_strings(optimizations@) =~= views_of_strings(prev_opt).push(m@));
            assert(views_of_strings(img_msgs.take(ik + 1)) =~= views_of_strings(
                img_msgs.take(ik as int),
            ).push(img_msgs[ik as int]@));
            assert(views_of_strings(img_msgs.take(ik + 1)).map_values(image_prefix_fn())
                =~= views_of_strings(img_msgs.take(ik as int)).map_values(
                image_prefix_fn(),
            ).push(image_prefix_fn()(img_msgs[ik as int]@)));
            assert(views_of_strings(optimizations@) =~= views_of_strings(c8) + views_of_strings(
                img_msgs.take(ik + 1),
            ).map_values(image_prefix_fn()));
        }
        ik += 1;
    }
    proof {
        assert(img_msgs.take(img_msgs.len() as int) =~= img_msgs);
    }
    let ghost c9 = optimizations@;
    proof {
        assert(views_of_strings(c9) =~= views_of_strings(c8) + gm9) by {
            assert(views_of_strings(img_msgs).map_values(image_prefix_fn()) == gm9);
        }
    }

    match crate::image_optimizer::check_lcp_optimization(optimized.as_str()) {
        Some(hint) => {
            let mut m = str_to_chars("LCP: ");
            push_all(&mut m, &str_to_chars(hint.as_str()));
            let ghost prev_opt = optimizations@;
            optimizations.push(chars_to_string(&m));
            proof {
                assert(views_of_strings(optimizations@) =~= views_of_strings(prev_opt).push(m@));
                assert(views_of_strings(optimizations@) =~= views_of_strings(c9) + gm10);
            }
        },
        None => {
            proof {
                assert(views_of_strings(optimizations@) =~= views_of_strings(c9) + gm10);
            }
        },
    }

    let optimized_size = optimized.as_str().unicode_len();
    let tenths = crate::stats::reduction_tenths_exec(original_size, optimized_size);
    proof {
        assert(views_of_strings(optimizations@) =~= p.1);
    }
    Ok(
        OptimizeResult {
            html: optimized,
            original_size,
            optimized_size,
            reduction_percent_tenths: tenths,
            optimizations,
        },
    )
}
} // verus!
