//! Metadata passes: alt-text injection, meta description, Open Graph
//! and Twitter tags, canonical links, external-link hardening and a
//! simple score.

use vstd::prelude::*;

use crate::scan::{
    attr_value, attr_value_exec, char_pred, find_char_from, find_ci_at, find_ci_from,
    find_if_from, insert_at, insert_chars, lemma_find_ci_from, lemma_find_if_from_is,
    replace_all, replace_all_cs, replace_first, replace_first_cs, scan_exec, scan_tags,
    scan_tags_count,
};
use crate::text::{
    chars_to_string, contains_cs, has_cs, is_space_char, lower_seq, matches_at_ci, matches_at_cs, push_all, push_range,
    str_to_chars, to_lower_vec, to_upper_char, upper_char, trim_chars, trim_spec, dec_digits,
    usize_to_chars, views_of_strings,
};

verus! {

/// Index of the last occurrence of `c` in `s`, or `-1` when there is
/// none.
pub open spec fn rfind_char(s: Seq<char>, c: char) -> int
    decreases s.len(),
{
    if s.len() == 0 {
        -1
    } else if s[s.len() - 1] == c {
        s.len() - 1
    } else {
        rfind_char(s.drop_last(), c)
    }
}

pub proof fn lemma_rfind_char_is(s: Seq<char>, c: char, j: int)
    requires
        -1 <= j < s.len(),
        j >= 0 ==> s[j] == c,
        forall|m: int| j < m < s.len() ==> s[m] != c,
    ensures
        rfind_char(s, c) == j,
    decreases s.len(),
{
    if s.len() > 0 {
        if s[s.len() - 1] == c {
            assert(j == s.len() - 1);
        } else {
            lemma_rfind_char_is(s.drop_last(), c, j);
        }
    }
}

/// Last occurrence of `c` in `s`: its index plus one, or zero.
pub fn rfind_char_pub(s: &Vec<char>, c: char) -> (r: usize)
    ensures
        r == rfind_char(s@, c) + 1,
        r <= s@.len(),
{
    rfind_char_exec(s, c)
}

fn rfind_char_exec(s: &Vec<char>, c: char) -> (r: usize)
    ensures
        r == rfind_char(s@, c) + 1,
        r <= s@.len(),
{
    let mut i: usize = s.len();
    while i > 0
        invariant
            i <= s@.len(),
            forall|m: int| i <= m < s@.len() ==> s@[m] != c,
        decreases i,
    {
        if s[i - 1] == c {
            proof {
                lemma_rfind_char_is(s@, c, i - 1);
            }
            return i;
        }
        i -= 1;
    }
    proof {
        lemma_rfind_char_is(s@, c, -1);
    }
    0
}

/// The label derived from an image path: the last path segment up to
/// its first `.`, with `-` and `_` turned into spaces and the first
/// letter capitalized.
pub open spec fn label_of_path(src: Seq<char>) -> Seq<char> {
    let fname = src.skip(rfind_char(src, '/') + 1);
    let name = fname.take(find_if_from(fname, 0, char_pred('.')) as int);
    let spaced = name.map_values(
        |c: char|
            if c == '-' || c == '_' {
                ' '
            } else {
                c
            },
    );
    if spaced.len() > 0 {
        seq![upper_char(spaced[0])] + spaced.skip(1)
    } else {
        spaced
    }
}

/// The alt text derived from the `src` of an image tag: a label from
/// the file name, or `Image` when the tag has no quoted `src`.
pub open spec fn alt_from_src_spec(tag: Seq<char>) -> Seq<char> {
    let k = find_ci_from(tag, "src="@, 0);
    if k < tag.len() && k + 4 < tag.len() && (tag[k + 4 as int] == '"' || tag[k + 4 as int] == '\'') {
        let q = tag[k + 4 as int];
        let e = find_if_from(tag, (k + 5) as nat, char_pred(q));
        if e < tag.len() {
            label_of_path(tag.subrange(k + 5 as int, e as int))
        } else {
            "Image"@
        }
    } else {
        "Image"@
    }
}

/// Derive a readable alt text from an image tag's `src` file name;
/// `Image` when there is none.
pub fn extract_alt_from_src(img_tag: &str) -> (r: String)
    ensures
        r@ == alt_from_src_spec(img_tag@),
{
    proof {
        reveal_strlit("src=");
    }
    let tag = str_to_chars(img_tag);
    let n = tag.len();
    let pat = str_to_chars("src=");
    let k = find_ci_at(&tag, &pat, 0);
    if k < n && k + 4 < n && (tag[k + 4] == '"' || tag[k + 4] == '\'') {
        let q = tag[k + 4];
        let e = find_char_from(&tag, k + 5, q);
        if e < n {
            let mut src: Vec<char> = Vec::new();
            push_range(&mut src, &tag, k + 5, e);
            proof {
                assert(src@ =~= tag@.subrange(k + 5, e as int));
            }
            // last path segment
            let sl = rfind_char_exec(&src, '/');
            let mut fname: Vec<char> = Vec::new();
            let sn = src.len();
            push_range(&mut fname, &src, sl, sn);
            proof {
                assert(fname@ =~= src@.skip(rfind_char(src@, '/') + 1));
            }
            // up to the first dot
            let dot = find_char_from(&fname, 0, '.');
            let mut out: Vec<char> = Vec::new();
            let mut i: usize = 0;
            while i < dot
                invariant
                    i <= dot <= fname@.len(),
                    out@.len() == i,
                    forall|m: int|
                        0 <= m < i ==> out@[m] == (if fname@[m] == '-' || fname@[m] == '_' {
                            ' '
                        } else {
                            fname@[m]
                        }),
                decreases dot - i,
            {
                let c = fname[i];
                if c == '-' || c == '_' {
                    out.push(' ');
                } else {
                    out.push(c);
                }
                i += 1;
            }
            proof {
                let name = fname@.take(find_if_from(fname@, 0, char_pred('.')) as int);
                assert(out@ =~= name.map_values(
                    |c: char|
                        if c == '-' || c == '_' {
                            ' '
                        } else {
                            c
                        },
                ));
            }
            if out.len() > 0 {
                let c0 = to_upper_char(out[0]);
                let mut cap: Vec<char> = Vec::new();
                cap.push(c0);
                let on = out.len();
                push_range(&mut cap, &out, 1, on);
                proof {
                    assert(cap@ =~= seq![upper_char(out@[0])] + out@.skip(1));
                }
                return chars_to_string(&cap);
            }
            return chars_to_string(&out);
        }
    }
    let r = String::from_str("Image");
    r
}

/// An `img` tag needs an alt attribute when none appears in it.
pub open spec fn alt_needs(tag: Seq<char>) -> bool {
    !contains_cs(lower_seq(tag), "alt="@)
}

pub open spec fn alt_tr(tag: Seq<char>) -> Seq<char> {
    if alt_needs(tag) {
        replace_first_cs(tag, "<img"@, "<img alt=\""@ + alt_from_src_spec(tag) + "\""@)
    } else {
        tag
    }
}

pub open spec fn alt_tr_fn() -> spec_fn(Seq<char>) -> Seq<char> {
    |t: Seq<char>| alt_tr(t)
}

pub open spec fn alt_needs_fn() -> spec_fn(Seq<char>) -> bool {
    |t: Seq<char>| alt_needs(t)
}

pub open spec fn alt_spec(s: Seq<char>) -> Seq<char> {
    scan_tags(s, 0, "<img"@, alt_tr_fn())
}

pub open spec fn alt_count_spec(s: Seq<char>) -> nat {
    scan_tags_count(s, 0, "<img"@, alt_needs_fn())
}

fn alt_transform(tag: Vec<char>) -> (r: (Vec<char>, bool))
    ensures
        r.0@ == alt_tr(tag@),
        r.1 == alt_needs(tag@),
{
    proof {
        reveal_strlit("alt=");
        reveal_strlit("<img");
        reveal_strlit("\"");
        reveal_strlit("<img alt=\"");
    }
    let lo = to_lower_vec(&tag);
    if !has_cs(&lo, &str_to_chars("alt=")) {
        let alt = extract_alt_from_src(chars_to_string(&tag).as_str());
        let mut rep: Vec<char> = Vec::new();
        push_all(&mut rep, &str_to_chars("<img alt=\""));
        push_all(&mut rep, &str_to_chars(alt.as_str()));
        rep.push('"');
        proof {
            assert(rep@ =~= "<img alt=\""@ + alt_from_src_spec(tag@) + "\""@);
        }
        let r = replace_first(&tag, &str_to_chars("<img"), &rep);
        (r, true)
    } else {
        (tag, false)
    }
}

/// Give every `img` tag without an alt attribute one derived from its
/// file name.
pub fn add_alt_tags(html: &mut String) -> (count: usize)
    ensures
        final(html)@ == alt_spec(old(html)@),
        count == alt_count_spec(old(html)@),
{
    proof {
        reveal_strlit("<img");
    }
    let v = str_to_chars(html.as_str());
    let pat = str_to_chars("<img");
    let r = scan_exec(&v, &pat, alt_transform, Ghost(alt_tr_fn()), Ghost(alt_needs_fn()));
    *html = chars_to_string(&r.0);
    r.1
}

/// An anchor tag is hardened when it points at an external target
/// (`http` plus `target="_blank"`) and has no `noopener` yet.
pub open spec fn link_needs(tag: Seq<char>) -> bool {
    let lo = lower_seq(tag);
    contains_cs(lo, "http"@) && (contains_cs(lo, "target=\"_blank\""@) || contains_cs(
        lo,
        "target='_blank'"@,
    )) && !contains_cs(lo, "noopener"@)
}

pub open spec fn link_tr(tag: Seq<char>) -> Seq<char> {
    if link_needs(tag) {
        if contains_cs(lower_seq(tag), "rel="@) {
            replace_all_cs(
                replace_all_cs(tag, "rel=\""@, "rel=\"noopener noreferrer "@),
                "rel='"@,
                "rel='noopener noreferrer "@,
            )
        } else {
            replace_first_cs(tag, "<a"@, "<a rel=\"noopener noreferrer\""@)
        }
    } else {
        tag
    }
}

pub open spec fn link_tr_fn() -> spec_fn(Seq<char>) -> Seq<char> {
    |t: Seq<char>| link_tr(t)
}

pub open spec fn link_needs_fn() -> spec_fn(Seq<char>) -> bool {
    |t: Seq<char>| link_needs(t)
}

pub open spec fn links_spec(s: Seq<char>) -> Seq<char> {
    scan_tags(s, 0, "<a"@, link_tr_fn())
}

pub open spec fn links_count_spec(s: Seq<char>) -> nat {
    scan_tags_count(s, 0, "<a"@, link_needs_fn())
}

fn link_transform(tag: Vec<char>) -> (r: (Vec<char>, bool))
    ensures
        r.0@ == link_tr(tag@),
        r.1 == link_needs(tag@),
{
    proof {
        reveal_strlit("http");
        reveal_strlit("target=\"_blank\"");
        reveal_strlit("target='_blank'");
        reveal_strlit("noopener");
        reveal_strlit("rel=");
        reveal_strlit("rel=\"");
        reveal_strlit("rel='");
        reveal_strlit("<a");
    }
    let lo = to_lower_vec(&tag);
    let is_external = has_cs(&lo, &str_to_chars("http")) && (has_cs(
        &lo,
        &str_to_chars("target=\"_blank\""),
    ) || has_cs(&lo, &str_to_chars("target='_blank'")));
    let has_noopener = has_cs(&lo, &str_to_chars("noopener"));
    if is_external && !has_noopener {
        if has_cs(&lo, &str_to_chars("rel=")) {
            let step = replace_all(
                &tag,
                &str_to_chars("rel=\""),
                &str_to_chars("rel=\"noopener noreferrer "),
            );
            let r = replace_all(
                &step,
                &str_to_chars("rel='"),
                &str_to_chars("rel='noopener noreferrer "),
            );
            (r, true)
        } else {
            let r = replace_first(
                &tag,
                &str_to_chars("<a"),
                &str_to_chars("<a rel=\"noopener noreferrer\""),
            );
            (r, true)
        }
    } else {
        (tag, false)
    }
}

/// Add `rel="noopener noreferrer"` to external links opened in a new
/// tab.
pub fn fix_external_links(html: &mut String) -> (count: usize)
    ensures
        final(html)@ == links_spec(old(html)@),
        count == links_count_spec(old(html)@),
{
    proof {
        reveal_strlit("<a");
    }
    let v = str_to_chars(html.as_str());
    let pat = str_to_chars("<a");
    let r = scan_exec(&v, &pat, link_transform, Ghost(link_tr_fn()), Ghost(link_needs_fn()));
    *html = chars_to_string(&r.0);
    r.1
}

/// An `img` tag with no quoted `alt` attribute.
pub open spec fn img_no_alt(tag: Seq<char>) -> bool {
    attr_value(tag, "alt"@) is None
}

pub open spec fn img_no_alt_fn() -> spec_fn(Seq<char>) -> bool {
    |t: Seq<char>| img_no_alt(t)
}

pub open spec fn seo_id_fn() -> spec_fn(Seq<char>) -> Seq<char> {
    |t: Seq<char>| t
}

fn img_no_alt_probe(tag: Vec<char>) -> (r: (Vec<char>, bool))
    ensures
        r.0@ == tag@,
        r.1 == img_no_alt(tag@),
{
    let a = attr_value_exec(&tag, &str_to_chars("alt"));
    let b = match a {
        Some(_) => false,
        None => true,
    };
    (tag, b)
}

/// The simple score: a base of fifty plus fixed credits for a title,
/// a meta description, a top heading, Open Graph tags, a canonical
/// link, and alt text on every image.
pub open spec fn score_spec(s: Seq<char>) -> u8 {
    let lo = lower_seq(s);
    let a: u8 = if contains_cs(lo, "<title>"@) && contains_cs(lo, "</title>"@) {
        60
    } else {
        50
    };
    let b: u8 = if contains_cs(lo, "name=\"description\""@) {
        (a + 10) as u8
    } else {
        a
    };
    let c: u8 = if contains_cs(lo, "<h1"@) && contains_cs(lo, "</h1>"@) {
        (b + 10) as u8
    } else {
        b
    };
    let d: u8 = if contains_cs(lo, "og:title"@) && contains_cs(lo, "og:description"@) {
        (c + 10) as u8
    } else {
        c
    };
    let e: u8 = if contains_cs(lo, "rel=\"canonical\""@) {
        (d + 5) as u8
    } else {
        d
    };
    if scan_tags_count(s, 0, "<img"@, img_no_alt_fn()) == 0 {
        (e + 5) as u8
    } else {
        e
    }
}

/// Score a document against the simple checklist.
pub fn calculate_seo_score(html: &str) -> (score: u8)
    ensures
        score == score_spec(html@),
{
    proof {
        reveal_strlit("<title>");
        reveal_strlit("</title>");
        reveal_strlit("name=\"description\"");
        reveal_strlit("<h1");
        reveal_strlit("</h1>");
        reveal_strlit("og:title");
        reveal_strlit("og:description");
        reveal_strlit("rel=\"canonical\"");
        reveal_strlit("<img");
    }
    let v = str_to_chars(html);
    let lo = to_lower_vec(&v);
    let mut score: u8 = 50;
    if has_cs(&lo, &str_to_chars("<title>")) && has_cs(&lo, &str_to_chars("</title>")) {
        score = score + 10;
    }
    if has_cs(&lo, &str_to_chars("name=\"description\"")) {
        score = score + 10;
    }
    if has_cs(&lo, &str_to_chars("<h1")) && has_cs(&lo, &str_to_chars("</h1>")) {
        score = score + 10;
    }
    if has_cs(&lo, &str_to_chars("og:title")) && has_cs(&lo, &str_to_chars("og:description")) {
        score = score + 10;
    }
    if has_cs(&lo, &str_to_chars("rel=\"canonical\"")) {
        score = score + 5;
    }
    let pat = str_to_chars("<img");
    let r = scan_exec(&v, &pat, img_no_alt_probe, Ghost(seo_id_fn()), Ghost(img_no_alt_fn()));
    if r.1 == 0 {
        score = score + 5;
    }
    score
}

/// The document after the canonical pass: a canonical link inserted
/// before `</head>` when none exists.
pub open spec fn canonical_tag(url: Seq<char>) -> Seq<char> {
    "<link rel=\"canonical\" href=\""@ + url + "\">\n"@
}

pub open spec fn canonical_added(s: Seq<char>, url: Seq<char>) -> bool {
    let lo = lower_seq(s);
    !contains_cs(lo, "rel=\"canonical\""@) && !contains_cs(lo, "rel='canonical'"@)
        && find_ci_from(s, "</head>"@, 0) < s.len()
}

pub open spec fn canonical_spec(s: Seq<char>, url: Seq<char>) -> Seq<char> {
    if canonical_added(s, url) {
        insert_at(s, find_ci_from(s, "</head>"@, 0), canonical_tag(url))
    } else {
        s
    }
}

/// Add a canonical link before `</head>` when the document has none.
pub fn add_canonical_url(html: &mut String, url: &str) -> (added: bool)
    ensures
        final(html)@ == canonical_spec(old(html)@, url@),
        added == canonical_added(old(html)@, url@),
{
    proof {
        reveal_strlit("rel=\"canonical\"");
        reveal_strlit("rel='canonical'");
        reveal_strlit("</head>");
    }
    let v = str_to_chars(html.as_str());
    let lo = to_lower_vec(&v);
    if has_cs(&lo, &str_to_chars("rel=\"canonical\"")) || has_cs(
        &lo,
        &str_to_chars("rel='canonical'"),
    ) {
        return false;
    }
    let p = find_ci_at(&v, &str_to_chars("</head>"), 0);
    if p < v.len() {
        let mut tag: Vec<char> = Vec::new();
        push_all(&mut tag, &str_to_chars("<link rel=\"canonical\" href=\""));
        push_all(&mut tag, &str_to_chars(url));
        push_all(&mut tag, &str_to_chars("\">\n"));
        proof {
            assert(tag@ =~= canonical_tag(url@));
        }
        let out = insert_chars(&v, p, &tag);
        *html = chars_to_string(&out);
        return true;
    }
    false
}

/// The document after the Twitter pass: a summary-card tag inserted
/// before `</head>` when none exists.
pub open spec fn twitter_tag() -> Seq<char> {
    "<meta name=\"twitter:card\" content=\"summary_large_image\">\n"@
}

pub open spec fn twitter_needed(s: Seq<char>) -> bool {
    !contains_cs(lower_seq(s), "twitter:card"@)
}

pub open spec fn twitter_spec(s: Seq<char>) -> Seq<char> {
    if twitter_needed(s) && find_ci_from(s, "</head>"@, 0) < s.len() {
        insert_at(s, find_ci_from(s, "</head>"@, 0), twitter_tag())
    } else {
        s
    }
}

/// Add a Twitter card tag when the document has none.  The count of
/// tags called for is returned even when the document has no head to
/// insert them into.
pub fn add_twitter_card_tags(html: &mut String) -> (count: usize)
    ensures
        final(html)@ == twitter_spec(old(html)@),
        count == (if twitter_needed(old(html)@) {
            1int
        } else {
            0int
        }),
{
    proof {
        reveal_strlit("twitter:card");
        reveal_strlit("</head>");
    }
    let v = str_to_chars(html.as_str());
    let lo = to_lower_vec(&v);
    if has_cs(&lo, &str_to_chars("twitter:card")) {
        return 0;
    }
    let p = find_ci_at(&v, &str_to_chars("</head>"), 0);
    if p < v.len() {
        let tag = str_to_chars("<meta name=\"twitter:card\" content=\"summary_large_image\">\n");
        let out = insert_chars(&v, p, &tag);
        *html = chars_to_string(&out);
    }
    1
}


/// The text of a markup region with every `<...>` span removed.
pub open spec fn strip_tags(s: Seq<char>, i: nat, intag: bool) -> Seq<char>
    decreases s.len() - i,
    when i <= s.len()
{
    if i >= s.len() {
        Seq::empty()
    } else if intag {
        if s[i as int] == '>' {
            strip_tags(s, (i + 1) as nat, false)
        } else {
            strip_tags(s, (i + 1) as nat, true)
        }
    } else if s[i as int] == '<' {
        strip_tags(s, (i + 1) as nat, true)
    } else {
        seq![s[i as int]] + strip_tags(s, (i + 1) as nat, false)
    }
}

fn strip_tags_exec(s: &Vec<char>) -> (r: Vec<char>)
    ensures
        r@ == strip_tags(s@, 0, false),
{
    let n = s.len();
    let mut out: Vec<char> = Vec::new();
    let mut intag: bool = false;
    let mut i: usize = 0;
    while i < n
        invariant
            i <= n,
            n == s@.len(),
            strip_tags(s@, 0, false) == out@ + strip_tags(s@, i as nat, intag),
        decreases n - i,
    {
        let c = s[i];
        if intag {
            if c == '>' {
                intag = false;
            }
        } else if c == '<' {
            intag = true;
        } else {
            out.push(c);
        }
        i += 1;
    }
    proof {
        assert(out@ =~= strip_tags(s@, 0, false));
    }
    out
}

/// A description cut to at most 155 characters at a word boundary,
/// with a trailing ellipsis.
pub open spec fn desc_of(clean: Seq<char>) -> Seq<char> {
    let tr = if clean.len() > 155 {
        clean.take(155)
    } else {
        clean
    };
    let ls = rfind_char(tr, ' ');
    if ls >= 0 {
        tr.take(ls) + "..."@
    } else {
        tr + "..."@
    }
}

fn desc_of_exec(clean: &Vec<char>) -> (r: Vec<char>)
    ensures
        r@ == desc_of(clean@),
{
    let mut tr: Vec<char> = Vec::new();
    let cut: usize = if clean.len() > 155 {
        155
    } else {
        clean.len()
    };
    push_range(&mut tr, clean, 0, cut);
    proof {
        if clean@.len() > 155 {
            assert(tr@ =~= clean@.take(155));
        } else {
            assert(tr@ =~= clean@);
        }
    }
    let ls = rfind_char_exec(&tr, ' ');
    let mut out: Vec<char> = Vec::new();
    if ls > 0 {
        push_range(&mut out, &tr, 0, ls - 1);
        proof {
            assert(out@ =~= tr@.take(rfind_char(tr@, ' ')));
        }
    } else {
        push_all(&mut out, &tr);
    }
    push_all(&mut out, &str_to_chars("..."));
    proof {
        assert(out@ =~= desc_of(clean@));
    }
    out
}

/// Whether a `p` element opens at `i`.
pub open spec fn is_p_start(s: Seq<char>, i: nat) -> bool {
    matches_at_ci(s, i as int, "<p"@) && i + 2 < s.len() && (s[(i + 2) as int] == '>'
        || is_space_char(s[(i + 2) as int]))
}

/// The description taken from the first paragraph whose stripped text
/// is longer than fifty characters.
pub open spec fn first_p_desc(s: Seq<char>, i: nat) -> Option<Seq<char>>
    decreases s.len() - i,
    when i <= s.len()
    via first_p_desc_dec
{
    if i >= s.len() {
        None
    } else if is_p_start(s, i) {
        let te = crate::scan::tag_end(s, i);
        let ce = find_ci_from(s, "</p"@, te);
        let region = s.subrange(te as int, if ce < s.len() {
            ce as int
        } else {
            s.len() as int
        });
        let clean = trim_spec(strip_tags(region, 0, false));
        if clean.len() > 50 {
            Some(desc_of(clean))
        } else {
            first_p_desc(s, te)
        }
    } else {
        first_p_desc(s, (i + 1) as nat)
    }
}

#[via_fn]
proof fn first_p_desc_dec(s: Seq<char>, i: nat) {
    reveal_strlit("</p");
    if i < s.len() {
        crate::scan::lemma_find_gt_from(s, i);
        if is_p_start(s, i) {
            lemma_find_ci_from(s, "</p"@, crate::scan::tag_end(s, i));
        }
    }
}

/// The text of the first `title` element, trimmed; empty when the
/// document has none.
pub open spec fn title_text(s: Seq<char>) -> Seq<char> {
    let k = find_ci_from(s, "<title"@, 0);
    if k < s.len() {
        let te = crate::scan::tag_end(s, k);
        let ce = find_ci_from(s, "</title"@, te);
        let region = s.subrange(te as int, if ce < s.len() {
            ce as int
        } else {
            s.len() as int
        });
        trim_spec(strip_tags(region, 0, false))
    } else {
        Seq::empty()
    }
}

/// A description generated from the document: the first long
/// paragraph, cut at a word boundary, or the title text.
pub open spec fn gen_desc_spec(s: Seq<char>) -> Seq<char> {
    match first_p_desc(s, 0) {
        Some(d) => d,
        None => title_text(s),
    }
}

fn title_text_exec(v: &Vec<char>) -> (r: Vec<char>)
    ensures
        r@ == title_text(v@),
{
    proof {
        reveal_strlit("<title");
        reveal_strlit("</title");
    }
    let n = v.len();
    let k = find_ci_at(v, &str_to_chars("<title"), 0);
    if k < n {
        let mut j: usize = k;
        while j < n && v[j] != '>'
            invariant
                k <= j <= n,
                n == v@.len(),
                forall|m: int| k <= m < j ==> v@[m] != '>',
            decreases n - j,
        {
            j += 1;
        }
        proof {
            crate::scan::lemma_find_gt_from_is(v@, k as nat, j as nat);
        }
        let te = if j < n {
            j + 1
        } else {
            n
        };
        let ce = find_ci_at(v, &str_to_chars("</title"), te);
        let mut region: Vec<char> = Vec::new();
        push_range(&mut region, v, te, ce);
        proof {
            assert(region@ =~= v@.subrange(te as int, ce as int));
        }
        let stripped = strip_tags_exec(&region);
        let r = trim_chars(&stripped);
        return r;
    }
    let r: Vec<char> = Vec::new();
    proof {
        assert(r@ =~= title_text(v@));
    }
    r
}

fn gen_desc_exec(v: &Vec<char>) -> (r: Vec<char>)
    ensures
        r@ == gen_desc_spec(v@),
{
    proof {
        reveal_strlit("<p");
        reveal_strlit("</p");
    }
    let n = v.len();
    let mut i: usize = 0;
    while i < n
        invariant
            i <= n,
            n == v@.len(),
            first_p_desc(v@, 0) == first_p_desc(v@, i as nat),
        decreases n - i,
    {
        proof {
            reveal_strlit("<p");
            reveal_strlit("</p");
        }
        let mut isp = false;
        if crate::text::match_at_ci(v, i, &str_to_chars("<p")) {
            if n - i > 2 {
                let c2 = v[i + 2];
                if c2 == '>' || crate::text::is_space(c2) {
                    isp = true;
                }
            }
        }
        if isp {
            let mut j: usize = i;
            while j < n && v[j] != '>'
                invariant
                    i <= j <= n,
                    n == v@.len(),
                    forall|m: int| i <= m < j ==> v@[m] != '>',
                decreases n - j,
            {
                j += 1;
            }
            proof {
                crate::scan::lemma_find_gt_from_is(v@, i as nat, j as nat);
            }
            let te = if j < n {
                j + 1
            } else {
                n
            };
            let ce = find_ci_at(v, &str_to_chars("</p"), te);
            let mut region: Vec<char> = Vec::new();
            push_range(&mut region, v, te, ce);
            proof {
                assert(region@ =~= v@.subrange(te as int, ce as int));
            }
            let stripped = strip_tags_exec(&region);
            let clean = trim_chars(&stripped);
            if clean.len() > 50 {
                let d = desc_of_exec(&clean);
                return d;
            }
            i = te;
        } else {
            i += 1;
        }
    }
    title_text_exec(v)
}

/// What the meta-description check found.
#[derive(PartialEq, Eq, Structural)]
pub enum MetaResult {
    Added,
    Exists,
    TooShort,
    TooLong,
}

/// The outcome of the meta-description check: `Added` when none
/// exists and a head is there to insert one, length verdicts for an
/// existing double-quoted description, `Exists` otherwise.
pub open spec fn meta_result_spec(s: Seq<char>) -> MetaResult {
    let lo = lower_seq(s);
    if contains_cs(lo, "name=\"description\""@) || contains_cs(lo, "name='description'"@) {
        let start = crate::scan::find_cs_from(lo, "name=\"description\""@, 0);
        if start < lo.len() {
            let rem = s.skip(start as int);
            let cs = find_ci_from(rem, "content="@, 0);
            if cs < rem.len() && cs + 9 <= rem.len() && (rem[cs + 8 as int] == '"' || rem[cs
                + 8 as int] == '\'') {
                let q = rem[cs + 8 as int];
                let e = find_if_from(rem, (cs + 9) as nat, char_pred(q));
                if e < rem.len() {
                    if e - (cs + 9) < 120 {
                        MetaResult::TooShort
                    } else if e - (cs + 9) > 160 {
                        MetaResult::TooLong
                    } else {
                        MetaResult::Exists
                    }
                } else {
                    MetaResult::Exists
                }
            } else {
                MetaResult::Exists
            }
        } else {
            MetaResult::Exists
        }
    } else if find_ci_from(s, "<head>"@, 0) < s.len() {
        MetaResult::Added
    } else {
        MetaResult::Exists
    }
}

pub open spec fn meta_desc_tag(s: Seq<char>) -> Seq<char> {
    "\n<meta name=\"description\" content=\""@ + gen_desc_spec(s) + "\">\n"@
}

pub open spec fn meta_spec(s: Seq<char>) -> Seq<char> {
    if meta_result_spec(s) is Added {
        insert_at(s, (find_ci_from(s, "<head>"@, 0) + 6) as nat, meta_desc_tag(s))
    } else {
        s
    }
}

/// Check the document's meta description; generate and insert one
/// after `<head>` when it is missing.
pub fn ensure_meta_description(html: &mut String) -> (r: MetaResult)
    ensures
        final(html)@ == meta_spec(old(html)@),
        r == meta_result_spec(old(html)@),
{
    proof {
        reveal_strlit("name=\"description\"");
        reveal_strlit("name='description'");
        reveal_strlit("content=");
        reveal_strlit("<head>");
    }
    let v = str_to_chars(html.as_str());
    let lo = to_lower_vec(&v);
    let p1 = str_to_chars("name=\"description\"");
    let p2 = str_to_chars("name='description'");
    let dq = crate::text::find_cs(&lo, &p1);
    let has_sq = has_cs(&lo, &p2);
    match dq {
        Some(start) => {
            proof {
                crate::scan::lemma_find_cs_from_is(lo@, p1@, 0, start as nat);
            }
            let mut rem: Vec<char> = Vec::new();
            let n = v.len();
            push_range(&mut rem, &v, start, n);
            proof {
                assert(rem@ =~= v@.skip(start as int));
            }
            let cs = find_ci_at(&rem, &str_to_chars("content="), 0);
            let rn = rem.len();
            if cs < rn && rn - cs >= 9 && (rem[cs + 8] == '"' || rem[cs + 8] == '\'') {
                let q = rem[cs + 8];
                let e = find_char_from(&rem, cs + 9, q);
                if e < rn {
                    let dlen = e - (cs + 9);
                    if dlen < 120 {
                        return MetaResult::TooShort;
                    } else if dlen > 160 {
                        return MetaResult::TooLong;
                    }
                    return MetaResult::Exists;
                }
                return MetaResult::Exists;
            }
            return MetaResult::Exists;
        },
        None => {
            proof {
                crate::scan::lemma_find_cs_from_is(lo@, p1@, 0, lo@.len());
            }
            if has_sq {
                return MetaResult::Exists;
            }
        },
    }
    let hp = find_ci_at(&v, &str_to_chars("<head>"), 0);
    if hp < v.len() {
        let desc = gen_desc_exec(&v);
        let mut tag: Vec<char> = Vec::new();
        push_all(&mut tag, &str_to_chars("\n<meta name=\"description\" content=\""));
        push_all(&mut tag, &desc);
        push_all(&mut tag, &str_to_chars("\">\n"));
        proof {
            assert(tag@ =~= meta_desc_tag(v@));
        }
        let out = insert_chars(&v, hp + 6, &tag);
        *html = chars_to_string(&out);
        return MetaResult::Added;
    }
    MetaResult::Exists
}

/// The content attribute of the first `meta` tag whose `name` is
/// `description`.
pub open spec fn meta_desc_content(s: Seq<char>, i: nat) -> Option<Seq<char>>
    decreases s.len() - i,
    when i <= s.len()
    via meta_desc_content_dec
{
    if i >= s.len() {
        None
    } else if matches_at_ci(s, i as int, "<meta"@) {
        let te = crate::scan::tag_end(s, i);
        let tag = s.subrange(i as int, te as int);
        if attr_value(tag, "name"@) == Some("description"@) {
            attr_value(tag, "content"@)
        } else {
            meta_desc_content(s, te)
        }
    } else {
        meta_desc_content(s, (i + 1) as nat)
    }
}

#[via_fn]
proof fn meta_desc_content_dec(s: Seq<char>, i: nat) {
    if i < s.len() {
        crate::scan::lemma_find_gt_from(s, i);
    }
}

/// The `src` of the first image tag that has one.
pub open spec fn first_img_src(s: Seq<char>, i: nat) -> Option<Seq<char>>
    decreases s.len() - i,
    when i <= s.len()
    via first_img_src_dec
{
    if i >= s.len() {
        None
    } else if matches_at_ci(s, i as int, "<img"@) {
        let te = crate::scan::tag_end(s, i);
        let tag = s.subrange(i as int, te as int);
        if attr_value(tag, "src"@) is Some {
            attr_value(tag, "src"@)
        } else {
            first_img_src(s, te)
        }
    } else {
        first_img_src(s, (i + 1) as nat)
    }
}

#[via_fn]
proof fn first_img_src_dec(s: Seq<char>, i: nat) {
    if i < s.len() {
        crate::scan::lemma_find_gt_from(s, i);
    }
}

/// The site origin of a URL: its text up to the third `/`.
pub open spec fn origin_of(url: Seq<char>) -> Seq<char> {
    let s1 = find_if_from(url, 0, char_pred('/'));
    let s2 = if s1 < url.len() {
        find_if_from(url, (s1 + 1) as nat, char_pred('/'))
    } else {
        url.len()
    };
    let s3 = if s2 < url.len() {
        find_if_from(url, (s2 + 1) as nat, char_pred('/'))
    } else {
        url.len()
    };
    url.take(s3 as int)
}

fn origin_exec(url: &Vec<char>) -> (r: Vec<char>)
    ensures
        r@ == origin_of(url@),
{
    let n = url.len();
    let s1 = find_char_from(url, 0, '/');
    let s2 = if s1 < n {
        find_char_from(url, s1 + 1, '/')
    } else {
        n
    };
    let s3 = if s2 < n {
        find_char_from(url, s2 + 1, '/')
    } else {
        n
    };
    let mut out: Vec<char> = Vec::new();
    push_range(&mut out, url, 0, s3);
    proof {
        assert(out@ =~= origin_of(url@));
    }
    out
}

/// One Open Graph meta tag.
pub open spec fn og_meta_tag(prop: Seq<char>, content: Seq<char>) -> Seq<char> {
    "<meta property=\""@ + prop + "\" content=\""@ + content + "\">\n"@
}

/// The Open Graph tags a document still needs, and their count.
pub open spec fn og_pieces(s: Seq<char>, url: Seq<char>, site_name: Seq<char>) -> (
    Seq<char>,
    nat,
) {
    let lo = lower_seq(s);
    let p1: (Seq<char>, nat) = if !contains_cs(lo, "og:url"@) {
        (og_meta_tag("og:url"@, url), 1nat)
    } else {
        (Seq::empty(), 0nat)
    };
    let p2: (Seq<char>, nat) = if !contains_cs(lo, "og:type"@) {
        (og_meta_tag("og:type"@, "website"@), 1nat)
    } else {
        (Seq::empty(), 0nat)
    };
    let p3: (Seq<char>, nat) = if !contains_cs(lo, "og:title"@) && find_ci_from(
        s,
        "<title"@,
        0,
    ) < s.len() {
        (og_meta_tag("og:title"@, title_text(s)), 1nat)
    } else {
        (Seq::empty(), 0nat)
    };
    let p4: (Seq<char>, nat) = if !contains_cs(lo, "og:description"@) && meta_desc_content(
        s,
        0,
    ) is Some {
        (og_meta_tag("og:description"@, meta_desc_content(s, 0)->0), 1nat)
    } else {
        (Seq::empty(), 0nat)
    };
    let p5: (Seq<char>, nat) = if !contains_cs(lo, "og:image"@) && first_img_src(s, 0) is Some {
        let src = first_img_src(s, 0)->0;
        let img = if matches_at_cs(src, 0, "http"@) {
            src
        } else {
            origin_of(url) + src
        };
        (og_meta_tag("og:image"@, img), 1nat)
    } else {
        (Seq::empty(), 0nat)
    };
    let p6: (Seq<char>, nat) = if !contains_cs(lo, "og:site_name"@) && site_name.len() > 0 {
        (og_meta_tag("og:site_name"@, site_name), 1nat)
    } else {
        (Seq::empty(), 0nat)
    };
    (
        p1.0 + p2.0 + p3.0 + p4.0 + p5.0 + p6.0,
        p1.1 + p2.1 + p3.1 + p4.1 + p5.1 + p6.1,
    )
}

/// The document after the Open Graph pass: missing tags inserted
/// before `</head>` when one exists.
pub open spec fn og_spec(s: Seq<char>, url: Seq<char>, site_name: Seq<char>) -> Seq<char> {
    let p = og_pieces(s, url, site_name);
    if p.1 > 0 && find_ci_from(s, "</head>"@, 0) < s.len() {
        insert_at(s, find_ci_from(s, "</head>"@, 0), p.0)
    } else {
        s
    }
}

fn meta_desc_content_exec(v: &Vec<char>) -> (r: Option<Vec<char>>)
    ensures
        match r {
            Some(x) => meta_desc_content(v@, 0) == Some(x@),
            None => meta_desc_content(v@, 0) is None,
        },
{
    let n = v.len();
    let mut i: usize = 0;
    while i < n
        invariant
            i <= n,
            n == v@.len(),
            meta_desc_content(v@, 0) == meta_desc_content(v@, i as nat),
        decreases n - i,
    {
        proof {
            reveal_strlit("<meta");
            reveal_strlit("description");
        }
        if crate::text::match_at_ci(v, i, &str_to_chars("<meta")) {
            let mut j: usize = i;
            while j < n && v[j] != '>'
                invariant
                    i <= j <= n,
                    n == v@.len(),
                    forall|m: int| i <= m < j ==> v@[m] != '>',
                decreases n - j,
            {
                j += 1;
            }
            proof {
                crate::scan::lemma_find_gt_from_is(v@, i as nat, j as nat);
            }
            let te = if j < n {
                j + 1
            } else {
                n
            };
            let mut tag: Vec<char> = Vec::new();
            push_range(&mut tag, v, i, te);
            proof {
                assert(tag@ =~= v@.subrange(i as int, te as int));
            }
            let nm = attr_value_exec(&tag, &str_to_chars("name"));
            let is_desc = match nm {
                Some(x) => {
                    let d = str_to_chars("description");
                    let m = crate::text::match_at_cs(&x, 0, &d) && x.len() == d.len();
                    proof {
                        if m {
                            assert(x@ =~= "description"@);
                        }
                    }
                    m
                },
                None => false,
            };
            proof {
                assert(is_desc == (attr_value(tag@, "name"@) == Some("description"@)));
            }
            if is_desc {
                return attr_value_exec(&tag, &str_to_chars("content"));
            }
            i = te;
        } else {
            i += 1;
        }
    }
    None
}

fn first_img_src_exec(v: &Vec<char>) -> (r: Option<Vec<char>>)
    ensures
        match r {
            Some(x) => first_img_src(v@, 0) == Some(x@),
            None => first_img_src(v@, 0) is None,
        },
{
    let n = v.len();
    let mut i: usize = 0;
    while i < n
        invariant
            i <= n,
            n == v@.len(),
            first_img_src(v@, 0) == first_img_src(v@, i as nat),
        decreases n - i,
    {
        proof {
            reveal_strlit("<img");
        }
        if crate::text::match_at_ci(v, i, &str_to_chars("<img")) {
            let mut j: usize = i;
            while j < n && v[j] != '>'
                invariant
                    i <= j <= n,
                    n == v@.len(),
                    forall|m: int| i <= m < j ==> v@[m] != '>',
                decreases n - j,
            {
                j += 1;
            }
            proof {
                crate::scan::lemma_find_gt_from_is(v@, i as nat, j as nat);
            }
            let te = if j < n {
                j + 1
            } else {
                n
            };
            let mut tag: Vec<char> = Vec::new();
            push_range(&mut tag, v, i, te);
            proof {
                assert(tag@ =~= v@.subrange(i as int, te as int));
            }
            match attr_value_exec(&tag, &str_to_chars("src")) {
                Some(x) => {
                    return Some(x);
                },
                None => {},
            }
            i = te;
        } else {
            i += 1;
        }
    }
    None
}

/// Add the Open Graph tags the document lacks, before `</head>`.
/// The count of tags called for is returned even when the document
/// has no head to insert them into.

fn og_tag_exec(prop: &Vec<char>, content: &Vec<char>) -> (r: Vec<char>)
    ensures
        r@ == og_meta_tag(prop@, content@),
{
    let mut t: Vec<char> = Vec::new();
    push_all(&mut t, &str_to_chars("<meta property=\""));
    push_all(&mut t, prop);
    push_all(&mut t, &str_to_chars("\" content=\""));
    push_all(&mut t, content);
    push_all(&mut t, &str_to_chars("\">\n"));
    proof {
        assert(t@ =~= og_meta_tag(prop@, content@));
    }
    t
}

#[verifier::rlimit(100)]
pub fn add_open_graph_tags(html: &mut String, url: &str, site_name: &str) -> (count: usize)
    ensures
        final(html)@ == og_spec(old(html)@, url@, site_name@),
        count == og_pieces(old(html)@, url@, site_name@).1,
{
    proof {
        reveal_strlit("og:url");
        reveal_strlit("og:type");
        reveal_strlit("og:title");
        reveal_strlit("og:description");
        reveal_strlit("og:image");
        reveal_strlit("og:site_name");
        reveal_strlit("<title");
        reveal_strlit("</head>");
        reveal_strlit("http");
        reveal_strlit("website");
    }
    let v = str_to_chars(html.as_str());
    let u = str_to_chars(url);
    let sn = str_to_chars(site_name);
    let lo = to_lower_vec(&v);
    let mut tags: Vec<char> = Vec::new();
    let mut count: usize = 0;
    let ghost pieces = og_pieces(v@, u@, sn@);

    if !has_cs(&lo, &str_to_chars("og:url")) {
        let tg = og_tag_exec(&str_to_chars("og:url"), &u);
        push_all(&mut tags, &tg);
        count += 1;
    }
    let ghost t1 = tags@;
    proof {
        assert(t1 =~= (if !contains_cs(lo@, "og:url"@) {
            og_meta_tag("og:url"@, u@)
        } else {
            Seq::<char>::empty()
        }));
    }
    if !has_cs(&lo, &str_to_chars("og:type")) {
        let tg = og_tag_exec(&str_to_chars("og:type"), &str_to_chars("website"));
        push_all(&mut tags, &tg);
        count += 1;
    }
    let ghost t2 = tags@;
    proof {
        assert(t2 =~= t1 + (if !contains_cs(lo@, "og:type"@) {
            og_meta_tag("og:type"@, "website"@)
        } else {
            Seq::<char>::empty()
        }));
    }
    if !has_cs(&lo, &str_to_chars("og:title")) {
        let tp = find_ci_at(&v, &str_to_chars("<title"), 0);
        if tp < v.len() {
            let tt = title_text_exec(&v);
            let tg = og_tag_exec(&str_to_chars("og:title"), &tt);
            push_all(&mut tags, &tg);
            count += 1;
        }
    }
    let ghost t3 = tags@;
    proof {
        assert(t3 =~= t2 + (if !contains_cs(lo@, "og:title"@) && find_ci_from(v@, "<title"@, 0)
            < v@.len() {
            og_meta_tag("og:title"@, title_text(v@))
        } else {
            Seq::<char>::empty()
        }));
    }
    if !has_cs(&lo, &str_to_chars("og:description")) {
        match meta_desc_content_exec(&v) {
            Some(content) => {
                let tg = og_tag_exec(&str_to_chars("og:description"), &content);
                push_all(&mut tags, &tg);
                count += 1;
            },
            None => {},
        }
    }
    let ghost t4 = tags@;
    proof {
        assert(t4 =~= t3 + (if !contains_cs(lo@, "og:description"@) && meta_desc_content(v@, 0)
            is Some {
            og_meta_tag("og:description"@, meta_desc_content(v@, 0)->0)
        } else {
            Seq::<char>::empty()
        }));
    }
    if !has_cs(&lo, &str_to_chars("og:image")) {
        match first_img_src_exec(&v) {
            Some(src) => {
                let img: Vec<char> = if crate::text::match_at_cs(&src, 0, &str_to_chars("http")) {
                    src
                } else {
                    let mut o = origin_exec(&u);
                    push_all(&mut o, &src);
                    o
                };
                let tg = og_tag_exec(&str_to_chars("og:image"), &img);
                push_all(&mut tags, &tg);
                count += 1;
            },
            None => {},
        }
    }
    let ghost t5 = tags@;
    proof {
        assert(t5 =~= t4 + (if !contains_cs(lo@, "og:image"@) && first_img_src(v@, 0) is Some {
            og_meta_tag(
                "og:image"@,
                if matches_at_cs(first_img_src(v@, 0)->0, 0, "http"@) {
                    first_img_src(v@, 0)->0
                } else {
                    origin_of(u@) + first_img_src(v@, 0)->0
                },
            )
        } else {
            Seq::<char>::empty()
        }));
    }
    if !has_cs(&lo, &str_to_chars("og:site_name")) && sn.len() > 0 {
        let tg = og_tag_exec(&str_to_chars("og:site_name"), &sn);
        push_all(&mut tags, &tg);
        count += 1;
    }
    proof {
        assert(tags@ =~= t5 + (if !contains_cs(lo@, "og:site_name"@) && sn@.len() > 0 {
            og_meta_tag("og:site_name"@, sn@)
        } else {
            Seq::<char>::empty()
        }));
        assert(tags@ =~= pieces.0);
        assert(count == pieces.1);
    }
    if count > 0 {
        let hp = find_ci_at(&v, &str_to_chars("</head>"), 0);
        if hp < v.len() {
            let out = insert_chars(&v, hp, &tags);
            *html = chars_to_string(&out);
        }
    }
    count
}

/// SEO analysis result.
pub struct SeoResult {
    pub html: String,
    pub changes: Vec<String>,
    pub warnings: Vec<String>,
    /// 0-100
    pub score: u8,
}

/// The metadata optimizer.
pub struct SeoOptimizer {
    /// Site name for Open Graph tags.
    pub site_name: String,
    /// Default Open Graph image.
    pub default_og_image: Option<String>,
}

/// The whole metadata pipeline in fixed order: alt text, meta
/// description, Open Graph, Twitter card, canonical link, link
/// hardening; then the rewritten document, the change and warning
/// messages, and the score.
pub open spec fn seo_spec(s: Seq<char>, url: Seq<char>, sn: Seq<char>) -> (
    Seq<char>,
    Seq<Seq<char>>,
    Seq<Seq<char>>,
    u8,
) {
    let c1 = alt_count_spec(s);
    let s1 = alt_spec(s);
    let m = meta_result_spec(s1);
    let s2 = meta_spec(s1);
    let ogc = og_pieces(s2, url, sn).1;
    let s3 = og_spec(s2, url, sn);
    let twc: nat = if twitter_needed(s3) {
        1
    } else {
        0
    };
    let s4 = twitter_spec(s3);
    let can = canonical_added(s4, url);
    let s5 = canonical_spec(s4, url);
    let lc = links_count_spec(s5);
    let s6 = links_spec(s5);
    let changes = (if c1 > 0 {
        seq![dec_digits(c1) + " alt tags added"@]
    } else {
        Seq::empty()
    }) + (if m is Added {
        seq!["Meta description added"@]
    } else {
        Seq::empty()
    }) + (if ogc > 0 {
        seq![dec_digits(ogc) + " Open Graph tags added"@]
    } else {
        Seq::empty()
    }) + (if twc > 0 {
        seq![dec_digits(twc) + " Twitter Card tags added"@]
    } else {
        Seq::empty()
    }) + (if can {
        seq!["Canonical URL added"@]
    } else {
        Seq::empty()
    }) + (if lc > 0 {
        seq![dec_digits(lc) + " external links secured"@]
    } else {
        Seq::empty()
    });
    let warnings = (if m is TooShort {
        seq!["Meta description too short (<120 chars)"@]
    } else {
        Seq::empty()
    }) + (if m is TooLong {
        seq!["Meta description too long (>160 chars)"@]
    } else {
        Seq::empty()
    });
    (s6, changes, warnings, score_spec(s6))
}

/// A count followed by fixed text, as one message string.
fn count_msg(n: usize, rest: &str) -> (r: String)
    ensures
        r@ == dec_digits(n as nat) + rest@,
{
    let mut m = usize_to_chars(n);
    push_all(&mut m, &str_to_chars(rest));
    chars_to_string(&m)
}

impl SeoOptimizer {
    /// A metadata optimizer with no site name and no default image.
    pub fn new() -> (r: SeoOptimizer)
        ensures
            r.site_name@ == Seq::<char>::empty(),
            r.default_og_image is None,
    {
        SeoOptimizer { site_name: String::new(), default_og_image: None }
    }

    /// Run all metadata passes over a document.
    #[verifier::rlimit(100)]
    pub fn optimize(&self, html: &str, url: &str) -> (r: SeoResult)
        ensures
            ({
                let sp = seo_spec(html@, url@, self.site_name@);
                &&& r.html@ == sp.0
                &&& views_of_strings(r.changes@) == sp.1
                &&& views_of_strings(r.warnings@) == sp.2
                &&& r.score == sp.3
            }),
    {
        let mut cur = String::from_str(html);
        let mut changes: Vec<String> = Vec::new();
        let mut warnings: Vec<String> = Vec::new();

        let alt_count = add_alt_tags(&mut cur);
        if alt_count > 0 {
            changes.push(count_msg(alt_count, " alt tags added"));
        }
        let ghost ch1 = changes@;

        let meta = ensure_meta_description(&mut cur);
        match meta {
            MetaResult::Added => {
                changes.push(String::from_str("Meta description added"));
            },
            MetaResult::TooShort => {
                warnings.push(String::from_str("Meta description too short (<120 chars)"));
            },
            MetaResult::TooLong => {
                warnings.push(String::from_str("Meta description too long (>160 chars)"));
            },
            MetaResult::Exists => {},
        }
        let ghost ch2 = changes@;

        let og_count = add_open_graph_tags(&mut cur, url, self.site_name.as_str());
        if og_count > 0 {
            changes.push(count_msg(og_count, " Open Graph tags added"));
        }
        let ghost ch3 = changes@;

        let tw_count = add_twitter_card_tags(&mut cur);
        if tw_count > 0 {
            changes.push(count_msg(tw_count, " Twitter Card tags added"));
        }
        let ghost ch4 = changes@;

        let can = add_canonical_url(&mut cur, url);
        if can {
            changes.push(String::from_str("Canonical URL added"));
        }
        let ghost ch5 = changes@;

        let links = fix_external_links(&mut cur);
        if links > 0 {
            changes.push(count_msg(links, " external links secured"));
        }

        let score = calculate_seo_score(cur.as_str());
        proof {
            let sp = seo_spec(html@, url@, self.site_name@);
            assert(views_of_strings(changes@) =~= sp.1);
            assert(views_of_strings(warnings@) =~= sp.2);
        }
        SeoResult { html: cur, changes, warnings, score }
    }
}

/// The trimmed text of the first `title` element.
pub fn title_text_pub(v: &Vec<char>) -> (r: Vec<char>)
    ensures
        r@ == title_text(v@),
{
    title_text_exec(v)
}

/// The content of the first description `meta` tag.
pub fn meta_desc_content_pub(v: &Vec<char>) -> (r: Option<Vec<char>>)
    ensures
        match r {
            Some(x) => meta_desc_content(v@, 0) == Some(x@),
            None => meta_desc_content(v@, 0) is None,
        },
{
    meta_desc_content_exec(v)
}

/// The `src` of the first image that has one.
pub fn first_img_src_pub(v: &Vec<char>) -> (r: Option<Vec<char>>)
    ensures
        match r {
            Some(x) => first_img_src(v@, 0) == Some(x@),
            None => first_img_src(v@, 0) is None,
        },
{
    first_img_src_exec(v)
}

/// The site origin of a URL.
pub fn origin_pub(url: &Vec<char>) -> (r: Vec<char>)
    ensures
        r@ == origin_of(url@),
{
    origin_exec(url)
}

} // verus!
