//! Image-conversion support: discovery of image references, the
//! keep-or-convert decision for converted payloads, and the reference
//! rewrite to converted names.

use vstd::prelude::*;

use crate::resource_optimizer::{filename_spec, trim_trailing_slashes, trim_trailing_slashes_exec};
use crate::scan::{
    char_pred, find_char_from, find_if_from, lemma_find_if_from, lemma_find_if_from_is,
    replace_all, replace_all_cs,
};
use crate::text::{
    chars_to_string, contains_cs, has_cs, is_space_char, lower_seq, match_at_cs, matches_at_ci,
    matches_at_cs, push_all, push_range, str_to_chars, to_lower_vec, trim_chars, trim_spec,
    views_of_strings,
};

verus! {

/// `s` ends with `pat`.
pub open spec fn ends_with_cs(s: Seq<char>, pat: Seq<char>) -> bool {
    pat.len() <= s.len() && matches_at_cs(s, s.len() - pat.len(), pat)
}

fn ends_with_exec(s: &Vec<char>, pat: &Vec<char>) -> (r: bool)
    ensures
        r == ends_with_cs(s@, pat@),
{
    if pat.len() > s.len() {
        return false;
    }
    match_at_cs(s, s.len() - pat.len(), pat)
}

/// A reference with a raster-image extension.
pub open spec fn is_image_url_spec(url: Seq<char>) -> bool {
    let lo = lower_seq(url);
    ||| ends_with_cs(lo, ".jpg"@)
    ||| ends_with_cs(lo, ".jpeg"@)
    ||| ends_with_cs(lo, ".png"@)
    ||| ends_with_cs(lo, ".gif"@)
    ||| ends_with_cs(lo, ".webp"@)
}

/// Whether a reference names a raster image.
pub fn is_image_url(url: &str) -> (r: bool)
    ensures
        r == is_image_url_spec(url@),
{
    proof {
        reveal_strlit(".jpg");
        reveal_strlit(".jpeg");
        reveal_strlit(".png");
        reveal_strlit(".gif");
        reveal_strlit(".webp");
    }
    let v = str_to_chars(url);
    let lo = to_lower_vec(&v);
    ends_with_exec(&lo, &str_to_chars(".jpg")) || ends_with_exec(&lo, &str_to_chars(".jpeg"))
        || ends_with_exec(&lo, &str_to_chars(".png")) || ends_with_exec(
        &lo,
        &str_to_chars(".gif"),
    ) || ends_with_exec(&lo, &str_to_chars(".webp"))
}

/// An image reference that is never converted: a data URL, an image
/// already in the target format, a vector image, or an icon.
pub open spec fn skip_image_spec(url: Seq<char>) -> bool {
    let lo = lower_seq(url);
    ||| matches_at_cs(url, 0, "data:"@)
    ||| ends_with_cs(lo, ".webp"@)
    ||| ends_with_cs(lo, ".svg"@)
    ||| contains_cs(lo, "favicon"@)
    ||| contains_cs(lo, "icon"@)
}

/// Whether an image reference is left alone.
pub fn should_skip_image(url: &str) -> (r: bool)
    ensures
        r == skip_image_spec(url@),
{
    proof {
        reveal_strlit("data:");
        reveal_strlit(".webp");
        reveal_strlit(".svg");
        reveal_strlit("favicon");
        reveal_strlit("icon");
    }
    let v = str_to_chars(url);
    let lo = to_lower_vec(&v);
    match_at_cs(&v, 0, &str_to_chars("data:")) || ends_with_exec(&lo, &str_to_chars(".webp"))
        || ends_with_exec(&lo, &str_to_chars(".svg")) || has_cs(&lo, &str_to_chars("favicon"))
        || has_cs(&lo, &str_to_chars("icon"))
}

/// Derive the deterministic, URL-addressed filename for an image.
pub fn generate_filename(url: &str, extension: &str) -> (r: String)
    ensures
        r@ == filename_spec(url@, extension@),
{
    crate::resource_optimizer::generate_filename(url, extension)
}

/// The image references of one `srcset` value: comma-separated
/// candidates, each cut at its descriptor.
pub open spec fn srcset_urls(v: Seq<char>, i: nat) -> Seq<Seq<char>>
    decreases v.len() - i,
    when i <= v.len()
    via srcset_urls_dec
{
    if i >= v.len() {
        Seq::empty()
    } else {
        let e = find_if_from(v, i, char_pred(','));
        let part = trim_spec(v.subrange(i as int, e as int));
        let sp = find_if_from(part, 0, char_pred(' '));
        let keep: Seq<Seq<char>> = if sp < part.len() {
            let url = part.take(sp as int);
            if is_image_url_spec(url) {
                seq![url]
            } else {
                Seq::empty()
            }
        } else if part.len() > 0 {
            if is_image_url_spec(part) {
                seq![part]
            } else {
                Seq::empty()
            }
        } else {
            Seq::empty()
        };
        keep + (if e < v.len() {
            srcset_urls(v, (e + 1) as nat)
        } else {
            Seq::empty()
        })
    }
}

#[via_fn]
proof fn srcset_urls_dec(v: Seq<char>, i: nat) {
    if i < v.len() {
        lemma_find_if_from(v, i, char_pred(','));
    }
}

/// All image references found in `src` and `srcset` attributes, in
/// scan order, before ordering and deduplication.
pub open spec fn image_urls_scan(s: Seq<char>, i: nat) -> Seq<Seq<char>>
    decreases s.len() - i,
    when i <= s.len()
    via image_urls_scan_dec
{
    if i >= s.len() {
        Seq::empty()
    } else if matches_at_ci(s, i as int, "src=\""@) || matches_at_ci(s, i as int, "src='"@) {
        let q = s[i + 4 as int];
        let e = find_if_from(s, (i + 5) as nat, char_pred(q));
        let url = s.subrange(i + 5 as int, e as int);
        (if is_image_url_spec(url) {
            seq![url]
        } else {
            Seq::empty()
        }) + image_urls_scan(s, e)
    } else if matches_at_ci(s, i as int, "srcset=\""@) || matches_at_ci(s, i as int, "srcset='"@) {
        let q = s[i + 7 as int];
        let e = find_if_from(s, (i + 8) as nat, char_pred(q));
        let val = s.subrange(i + 8 as int, e as int);
        srcset_urls(val, 0) + image_urls_scan(s, e)
    } else {
        image_urls_scan(s, (i + 1) as nat)
    }
}

#[via_fn]
proof fn image_urls_scan_dec(s: Seq<char>, i: nat) {
    reveal_strlit("src=\"");
    reveal_strlit("src='");
    reveal_strlit("srcset=\"");
    reveal_strlit("srcset='");
    if i < s.len() {
        if matches_at_ci(s, i as int, "src=\""@) || matches_at_ci(s, i as int, "src='"@) {
            lemma_find_if_from(s, (i + 5) as nat, char_pred(s[i + 4 as int]));
        } else if matches_at_ci(s, i as int, "srcset=\""@) || matches_at_ci(
            s,
            i as int,
            "srcset='"@,
        ) {
            lemma_find_if_from(s, (i + 8) as nat, char_pred(s[i + 7 as int]));
        }
    }
}

/// `a` is lexicographically at most `b`, by codepoint.
pub open spec fn lex_le(a: Seq<char>, b: Seq<char>) -> bool
    decreases a.len(),
{
    if a.len() == 0 {
        true
    } else if b.len() == 0 {
        false
    } else if (a[0] as u32) < (b[0] as u32) {
        true
    } else if (a[0] as u32) > (b[0] as u32) {
        false
    } else {
        lex_le(a.drop_first(), b.drop_first())
    }
}

fn lex_le_exec(a: &Vec<char>, b: &Vec<char>) -> (r: bool)
    ensures
        r == lex_le(a@, b@),
{
    let an = a.len();
    let bn = b.len();
    let mut i: usize = 0;
    proof {
        assert(a@.skip(0) =~= a@);
        assert(b@.skip(0) =~= b@);
    }
    while i < an && i < bn && a[i] == b[i]
        invariant
            i <= an,
            i <= bn,
            an == a@.len(),
            bn == b@.len(),
            lex_le(a@, b@) == lex_le(a@.skip(i as int), b@.skip(i as int)),
        decreases an - i,
    {
        proof {
            assert(a@.skip(i as int)[0] == a@[i as int]);
            assert(b@.skip(i as int)[0] == b@[i as int]);
            assert(a@.skip(i as int).drop_first() =~= a@.skip(i + 1));
            assert(b@.skip(i as int).drop_first() =~= b@.skip(i + 1));
        }
        i += 1;
    }
    proof {
        assert(a@.skip(i as int).len() == an - i);
        assert(b@.skip(i as int).len() == bn - i);
        if i < an && i < bn {
            assert(a@.skip(i as int)[0] == a@[i as int]);
            assert(b@.skip(i as int)[0] == b@[i as int]);
            vstd::utf8::char_u32_cast(a@[i as int], a@[i as int] as u32);
            vstd::utf8::char_u32_cast(b@[i as int], b@[i as int] as u32);
        }
    }
    if i >= an {
        return true;
    }
    if i >= bn {
        return false;
    }
    (a[i] as u32) < (b[i] as u32)
}

pub proof fn lemma_lex_le_total(a: Seq<char>, b: Seq<char>)
    ensures
        lex_le(a, b) || lex_le(b, a),
    decreases a.len(),
{
    if a.len() > 0 && b.len() > 0 {
        if (a[0] as u32) < (b[0] as u32) {
        } else if (a[0] as u32) > (b[0] as u32) {
        } else {
            lemma_lex_le_total(a.drop_first(), b.drop_first());
        }
    }
}

pub proof fn lemma_lex_le_antisym(a: Seq<char>, b: Seq<char>)
    requires
        lex_le(a, b),
        lex_le(b, a),
    ensures
        a == b,
    decreases a.len(),
{
    if a.len() == 0 {
        assert(b.len() == 0);
        assert(a =~= b);
    } else {
        assert(b.len() > 0);
        if (a[0] as u32) < (b[0] as u32) {
            assert(!lex_le(b, a));
        } else if (a[0] as u32) > (b[0] as u32) {
            assert(!lex_le(a, b));
        } else {
            assert(a[0] == b[0]) by {
                assert((a[0] as u32) == (b[0] as u32));
                vstd::utf8::char_u32_cast(a[0], a[0] as u32);
                vstd::utf8::char_u32_cast(b[0], b[0] as u32);
            }
            lemma_lex_le_antisym(a.drop_first(), b.drop_first());
            assert(a =~= seq![a[0]] + a.drop_first());
            assert(b =~= seq![b[0]] + b.drop_first());
        }
    }
}

pub proof fn lemma_lex_le_trans(a: Seq<char>, b: Seq<char>, c: Seq<char>)
    requires
        lex_le(a, b),
        lex_le(b, c),
    ensures
        lex_le(a, c),
    decreases a.len(),
{
    if a.len() > 0 {
        assert(b.len() > 0);
        assert(c.len() > 0);
        if (a[0] as u32) == (b[0] as u32) && (b[0] as u32) == (c[0] as u32) {
            lemma_lex_le_trans(a.drop_first(), b.drop_first(), c.drop_first());
        }
    }
}

/// Strictly increasing in lexicographic order.
pub open spec fn sorted_distinct(v: Seq<String>) -> bool {
    forall|x: int, y: int| 0 <= x < y < v.len() ==> lex_le(v[x]@, v[y]@) && v[x]@ != v[y]@
}

fn insert_sorted(out: &mut Vec<String>, x: String)
    requires
        sorted_distinct(old(out)@),
    ensures
        sorted_distinct(final(out)@),
        forall|u: Seq<char>|
            #[trigger] views_of_strings(final(out)@).contains(u) <==> (views_of_strings(
                old(out)@,
            ).contains(u) || u == x@),
{
    let n = out.len();
    let mut p: usize = 0;
    while p < n && !lex_le_exec(&str_to_chars(x.as_str()), &str_to_chars(out[p].as_str()))
        invariant
            p <= n,
            n == out@.len(),
            sorted_distinct(out@),
            forall|m: int| 0 <= m < p ==> lex_le(out@[m]@, x@) && out@[m]@ != x@,
        decreases n - p,
    {
        proof {
            lemma_lex_le_total(x@, out@[p as int]@);
            if lex_le(out@[p as int]@, x@) && lex_le(x@, out@[p as int]@) {
                lemma_lex_le_antisym(out@[p as int]@, x@);
            }
        }
        p += 1;
    }
    if p < n && crate::text::string_eq(&x, &out[p]) {
        proof {
            assert(views_of_strings(out@)[p as int] == x@);
            assert(views_of_strings(out@).contains(x@));
        }
        return;
    }
    let ghost old_view = out@;
    out.insert(p, x);
    proof {
        let nv = out@;
        assert(nv.len() == old_view.len() + 1);
        assert(nv[p as int]@ == x@);
        assert(forall|m: int| 0 <= m < p ==> nv[m] == old_view[m]);
        assert(forall|m: int| p < m < nv.len() ==> nv[m] == old_view[m - 1]);
        // strictly sorted around the insertion point
        assert forall|a: int, b: int| 0 <= a < b < nv.len() implies lex_le(nv[a]@, nv[b]@)
            && nv[a]@ != nv[b]@ by {
            if b < p {
            } else if a < p && b == p {
                assert(lex_le(nv[a]@, x@) && nv[a]@ != x@);
            } else if a < p && b > p {
            } else if a == p && b > p {
                // x is at most the old element at p, which is at most old[b-1]
                if p < old_view.len() {
                    assert(lex_le(x@, old_view[p as int]@));
                    if b - 1 > p {
                        assert(lex_le(old_view[p as int]@, old_view[b - 1]@));
                        lemma_lex_le_trans(x@, old_view[p as int]@, old_view[b - 1]@);
                        if x@ == old_view[b - 1]@ {
                            lemma_lex_le_antisym(old_view[p as int]@, old_view[b - 1]@);
                        }
                    }
                }
            } else {
            }
        }
        // membership is the old set plus x
        assert forall|u: Seq<char>|
            #[trigger] views_of_strings(nv).contains(u) <==> (views_of_strings(
                old_view,
            ).contains(u) || u == x@) by {
            if views_of_strings(nv).contains(u) {
                let w = choose|w: int|
                    0 <= w < nv.len() && #[trigger] views_of_strings(nv)[w] == u;
                if w < p {
                    assert(views_of_strings(old_view)[w] == u);
                    assert(views_of_strings(old_view).contains(u));
                } else if w == p {
                } else {
                    assert(views_of_strings(old_view)[w - 1] == u);
                    assert(views_of_strings(old_view).contains(u));
                }
            }
            if views_of_strings(old_view).contains(u) {
                let w = choose|w: int|
                    0 <= w < old_view.len() && #[trigger] views_of_strings(old_view)[w] == u;
                if w < p {
                    assert(views_of_strings(nv)[w] == u);
                } else {
                    assert(views_of_strings(nv)[w + 1] == u);
                }
                assert(views_of_strings(nv).contains(u));
            }
            if u == x@ {
                assert(views_of_strings(nv)[p as int] == u);
                assert(views_of_strings(nv).contains(u));
            }
        }
    }
}

/// Collect the image references of a document, in lexicographic order
/// with duplicates removed: exactly the references found in `src` and
/// `srcset` attributes, each once.
pub fn extract_image_urls(html: &str) -> (r: Vec<String>)
    ensures
        sorted_distinct(r@),
        forall|u: Seq<char>|
            #[trigger] views_of_strings(r@).contains(u) <==> image_urls_scan(
                html@,
                0,
            ).contains(u),
{
    let v = str_to_chars(html);
    let n = v.len();
    let mut found: Vec<String> = Vec::new();
    let mut i: usize = 0;
    proof {
        assert(views_of_strings(found@) + image_urls_scan(v@, 0) =~= image_urls_scan(v@, 0));
    }
    while i < n
        invariant
            i <= n,
            n == v@.len(),
            v@ == html@,
            image_urls_scan(v@, 0) == views_of_strings(found@) + image_urls_scan(v@, i as nat),
        decreases n - i,
    {
        proof {
            reveal_strlit("src=\"");
            reveal_strlit("src='");
            reveal_strlit("srcset=\"");
            reveal_strlit("srcset='");
        }
        let p_sd = str_to_chars("src=\"");
        let p_ss = str_to_chars("src='");
        let p_td = str_to_chars("srcset=\"");
        let p_ts = str_to_chars("srcset='");
        if crate::text::match_at_ci(&v, i, &p_sd) || crate::text::match_at_ci(&v, i, &p_ss) {
            let q = v[i + 4];
            let e = find_char_from(&v, i + 5, q);
            let mut url: Vec<char> = Vec::new();
            push_range(&mut url, &v, i + 5, e);
            proof {
                assert(url@ =~= v@.subrange(i + 5 as int, e as int));
            }
            let us = chars_to_string(&url);
            if is_image_url(us.as_str()) {
                found.push(us);
                proof {
                    assert(views_of_strings(found@) =~= views_of_strings(found@.drop_last())
                        + seq![url@]);
                }
            }
            i = e;
        } else if crate::text::match_at_ci(&v, i, &p_td) || crate::text::match_at_ci(
            &v,
            i,
            &p_ts,
        ) {
            let q = v[i + 7];
            let e = find_char_from(&v, i + 8, q);
            let mut val: Vec<char> = Vec::new();
            push_range(&mut val, &v, i + 8, e);
            proof {
                assert(val@ =~= v@.subrange(i + 8 as int, e as int));
            }
            // walk the comma-separated candidates
            let vn2 = val.len();
            let mut j: usize = 0;
            let ghost before = found@;
            proof {
                assert(views_of_strings(found@) + srcset_urls(val@, 0) =~= views_of_strings(
                    before,
                ) + srcset_urls(val@, 0));
            }
            let mut sdone: bool = false;
            while !sdone
                invariant
                    j <= vn2,
                    vn2 == val@.len(),
                    views_of_strings(before) + srcset_urls(val@, 0) == views_of_strings(found@)
                        + (if sdone {
                        Seq::<Seq<char>>::empty()
                    } else {
                        srcset_urls(val@, j as nat)
                    }),
                decreases vn2 - j + (if sdone { 0int } else { 1int }),
            {
                if j >= vn2 {
                    sdone = true;
                } else {
                    let e2 = find_char_from(&val, j, ',');
                    let mut piece: Vec<char> = Vec::new();
                    push_range(&mut piece, &val, j, e2);
                    proof {
                        assert(piece@ =~= val@.subrange(j as int, e2 as int));
                    }
                    let part = trim_chars(&piece);
                    let sp = find_char_from(&part, 0, ' ');
                    if sp < part.len() {
                        let mut u2: Vec<char> = Vec::new();
                        push_range(&mut u2, &part, 0, sp);
                        proof {
                            assert(u2@ =~= part@.take(sp as int));
                        }
                        let us = chars_to_string(&u2);
                        if is_image_url(us.as_str()) {
                            found.push(us);
                            proof {
                                assert(views_of_strings(found@) =~= views_of_strings(
                                    found@.drop_last(),
                                ) + seq![u2@]);
                            }
                        }
                    } else if part.len() > 0 {
                        let us = chars_to_string(&part);
                        if is_image_url(us.as_str()) {
                            found.push(us);
                            proof {
                                assert(views_of_strings(found@) =~= views_of_strings(
                                    found@.drop_last(),
                                ) + seq![part@]);
                            }
                        }
                    }
                    if e2 < vn2 {
                        j = e2 + 1;
                    } else {
                        j = vn2;
                        sdone = true;
                    }
                }
            }
            i = e;
        } else {
            i += 1;
        }
    }
    proof {
        assert(views_of_strings(found@) =~= image_urls_scan(v@, 0));
    }
    // order and deduplicate
    let mut out: Vec<String> = Vec::new();
    let mut k: usize = 0;
    let fn_ = found.len();
    while k < fn_
        invariant
            k <= fn_,
            fn_ == found@.len(),
            views_of_strings(found@) == image_urls_scan(html@, 0),
            sorted_distinct(out@),
            forall|u: Seq<char>|
                #[trigger] views_of_strings(out@).contains(u) <==> views_of_strings(
                    found@.take(k as int),
                ).contains(u),
        decreases fn_ - k,
    {
        let x = found[k].clone();
        insert_sorted(&mut out, x);
        proof {
            assert forall|u: Seq<char>|
                #[trigger] views_of_strings(out@).contains(u) <==> views_of_strings(
                    found@.take(k + 1),
                ).contains(u) by {
                if views_of_strings(found@.take(k + 1)).contains(u) {
                    let w = choose|w: int|
                        0 <= w < k + 1 && #[trigger] views_of_strings(found@.take(k + 1))[w]
                            == u;
                    if w < k {
                        assert(views_of_strings(found@.take(k as int))[w] == u);
                        assert(views_of_strings(found@.take(k as int)).contains(u));
                    } else {
                        assert(u == found@[k as int]@);
                    }
                }
                if views_of_strings(out@).contains(u) {
                    if views_of_strings(found@.take(k as int)).contains(u) {
                        let w = choose|w: int|
                            0 <= w < k && #[trigger] views_of_strings(found@.take(k as int))[w]
                                == u;
                        assert(views_of_strings(found@.take(k + 1))[w] == u);
                        assert(views_of_strings(found@.take(k + 1)).contains(u));
                    } else {
                        assert(u == found@[k as int]@);
                        assert(views_of_strings(found@.take(k + 1))[k as int] == u);
                        assert(views_of_strings(found@.take(k + 1)).contains(u));
                    }
                }
            }
        }
        k += 1;
    }
    proof {
        assert(found@.take(fn_ as int) =~= found@);
        assert forall|u: Seq<char>|
            #[trigger] views_of_strings(out@).contains(u) <==> image_urls_scan(
                html@,
                0,
            ).contains(u) by {
            assert(views_of_strings(out@).contains(u) <==> views_of_strings(
                found@.take(fn_ as int),
            ).contains(u));
        }
    }
    out
}


/// What the standard base64 engine emits for a byte payload: a pure
/// function of the bytes alone.
pub uninterp spec fn base64_of(bytes: Seq<u8>) -> Seq<char>;

/// Relies on base64's `STANDARD` engine `encode`: four output
/// characters for every three input bytes, padded, depending on the
/// bytes alone.
#[verifier::external_body]
fn base64_encode(bytes: &Vec<u8>) -> (r: String)
    ensures
        r@ == base64_of(bytes@),
        r@.len() == 4 * ((bytes@.len() + 2) / 3),
{
    base64::Engine::encode(&base64::engine::general_purpose::STANDARD, bytes.as_slice())
}

/// A converted image ready to be stored.
pub struct ConvertedImage {
    /// Original URL of the image.
    pub original_url: String,
    /// Base64-encoded payload (converted or original).
    pub webp_base64: String,
    /// Deterministic, URL-addressed filename.
    pub filename: String,
    /// Original size in bytes.
    pub original_size: usize,
    /// Stored payload size in bytes.
    pub webp_size: usize,
    /// Tenths of a percent saved.
    pub reduction_tenths: i128,
}

/// One converted image as reported to the caller.
pub struct ConvertedImageResponse {
    pub original_url: String,
    pub webp_filename: String,
    pub webp_base64: String,
    pub original_size: usize,
    pub webp_size: usize,
    pub reduction_tenths: i128,
}

/// The keep-or-convert decision: when the converted payload is not
/// smaller, the original bytes are kept under their own extension;
/// otherwise the converted bytes are kept under a `webp` name.
pub fn package_converted_image(
    url: &str,
    original_data: &Vec<u8>,
    webp_data: &Vec<u8>,
) -> (r: ConvertedImage)
    ensures
        r.original_url@ == url@,
        r.original_size == original_data@.len(),
        webp_data@.len() >= original_data@.len() ==> {
            &&& r.webp_base64@ == base64_of(original_data@)
            &&& r.webp_size == original_data@.len()
            &&& r.reduction_tenths == 0
            &&& r.filename@ == filename_spec(
                url@,
                if ends_with_cs(lower_seq(url@), ".png"@) {
                    "png"@
                } else {
                    "jpg"@
                },
            )
        },
        webp_data@.len() < original_data@.len() ==> {
            &&& r.webp_base64@ == base64_of(webp_data@)
            &&& r.webp_size == webp_data@.len()
            &&& r.filename@ == filename_spec(url@, "webp"@)
            &&& r.reduction_tenths == crate::stats::reduction_tenths(
                original_data@.len() as int,
                webp_data@.len() as int,
            )
        },
{
    proof {
        reveal_strlit(".png");
        reveal_strlit("png");
        reveal_strlit("jpg");
        reveal_strlit("webp");
    }
    let original_size = original_data.len();
    let webp_size = webp_data.len();
    if webp_size >= original_size {
        let v = str_to_chars(url);
        let lo = to_lower_vec(&v);
        let extension: &str = if ends_with_exec(&lo, &str_to_chars(".png")) {
            "png"
        } else {
            "jpg"
        };
        let filename = generate_filename(url, extension);
        let b64 = base64_encode(original_data);
        ConvertedImage {
            original_url: url.to_owned(),
            webp_base64: b64,
            filename,
            original_size,
            webp_size: original_size,
            reduction_tenths: 0,
        }
    } else {
        let reduction = crate::stats::reduction_tenths_exec(original_size, webp_size);
        let b64 = base64_encode(webp_data);
        ConvertedImage {
            original_url: url.to_owned(),
            webp_base64: b64,
            filename: generate_filename(url, "webp"),
            original_size,
            webp_size,
            reduction_tenths: reduction,
        }
    }
}

pub open spec fn resp_orig_sizes(images: Seq<ConvertedImageResponse>) -> Seq<int> {
    Seq::new(images.len(), |k: int| images[k].original_size as int)
}

pub open spec fn resp_webp_sizes(images: Seq<ConvertedImageResponse>) -> Seq<int> {
    Seq::new(images.len(), |k: int| images[k].webp_size as int)
}

pub open spec fn resp_tenths(images: Seq<ConvertedImageResponse>) -> Seq<int> {
    Seq::new(images.len(), |k: int| images[k].reduction_tenths as int)
}

/// Conversion totals for a batch of images.
pub struct WebpConversionResult {
    pub images: Vec<ConvertedImageResponse>,
    pub total_original_bytes: u128,
    pub total_webp_bytes: u128,
    pub total_savings_bytes: u128,
    pub average_reduction_tenths: i128,
}

/// Sum the per-image sizes and average the per-image reductions for a
/// finished batch, whatever each fetch and conversion returned.
pub fn summarize_webp_conversion(images: Vec<ConvertedImageResponse>) -> (r: WebpConversionResult)
    requires
        forall|k: int|
            0 <= k < images@.len() ==> 0 <= #[trigger] images@[k].reduction_tenths < 0x10000,
    ensures
        r.images == images,
        r.total_original_bytes == crate::resource_optimizer::sum_sizes(
            resp_orig_sizes(images@),
            0,
        ),
        r.total_webp_bytes == crate::resource_optimizer::sum_sizes(resp_webp_sizes(images@), 0),
        r.total_savings_bytes == (if r.total_original_bytes >= r.total_webp_bytes {
            r.total_original_bytes - r.total_webp_bytes
        } else {
            0
        }),
        r.average_reduction_tenths == (if images@.len() > 0 {
            crate::resource_optimizer::sum_sizes(resp_tenths(images@), 0) / (
            images@.len() as int)
        } else {
            0int
        }),
{
    let n = images.len();
    let mut total_orig: u128 = 0;
    let mut total_webp: u128 = 0;
    let mut tsum: i128 = 0;
    let mut k: usize = 0;
    while k < n
        invariant
            k <= n,
            n == images@.len(),
            total_orig <= k * 0x10000000000000000,
            total_webp <= k * 0x10000000000000000,
            0 <= tsum <= k * 0x10000,
            forall|m: int|
                0 <= m < n ==> 0 <= #[trigger] images@[m].reduction_tenths < 0x10000,
            crate::resource_optimizer::sum_sizes(resp_orig_sizes(images@), 0) == total_orig
                + crate::resource_optimizer::sum_sizes(resp_orig_sizes(images@), k as nat),
            crate::resource_optimizer::sum_sizes(resp_webp_sizes(images@), 0) == total_webp
                + crate::resource_optimizer::sum_sizes(resp_webp_sizes(images@), k as nat),
            crate::resource_optimizer::sum_sizes(resp_tenths(images@), 0) == tsum
                + crate::resource_optimizer::sum_sizes(resp_tenths(images@), k as nat),
        decreases n - k,
    {
        total_orig = total_orig + (images[k].original_size as u128);
        total_webp = total_webp + (images[k].webp_size as u128);
        tsum = tsum + (images[k].reduction_tenths as i128);
        k += 1;
    }
    let savings: u128 = if total_orig >= total_webp {
        total_orig - total_webp
    } else {
        0
    };
    let avg: i128 = if n > 0 {
        tsum / (n as i128)
    } else {
        0
    };
    WebpConversionResult {
        images,
        total_original_bytes: total_orig,
        total_webp_bytes: total_webp,
        total_savings_bytes: savings,
        average_reduction_tenths: avg,
    }
}

/// The document after the image-reference rewrite: every occurrence of
/// each converted image's URL replaced by its local converted path.
pub open spec fn webp_rewrite_spec(
    s: Seq<char>,
    images: Seq<ConvertedImageResponse>,
    base: Seq<char>,
    k: nat,
) -> Seq<char>
    decreases images.len() - k,
    when k <= images.len()
{
    if k >= images.len() {
        s
    } else {
        let url = images[k as int].original_url@;
        let target = trim_trailing_slashes(base) + "/images/"@ + images[k as int].webp_filename@;
        let s2 = if url.len() > 0 {
            replace_all_cs(s, url, target)
        } else {
            s
        };
        webp_rewrite_spec(s2, images, base, (k + 1) as nat)
    }
}

/// Point every converted reference at its local converted file.
pub fn rewrite_html_with_webp(
    html: &mut String,
    images: &Vec<ConvertedImageResponse>,
    upload_base_url: &str,
)
    ensures
        final(html)@ == webp_rewrite_spec(old(html)@, images@, upload_base_url@, 0),
{
    proof {
        reveal_strlit("/images/");
    }
    let base = str_to_chars(upload_base_url);
    let n = images.len();
    let mut k: usize = 0;
    while k < n
        invariant
            k <= n,
            n == images@.len(),
            base@ == upload_base_url@,
            webp_rewrite_spec(old(html)@, images@, upload_base_url@, 0) == webp_rewrite_spec(
                html@,
                images@,
                upload_base_url@,
                k as nat,
            ),
        decreases n - k,
    {
        proof {
            reveal_strlit("/images/");
        }
        let url = str_to_chars(images[k].original_url.as_str());
        let mut target = trim_trailing_slashes_exec(&base);
        push_all(&mut target, &str_to_chars("/images/"));
        push_all(&mut target, &str_to_chars(images[k].webp_filename.as_str()));
        proof {
            assert(target@ =~= trim_trailing_slashes(upload_base_url@) + "/images/"@
                + images@[k as int].webp_filename@);
        }
        if url.len() > 0 {
            let v = str_to_chars(html.as_str());
            let out = replace_all(&v, &url, &target);
            *html = chars_to_string(&out);
        }
        k += 1;
    }
}
} // verus!
