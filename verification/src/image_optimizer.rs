//! Image hints: CDN URL rewriting, conversion candidates, dimension
//! and priority advice.

use vstd::prelude::*;

use crate::optimizer::{id_tr_fn, missing_dims, missing_dims_fn};
use crate::resource_optimizer::{trim_trailing_slashes, trim_trailing_slashes_exec};
use crate::scan::{
    attr_value, attr_value_exec, char_pred, find_char_from, find_if_from, lemma_find_gt_from,
    lemma_find_gt_from_is, lemma_find_if_from, replace_all, replace_all_cs, scan_exec,
    scan_tags_count, tag_end,
};
use crate::seo_optimizer::rfind_char;
use crate::text::{
    chars_to_string, contains_cs, dec_digits, has_cs, lower_seq, match_at_cs, matches_at_ci,
    matches_at_cs, push_all, push_range, str_eq_str, str_to_chars, to_lower_vec, usize_to_chars,
    views_of_strings,
};
use crate::webp_converter::ends_with_cs;

verus! {

/// CDN configuration for image optimization.
pub struct CdnConfig {
    /// The provider name.
    pub provider: String,
    /// CDN base URL, for providers that need one.
    pub base_url: Option<String>,
    /// Default quality (1-100).
    pub quality: u8,
    /// Default target format.
    pub format: String,
}

impl Default for CdnConfig {
    /// The default points at a widely deployed edge resizer with a
    /// standard quality and format.
    fn default() -> (r: CdnConfig)
        ensures
            r.provider@ == "cloudflare"@,
            r.base_url is None,
            r.quality == 80,
            r.format@ == "webp"@,
    {
        CdnConfig {
            provider: String::from_str("cloudflare"),
            base_url: None,
            quality: 80,
            format: String::from_str("webp"),
        }
    }
}

/// Image optimization result.
pub struct ImageResult {
    pub optimizations: Vec<String>,
    pub webp_candidates: usize,
    pub missing_dimensions: usize,
    pub missing_lazy: usize,
    pub images_rewritten: usize,
}

/// Whether an image reference is rewritten for the CDN: a raster
/// image of this site, not already behind a CDN.
pub open spec fn should_rewrite_spec(url: Seq<char>, site: Seq<char>) -> bool {
    let lo = lower_seq(url);
    &&& !matches_at_cs(url, 0, "data:"@)
    &&& !ends_with_cs(lo, ".svg"@)
    &&& !contains_cs(url, "cdn-cgi/image"@)
    &&& !contains_cs(url, "imgix.net"@)
    &&& !contains_cs(url, "cloudinary.com"@)
    &&& (ends_with_cs(lo, ".jpg"@) || ends_with_cs(lo, ".jpeg"@) || ends_with_cs(lo, ".png"@)
        || ends_with_cs(lo, ".gif"@) || ends_with_cs(lo, ".webp"@))
    &&& (matches_at_cs(url, 0, "/"@) || matches_at_cs(url, 0, site) || contains_cs(
        url,
        "wp-content"@,
    ))
}

fn ends_with_vec(s: &Vec<char>, pat: &Vec<char>) -> (r: bool)
    ensures
        r == ends_with_cs(s@, pat@),
{
    if pat.len() > s.len() {
        return false;
    }
    match_at_cs(s, s.len() - pat.len(), pat)
}

/// Decide whether one image reference should move behind the CDN.
pub fn should_rewrite_image(url: &str, site_url: &str) -> (r: bool)
    ensures
        r == should_rewrite_spec(url@, site_url@),
{
    proof {
        reveal_strlit("data:");
        reveal_strlit(".svg");
        reveal_strlit("cdn-cgi/image");
        reveal_strlit("imgix.net");
        reveal_strlit("cloudinary.com");
        reveal_strlit(".jpg");
        reveal_strlit(".jpeg");
        reveal_strlit(".png");
        reveal_strlit(".gif");
        reveal_strlit(".webp");
        reveal_strlit("/");
        reveal_strlit("wp-content");
    }
    let v = str_to_chars(url);
    let lo = to_lower_vec(&v);
    let site = str_to_chars(site_url);
    if match_at_cs(&v, 0, &str_to_chars("data:")) || ends_with_vec(&lo, &str_to_chars(".svg"))
        || has_cs(&v, &str_to_chars("cdn-cgi/image")) || has_cs(&v, &str_to_chars("imgix.net"))
        || has_cs(&v, &str_to_chars("cloudinary.com")) {
        return false;
    }
    let is_image = ends_with_vec(&lo, &str_to_chars(".jpg")) || ends_with_vec(
        &lo,
        &str_to_chars(".jpeg"),
    ) || ends_with_vec(&lo, &str_to_chars(".png")) || ends_with_vec(&lo, &str_to_chars(".gif"))
        || ends_with_vec(&lo, &str_to_chars(".webp"));
    if !is_image {
        return false;
    }
    match_at_cs(&v, 0, &str_to_chars("/")) || match_at_cs(&v, 0, &site) || has_cs(
        &v,
        &str_to_chars("wp-content"),
    )
}

/// `s` without its leading `/` characters.
pub open spec fn trim_leading_slashes(s: Seq<char>) -> Seq<char>
    decreases s.len(),
{
    if s.len() > 0 && s[0] == '/' {
        trim_leading_slashes(s.drop_first())
    } else {
        s
    }
}

proof fn lemma_tls_skip(s: Seq<char>, a: int)
    requires
        0 <= a <= s.len(),
        forall|m: int| 0 <= m < a ==> s[m] == '/',
        a < s.len() ==> s[a] != '/',
    ensures
        trim_leading_slashes(s) == s.skip(a),
    decreases a,
{
    if a == 0 {
        assert(s.skip(0) =~= s);
    } else {
        lemma_tls_skip(s.drop_first(), a - 1);
        assert(s.drop_first().skip(a - 1) =~= s.skip(a));
    }
}

fn trim_leading_slashes_exec(s: &Vec<char>) -> (r: Vec<char>)
    ensures
        r@ == trim_leading_slashes(s@),
{
    let n = s.len();
    let mut a: usize = 0;
    while a < n && s[a] == '/'
        invariant
            a <= n,
            n == s@.len(),
            forall|m: int| 0 <= m < a ==> s@[m] == '/',
        decreases n - a,
    {
        a += 1;
    }
    proof {
        lemma_tls_skip(s@, a as int);
    }
    let mut out: Vec<char> = Vec::new();
    push_range(&mut out, s, a, n);
    proof {
        assert(out@ =~= s@.skip(a as int));
    }
    out
}

/// The CDN-optimized URL for one image, by provider.
pub open spec fn cdn_url_spec(
    url: Seq<char>,
    site: Seq<char>,
    provider: Seq<char>,
    base: Option<Seq<char>>,
    quality: u8,
    format: Seq<char>,
) -> Seq<char> {
    let full = if matches_at_cs(url, 0, "/"@) {
        trim_trailing_slashes(site) + url
    } else {
        url
    };
    if provider == "cloudflare"@ {
        trim_trailing_slashes(site) + "/cdn-cgi/image/format="@ + format + ",quality="@
            + dec_digits(quality as nat) + "/"@ + trim_leading_slashes(url)
    } else if provider == "imgix"@ {
        match base {
            Some(b) => trim_trailing_slashes(b) + "/"@ + trim_leading_slashes(url)
                + "?auto=format&q="@ + dec_digits(quality as nat) + "&fm="@ + format,
            None => full,
        }
    } else if provider == "bunny"@ {
        full + "?width=auto&quality="@ + dec_digits(quality as nat)
    } else {
        full
    }
}

/// Build the CDN URL for one image.
pub fn generate_cdn_url(original_url: &str, site_url: &str, config: &CdnConfig) -> (r: String)
    ensures
        r@ == cdn_url_spec(
            original_url@,
            site_url@,
            config.provider@,
            match config.base_url {
                Some(b) => Some(b@),
                None => None,
            },
            config.quality,
            config.format@,
        ),
{
    proof {
        reveal_strlit("/");
    }
    let u = str_to_chars(original_url);
    let site = str_to_chars(site_url);
    let fmt = str_to_chars(config.format.as_str());
    let mut full: Vec<char> = Vec::new();
    if match_at_cs(&u, 0, &str_to_chars("/")) {
        let ts = trim_trailing_slashes_exec(&site);
        push_all(&mut full, &ts);
        push_all(&mut full, &u);
    } else {
        push_all(&mut full, &u);
    }
    if str_eq_str(config.provider.as_str(), "cloudflare") {
        let mut out = trim_trailing_slashes_exec(&site);
        push_all(&mut out, &str_to_chars("/cdn-cgi/image/format="));
        push_all(&mut out, &fmt);
        push_all(&mut out, &str_to_chars(",quality="));
        push_all(&mut out, &usize_to_chars(config.quality as usize));
        push_all(&mut out, &str_to_chars("/"));
        let tl = trim_leading_slashes_exec(&u);
        push_all(&mut out, &tl);
        proof {
            assert(out@ =~= cdn_url_spec(
                original_url@,
                site_url@,
                config.provider@,
                match config.base_url {
                    Some(b) => Some(b@),
                    None => None,
                },
                config.quality,
                config.format@,
            ));
        }
        return chars_to_string(&out);
    }
    if str_eq_str(config.provider.as_str(), "imgix") {
        match &config.base_url {
            Some(b) => {
                let bv = str_to_chars(b.as_str());
                let mut out = trim_trailing_slashes_exec(&bv);
                out.push('/');
                let tl = trim_leading_slashes_exec(&u);
                push_all(&mut out, &tl);
                push_all(&mut out, &str_to_chars("?auto=format&q="));
                push_all(&mut out, &usize_to_chars(config.quality as usize));
                push_all(&mut out, &str_to_chars("&fm="));
                push_all(&mut out, &fmt);
                proof {
                    assert(out@ =~= trim_trailing_slashes(b@) + "/"@ + trim_leading_slashes(
                        original_url@,
                    ) + "?auto=format&q="@ + dec_digits(config.quality as nat) + "&fm="@
                        + config.format@);
                }
                return chars_to_string(&out);
            },
            None => {
                return chars_to_string(&full);
            },
        }
    }
    if str_eq_str(config.provider.as_str(), "bunny") {
        push_all(&mut full, &str_to_chars("?width=auto&quality="));
        push_all(&mut full, &usize_to_chars(config.quality as usize));
        proof {
            assert(full@ =~= (if matches_at_cs(original_url@, 0, "/"@) {
                trim_trailing_slashes(site_url@) + original_url@
            } else {
                original_url@
            }) + "?width=auto&quality="@ + dec_digits(config.quality as nat));
        }
        return chars_to_string(&full);
    }
    chars_to_string(&full)
}

/// The CDN pass: each quoted `src` value that should move behind the
/// CDN is replaced by its CDN URL; everything else is copied.
pub open spec fn cdn_rewrite_spec(
    s: Seq<char>,
    i: nat,
    site: Seq<char>,
    provider: Seq<char>,
    base: Option<Seq<char>>,
    quality: u8,
    format: Seq<char>,
) -> (Seq<char>, nat)
    decreases s.len() - i,
    when i <= s.len()
    via cdn_rewrite_spec_dec
{
    if i >= s.len() {
        (Seq::empty(), 0nat)
    } else if matches_at_ci(s, i as int, "src="@) && i + 4 < s.len() && (s[i + 4 as int] == '"'
        || s[i + 4 as int] == '\'') {
        let q = s[i + 4 as int];
        let e = find_if_from(s, (i + 5) as nat, char_pred(q));
        let url = s.subrange(i + 5 as int, e as int);
        let hit = should_rewrite_spec(url, site);
        let rep = if hit {
            cdn_url_spec(url, site, provider, base, quality, format)
        } else {
            url
        };
        let nxt: nat = if e < s.len() {
            (e + 1) as nat
        } else {
            s.len()
        };
        let rest = cdn_rewrite_spec(s, nxt, site, provider, base, quality, format);
        (
            "src="@ + seq![q] + rep + (if e < s.len() {
                seq![q]
            } else {
                Seq::empty()
            }) + rest.0,
            (if hit {
                1nat
            } else {
                0nat
            }) + rest.1,
        )
    } else {
        let rest = cdn_rewrite_spec(s, (i + 1) as nat, site, provider, base, quality, format);
        (seq![s[i as int]] + rest.0, rest.1)
    }
}

#[via_fn]
proof fn cdn_rewrite_spec_dec(
    s: Seq<char>,
    i: nat,
    site: Seq<char>,
    provider: Seq<char>,
    base: Option<Seq<char>>,
    quality: u8,
    format: Seq<char>,
) {
    reveal_strlit("src=");
    if i < s.len() && matches_at_ci(s, i as int, "src="@) && i + 4 < s.len() && (s[i
        + 4 as int] == '"' || s[i + 4 as int] == '\'') {
        lemma_find_if_from(s, (i + 5) as nat, char_pred(s[i + 4 as int]));
    }
}

/// Rewrite this site's image references to CDN URLs, counting how
/// many moved.
#[verifier::rlimit(100)]
pub fn rewrite_images_for_cdn(html: &mut String, site_url: &str, cdn_config: &CdnConfig) -> (count:
    usize)
    ensures
        ({
            let sp = cdn_rewrite_spec(
                old(html)@,
                0,
                site_url@,
                cdn_config.provider@,
                match cdn_config.base_url {
                    Some(b) => Some(b@),
                    None => None,
                },
                cdn_config.quality,
                cdn_config.format@,
            );
            &&& final(html)@ == sp.0
            &&& count == sp.1
        }),
{
    proof {
        reveal_strlit("src=");
    }
    let ghost site_g = site_url@;
    let ghost prov_g = cdn_config.provider@;
    let ghost base_g: Option<Seq<char>> = match &cdn_config.base_url {
        Some(b) => Some(b@),
        None => None,
    };
    let ghost fmt_g = cdn_config.format@;
    let ghost qual_g = cdn_config.quality;
    let v = str_to_chars(html.as_str());
    let n = v.len();
    let site = str_to_chars(site_url);
    let pat = str_to_chars("src=");
    let mut out: Vec<char> = Vec::new();
    let mut count: usize = 0;
    let mut i: usize = 0;
    while i < n
        invariant
            i <= n,
            n == v@.len(),
            v@ == old(html)@,
            site@ == site_g,
            site_url@ == site_g,
            pat@ == "src="@,
            count <= i,
            qual_g == cdn_config.quality,
            prov_g == cdn_config.provider@,
            fmt_g == cdn_config.format@,
            base_g == (match cdn_config.base_url {
                Some(b) => Some(b@),
                None => None,
            }),
            cdn_rewrite_spec(v@, 0, site_g, prov_g, base_g, qual_g, fmt_g).0 == out@
                + cdn_rewrite_spec(v@, i as nat, site_g, prov_g, base_g, qual_g, fmt_g).0,
            cdn_rewrite_spec(v@, 0, site_g, prov_g, base_g, qual_g, fmt_g).1 == count
                + cdn_rewrite_spec(v@, i as nat, site_g, prov_g, base_g, qual_g, fmt_g).1,
        decreases n - i,
    {
        proof {
            reveal_strlit("src=");
        }
        let ghost i0 = i as nat;
        let mut stepped = false;
        if crate::text::match_at_ci(&v, i, &pat) && n - i > 4 {
            let q = v[i + 4];
            if q == '"' || q == '\'' {
                let e = find_char_from(&v, i + 5, q);
                let mut url: Vec<char> = Vec::new();
                push_range(&mut url, &v, i + 5, e);
                proof {
                    assert(url@ =~= v@.subrange(i + 5 as int, e as int));
                }
                let us = chars_to_string(&url);
                let ghost old_out = out@;
                push_all(&mut out, &pat);
                out.push(q);
                if should_rewrite_image(us.as_str(), site_url) {
                    let cdn = generate_cdn_url(us.as_str(), site_url, cdn_config);
                    push_all(&mut out, &str_to_chars(cdn.as_str()));
                    count += 1;
                } else {
                    push_all(&mut out, &url);
                }
                if e < n {
                    out.push(q);
                    i = e + 1;
                } else {
                    i = n;
                }
                stepped = true;
                proof {
                    let chunk = "src="@ + seq![q] + (if should_rewrite_spec(url@, site_g) {
                        cdn_url_spec(url@, site_g, prov_g, base_g, qual_g, fmt_g)
                    } else {
                        url@
                    }) + (if e < n {
                        seq![q]
                    } else {
                        Seq::<char>::empty()
                    });
                    assert(out@ =~= old_out + chunk);
                    let step = cdn_rewrite_spec(v@, i0, site_g, prov_g, base_g, qual_g, fmt_g);
                    let rest = cdn_rewrite_spec(
                        v@,
                        i as nat,
                        site_g,
                        prov_g,
                        base_g,
                        qual_g,
                        fmt_g,
                    );
                    assert(step.0 == chunk + rest.0 && step.1 == (if should_rewrite_spec(
                        url@,
                        site_g,
                    ) {
                        1nat
                    } else {
                        0nat
                    }) + rest.1) by {
                        assert(url@ =~= v@.subrange(i0 + 5 as int, e as int));
                    }
                }
            }
        }
        if !stepped {
            out.push(v[i]);
            i += 1;
        }
    }
    proof {
        assert(out@ =~= cdn_rewrite_spec(v@, 0, site_g, prov_g, base_g, qual_g, fmt_g).0);
    }
    *html = chars_to_string(&out);
    count
}

/// An `img` tag whose quoted `src` names a format worth converting.
pub open spec fn webp_candidate(tag: Seq<char>) -> bool {
    match attr_value(tag, "src"@) {
        Some(src) => {
            let lo = lower_seq(src);
            ends_with_cs(lo, ".jpg"@) || ends_with_cs(lo, ".jpeg"@) || ends_with_cs(lo, ".png"@)
                || ends_with_cs(lo, ".gif"@)
        },
        None => false,
    }
}

pub open spec fn webp_candidate_fn() -> spec_fn(Seq<char>) -> bool {
    |t: Seq<char>| webp_candidate(t)
}

/// An `img` tag with no quoted `loading` attribute.
pub open spec fn missing_lazy(tag: Seq<char>) -> bool {
    attr_value(tag, "loading"@) is None
}

pub open spec fn missing_lazy_fn() -> spec_fn(Seq<char>) -> bool {
    |t: Seq<char>| missing_lazy(t)
}

fn webp_candidate_probe(tag: Vec<char>) -> (r: (Vec<char>, bool))
    ensures
        r.0@ == tag@,
        r.1 == webp_candidate(tag@),
{
    proof {
        reveal_strlit(".jpg");
        reveal_strlit(".jpeg");
        reveal_strlit(".png");
        reveal_strlit(".gif");
    }
    let b = match attr_value_exec(&tag, &str_to_chars("src")) {
        Some(src) => {
            let lo = to_lower_vec(&src);
            ends_with_vec(&lo, &str_to_chars(".jpg")) || ends_with_vec(
                &lo,
                &str_to_chars(".jpeg"),
            ) || ends_with_vec(&lo, &str_to_chars(".png")) || ends_with_vec(
                &lo,
                &str_to_chars(".gif"),
            )
        },
        None => false,
    };
    (tag, b)
}

fn missing_lazy_probe(tag: Vec<char>) -> (r: (Vec<char>, bool))
    ensures
        r.0@ == tag@,
        r.1 == missing_lazy(tag@),
{
    let b = match attr_value_exec(&tag, &str_to_chars("loading")) {
        Some(_) => false,
        None => true,
    };
    (tag, b)
}

/// Count conversion candidates, images without dimensions, and
/// images without a loading attribute, with the matching advice.
pub fn analyze_images(html: &str) -> (r: ImageResult)
    ensures
        r.webp_candidates == scan_tags_count(html@, 0, "<img"@, webp_candidate_fn()),
        r.missing_dimensions == scan_tags_count(html@, 0, "<img"@, missing_dims_fn()),
        r.missing_lazy == scan_tags_count(html@, 0, "<img"@, missing_lazy_fn()),
        r.images_rewritten == 0,
        views_of_strings(r.optimizations@) == (if scan_tags_count(
            html@,
            0,
            "<img"@,
            webp_candidate_fn(),
        ) > 0 {
            seq![
                crate::text::dec_digits(
                    scan_tags_count(html@, 0, "<img"@, webp_candidate_fn()),
                ) + " images can be converted to WebP"@,
            ]
        } else {
            Seq::empty()
        }) + (if scan_tags_count(html@, 0, "<img"@, missing_dims_fn()) > 0 {
            seq![
                crate::text::dec_digits(scan_tags_count(html@, 0, "<img"@, missing_dims_fn()))
                    + " images missing width/height (causes CLS)"@,
            ]
        } else {
            Seq::empty()
        }),
{
    proof {
        reveal_strlit("<img");
    }
    let v = str_to_chars(html);
    let pat = str_to_chars("<img");
    let w = scan_exec(&v, &pat, webp_candidate_probe, Ghost(id_tr_fn()), Ghost(
        webp_candidate_fn(),
    ));
    let d = scan_exec(&v, &pat, crate::optimizer::dims_probe_pub, Ghost(id_tr_fn()), Ghost(
        missing_dims_fn(),
    ));
    let l = scan_exec(&v, &pat, missing_lazy_probe, Ghost(id_tr_fn()), Ghost(missing_lazy_fn()));
    let mut optimizations: Vec<String> = Vec::new();
    if w.1 > 0 {
        let mut m = usize_to_chars(w.1);
        push_all(&mut m, &str_to_chars(" images can be converted to WebP"));
        optimizations.push(chars_to_string(&m));
    }
    let ghost o1 = optimizations@;
    if d.1 > 0 {
        let mut m = usize_to_chars(d.1);
        push_all(&mut m, &str_to_chars(" images missing width/height (causes CLS)"));
        optimizations.push(chars_to_string(&m));
    }
    proof {
        assert(views_of_strings(optimizations@) =~= (if w.1 > 0 {
            seq![
                crate::text::dec_digits(w.1 as nat) + " images can be converted to WebP"@,
            ]
        } else {
            Seq::<Seq<char>>::empty()
        }) + (if d.1 > 0 {
            seq![
                crate::text::dec_digits(d.1 as nat)
                    + " images missing width/height (causes CLS)"@,
            ]
        } else {
            Seq::<Seq<char>>::empty()
        }));
    }
    ImageResult {
        optimizations,
        webp_candidates: w.1,
        missing_dimensions: d.1,
        missing_lazy: l.1,
        images_rewritten: 0,
    }
}

/// Count the images that carry neither dimension attribute; the text
/// itself is left untouched.
pub fn add_dimension_hints(html: &mut String) -> (count: usize)
    ensures
        final(html)@ == old(html)@,
        count == scan_tags_count(old(html)@, 0, "<img"@, missing_dims_fn()),
{
    let count = crate::optimizer::count_images_without_dimensions(html.as_str());
    count
}

/// The first `img` tag of the document, if any.
pub open spec fn first_img_tag(s: Seq<char>, i: nat) -> Option<Seq<char>>
    decreases s.len() - i,
    when i <= s.len()
    via first_img_tag_dec
{
    if i >= s.len() {
        None
    } else if matches_at_ci(s, i as int, "<img"@) {
        Some(s.subrange(i as int, tag_end(s, i) as int))
    } else {
        first_img_tag(s, (i + 1) as nat)
    }
}

#[via_fn]
proof fn first_img_tag_dec(s: Seq<char>, i: nat) {
    if i < s.len() {
        lemma_find_gt_from(s, i);
    }
}

/// The advice for the likely largest-contentful-paint image: name its
/// `src` when the first image lacks a fetch priority.
pub open spec fn lcp_hint_spec(s: Seq<char>) -> Option<Seq<char>> {
    match first_img_tag(s, 0) {
        Some(tag) => if attr_value(tag, "fetchpriority"@) is None {
            match attr_value(tag, "src"@) {
                Some(src) => Some("Add fetchpriority=\"high\" to LCP image: "@ + src),
                None => None,
            }
        } else {
            None
        },
        None => None,
    }
}

/// Advise a fetch priority for the likely largest-contentful-paint
/// image.
pub fn check_lcp_optimization(html: &str) -> (r: Option<String>)
    ensures
        match r {
            Some(x) => lcp_hint_spec(html@) == Some(x@),
            None => lcp_hint_spec(html@) is None,
        },
{
    let v = str_to_chars(html);
    let n = v.len();
    let mut i: usize = 0;
    while i < n
        invariant
            i <= n,
            n == v@.len(),
            v@ == html@,
            first_img_tag(v@, 0) == first_img_tag(v@, i as nat),
        decreases n - i,
    {
        proof {
            reveal_strlit("<img");
        }
        if crate::text::match_at_ci(&v, i, &str_to_chars("<img")) {
            let mut j: usize = i;
            while j < n && v[j] != '>'
                invariant
                    i <= j <= n,
                    n == v@.len(),
                    forall|m: int| i <= m < j ==> v@[m] != '>',
                decreases n - j,
            {
                j += 1;
            }
            proof {
                lemma_find_gt_from_is(v@, i as nat, j as nat);
            }
            let te = if j < n {
                j + 1
            } else {
                n
            };
            let mut tag: Vec<char> = Vec::new();
            push_range(&mut tag, &v, i, te);
            proof {
                assert(tag@ =~= v@.subrange(i as int, te as int));
            }
            proof {
                assert(te == tag_end(v@, i as nat));
                assert(first_img_tag(v@, i as nat) == Some(tag@)) by {
                    assert(tag@ =~= v@.subrange(i as int, tag_end(v@, i as nat) as int));
                }
            }
            match attr_value_exec(&tag, &str_to_chars("fetchpriority")) {
                Some(_) => {
                    return None;
                },
                None => {},
            }
            match attr_value_exec(&tag, &str_to_chars("src")) {
                Some(src) => {
                    let mut m: Vec<char> = Vec::new();
                    push_all(&mut m, &str_to_chars("Add fetchpriority=\"high\" to LCP image: "));
                    push_all(&mut m, &src);
                    proof {
                        assert(m@ =~= "Add fetchpriority=\"high\" to LCP image: "@ + src@);
                    }
                    return Some(chars_to_string(&m));
                },
                None => {
                    return None;
                },
            }
        }
        i += 1;
    }
    None
}


/// One conversion suggestion: the same path with a `webp` extension.
pub open spec fn webp_suggestion(src: Seq<char>) -> Seq<char> {
    let d = rfind_char(src, '.');
    let w: Seq<char> = if d >= 0 {
        src.take(d) + ".webp"@
    } else {
        src + ".webp"@
    };
    "Convert "@ + src + " to WebP: "@ + w
}

/// The conversion suggestions of a document: one per image in a
/// convertible format that is not already inside a `picture` element.
pub open spec fn webp_suggestions(s: Seq<char>, i: nat, in_pic: bool) -> Seq<Seq<char>>
    decreases s.len() - i,
    when i <= s.len()
    via webp_suggestions_dec
{
    if i >= s.len() {
        Seq::empty()
    } else if matches_at_ci(s, i as int, "<picture"@) {
        webp_suggestions(s, (i + 1) as nat, true)
    } else if matches_at_ci(s, i as int, "</picture"@) {
        webp_suggestions(s, (i + 1) as nat, false)
    } else if matches_at_ci(s, i as int, "<img"@) {
        let te = tag_end(s, i);
        let tag = s.subrange(i as int, te as int);
        let keep: Seq<Seq<char>> = match attr_value(tag, "src"@) {
            Some(src) => {
                let lo = lower_seq(src);
                if !in_pic && !ends_with_cs(lo, ".webp"@) && !ends_with_cs(lo, ".svg"@) && (
                ends_with_cs(lo, ".jpg"@) || ends_with_cs(lo, ".jpeg"@) || ends_with_cs(
                    lo,
                    ".png"@,
                )) {
                    seq![webp_suggestion(src)]
                } else {
                    Seq::empty()
                }
            },
            None => Seq::empty(),
        };
        keep + webp_suggestions(s, te, in_pic)
    } else {
        webp_suggestions(s, (i + 1) as nat, in_pic)
    }
}

#[via_fn]
proof fn webp_suggestions_dec(s: Seq<char>, i: nat, in_pic: bool) {
    if i < s.len() {
        lemma_find_gt_from(s, i);
    }
}

/// Suggest a modern format for each convertible image outside a
/// `picture` element.
pub fn suggest_webp_conversion(html: &str) -> (r: Vec<String>)
    ensures
        views_of_strings(r@) == webp_suggestions(html@, 0, false),
{
    let v = str_to_chars(html);
    let n = v.len();
    let mut out: Vec<String> = Vec::new();
    let mut in_pic: bool = false;
    let mut i: usize = 0;
    proof {
        assert(views_of_strings(out@) + webp_suggestions(v@, 0, false) =~= webp_suggestions(
            v@,
            0,
            false,
        ));
    }
    while i < n
        invariant
            i <= n,
            n == v@.len(),
            v@ == html@,
            webp_suggestions(v@, 0, false) == views_of_strings(out@) + webp_suggestions(
                v@,
                i as nat,
                in_pic,
            ),
        decreases n - i,
    {
        proof {
            reveal_strlit("<picture");
            reveal_strlit("</picture");
            reveal_strlit("<img");
            reveal_strlit(".webp");
            reveal_strlit(".svg");
            reveal_strlit(".jpg");
            reveal_strlit(".jpeg");
            reveal_strlit(".png");
        }
        if crate::text::match_at_ci(&v, i, &str_to_chars("<picture")) {
            in_pic = true;
            i += 1;
        } else if crate::text::match_at_ci(&v, i, &str_to_chars("</picture")) {
            in_pic = false;
            i += 1;
        } else if crate::text::match_at_ci(&v, i, &str_to_chars("<img")) {
            let mut j: usize = i;
            while j < n && v[j] != '>'
                invariant
                    i <= j <= n,
                    n == v@.len(),
                    forall|m: int| i <= m < j ==> v@[m] != '>',
                decreases n - j,
            {
                j += 1;
            }
            proof {
                lemma_find_gt_from_is(v@, i as nat, j as nat);
            }
            let te = if j < n {
                j + 1
            } else {
                n
            };
            let mut tag: Vec<char> = Vec::new();
            push_range(&mut tag, &v, i, te);
            proof {
                assert(tag@ =~= v@.subrange(i as int, te as int));
            }
            match attr_value_exec(&tag, &str_to_chars("src")) {
                Some(src) => {
                    let lo = to_lower_vec(&src);
                    if !in_pic && !ends_with_vec(&lo, &str_to_chars(".webp")) && !ends_with_vec(
                        &lo,
                        &str_to_chars(".svg"),
                    ) && (ends_with_vec(&lo, &str_to_chars(".jpg")) || ends_with_vec(
                        &lo,
                        &str_to_chars(".jpeg"),
                    ) || ends_with_vec(&lo, &str_to_chars(".png"))) {
                        let d = crate::seo_optimizer::rfind_char_pub(&src, '.');
                        let mut w: Vec<char> = Vec::new();
                        if d > 0 {
                            push_range(&mut w, &src, 0, d - 1);
                        } else {
                            push_all(&mut w, &src);
                        }
                        push_all(&mut w, &str_to_chars(".webp"));
                        let mut m: Vec<char> = Vec::new();
                        push_all(&mut m, &str_to_chars("Convert "));
                        push_all(&mut m, &src);
                        push_all(&mut m, &str_to_chars(" to WebP: "));
                        push_all(&mut m, &w);
                        proof {
                            assert(w@ =~= (if rfind_char(src@, '.') >= 0 {
                                src@.take(rfind_char(src@, '.')) + ".webp"@
                            } else {
                                src@ + ".webp"@
                            }));
                            assert(m@ =~= webp_suggestion(src@));
                        }
                        out.push(chars_to_string(&m));
                        proof {
                            assert(views_of_strings(out@) =~= views_of_strings(out@.drop_last())
                                + seq![m@]);
                        }
                    }
                },
                None => {},
            }
            i = te;
        } else {
            i += 1;
        }
    }
    out
}

/// One responsive-image suggestion.
pub open spec fn resp_suggestion(src: Seq<char>) -> Seq<char> {
    "Add srcset to: "@ + src + " (e.g., srcset=\""@ + src + " 1x, "@ + replace_all_cs(
        src,
        "."@,
        "@2x."@,
    ) + " 2x\")"@
}

/// The responsive-image suggestions: one per image with a `src` but
/// no `srcset`, skipping icons, logos, vectors and data URLs.
pub open spec fn resp_suggestions(s: Seq<char>, i: nat) -> Seq<Seq<char>>
    decreases s.len() - i,
    when i <= s.len()
    via resp_suggestions_dec
{
    if i >= s.len() {
        Seq::empty()
    } else if matches_at_ci(s, i as int, "<img"@) {
        let te = tag_end(s, i);
        let tag = s.subrange(i as int, te as int);
        let keep: Seq<Seq<char>> = match attr_value(tag, "src"@) {
            Some(src) => if attr_value(tag, "srcset"@) is None && !contains_cs(src, "icon"@)
                && !contains_cs(src, "logo"@) && !ends_with_cs(src, ".svg"@) && !matches_at_cs(
                src,
                0,
                "data:"@,
            ) {
                seq![resp_suggestion(src)]
            } else {
                Seq::empty()
            },
            None => Seq::empty(),
        };
        keep + resp_suggestions(s, te)
    } else {
        resp_suggestions(s, (i + 1) as nat)
    }
}

#[via_fn]
proof fn resp_suggestions_dec(s: Seq<char>, i: nat) {
    if i < s.len() {
        lemma_find_gt_from(s, i);
    }
}

/// Suggest a `srcset` for up to five images that lack one.
pub fn suggest_responsive_images(html: &str) -> (r: Vec<String>)
    ensures
        views_of_strings(r@) == resp_suggestions(html@, 0).take(
            if resp_suggestions(html@, 0).len() < 5 {
                resp_suggestions(html@, 0).len() as int
            } else {
                5
            },
        ),
{
    let v = str_to_chars(html);
    let n = v.len();
    let mut out: Vec<String> = Vec::new();
    let mut i: usize = 0;
    proof {
        assert(views_of_strings(out@) + resp_suggestions(v@, 0) =~= resp_suggestions(v@, 0));
    }
    while i < n
        invariant
            i <= n,
            n == v@.len(),
            v@ == html@,
            resp_suggestions(v@, 0) == views_of_strings(out@) + resp_suggestions(v@, i as nat),
        decreases n - i,
    {
        proof {
            reveal_strlit("<img");
            reveal_strlit("icon");
            reveal_strlit("logo");
            reveal_strlit(".svg");
            reveal_strlit("data:");
            reveal_strlit(".");
            reveal_strlit("@2x.");
        }
        if crate::text::match_at_ci(&v, i, &str_to_chars("<img")) {
            let mut j: usize = i;
            while j < n && v[j] != '>'
                invariant
                    i <= j <= n,
                    n == v@.len(),
                    forall|m: int| i <= m < j ==> v@[m] != '>',
                decreases n - j,
            {
                j += 1;
            }
            proof {
                lemma_find_gt_from_is(v@, i as nat, j as nat);
            }
            let te = if j < n {
                j + 1
            } else {
                n
            };
            let mut tag: Vec<char> = Vec::new();
            push_range(&mut tag, &v, i, te);
            proof {
                assert(tag@ =~= v@.subrange(i as int, te as int));
            }
            match attr_value_exec(&tag, &str_to_chars("src")) {
                Some(src) => {
                    let has_set = match attr_value_exec(&tag, &str_to_chars("srcset")) {
                        Some(_) => true,
                        None => false,
                    };
                    if !has_set && !has_cs(&src, &str_to_chars("icon")) && !has_cs(
                        &src,
                        &str_to_chars("logo"),
                    ) && !ends_with_vec(&src, &str_to_chars(".svg")) && !match_at_cs(
                        &src,
                        0,
                        &str_to_chars("data:"),
                    ) {
                        let two = replace_all(&src, &str_to_chars("."), &str_to_chars("@2x."));
                        let mut m: Vec<char> = Vec::new();
                        push_all(&mut m, &str_to_chars("Add srcset to: "));
                        push_all(&mut m, &src);
                        push_all(&mut m, &str_to_chars(" (e.g., srcset=\""));
                        push_all(&mut m, &src);
                        push_all(&mut m, &str_to_chars(" 1x, "));
                        push_all(&mut m, &two);
                        push_all(&mut m, &str_to_chars(" 2x\")"));
                        proof {
                            assert(m@ =~= resp_suggestion(src@));
                        }
                        out.push(chars_to_string(&m));
                        proof {
                            assert(views_of_strings(out@) =~= views_of_strings(out@.drop_last())
                                + seq![m@]);
                        }
                    }
                },
                None => {},
            }
            i = te;
        } else {
            i += 1;
        }
    }
    proof {
        assert(views_of_strings(out@) =~= resp_suggestions(v@, 0));
        assert(views_of_strings(out@) =~= resp_suggestions(html@, 0).take(out@.len() as int));
    }
    while out.len() > 5
        invariant
            out@.len() <= resp_suggestions(html@, 0).len(),
            out@.len() >= 5 || out@.len() == resp_suggestions(html@, 0).len(),
            views_of_strings(out@) == resp_suggestions(html@, 0).take(out@.len() as int),
        decreases out@.len(),
    {
        out.pop();
        proof {
            assert(views_of_strings(out@) =~= resp_suggestions(html@, 0).take(out@.len() as int));
        }
    }
    out
}
} // verus!
