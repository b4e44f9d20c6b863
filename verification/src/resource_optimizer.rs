//! External-resource consolidation: discovery of stylesheet and script
//! references, per-resource optimization of fetched contents, combined
//! assets, critical CSS, and the reference rewrite.

use vstd::prelude::*;

use crate::scan::{
    attr_value, attr_value_exec, char_pred, find_char_from, find_ci_at, find_ci_from,
    find_cs_from, find_if_from, insert_at, insert_chars, lemma_find_cs_from_is,
    lemma_find_gt_from, lemma_find_gt_from_is, lemma_find_if_from, lemma_find_if_from_is,
    tag_end,
};
use crate::text::{
    chars_to_string, contains_cs, dec_digits, has_cs, is_space_char, lower_seq, match_at_cs,
    matches_at_ci, matches_at_cs, push_all, push_range, str_to_chars, to_lower_vec, trim_chars,
    trim_spec, views_of_strings,
};

verus! {

/// The stylesheet references of a document: the `href` of every
/// `link` tag whose `rel` is `stylesheet`, skipping data URLs, empty
/// values and this library's own output.
pub open spec fn css_link_urls(s: Seq<char>, i: nat) -> Seq<Seq<char>>
    decreases s.len() - i,
    when i <= s.len()
    via css_link_urls_dec
{
    if i >= s.len() {
        Seq::empty()
    } else if matches_at_ci(s, i as int, "<link"@) {
        let te = tag_end(s, i);
        let tag = s.subrange(i as int, te as int);
        let keep: Seq<Seq<char>> = if attr_value(tag, "rel"@) == Some("stylesheet"@) {
            match attr_value(tag, "href"@) {
                Some(h) => if !matches_at_cs(h, 0, "data:"@) && h.len() > 0 && !contains_cs(
                    h,
                    "/htmlwp/"@,
                ) {
                    seq![h]
                } else {
                    Seq::empty()
                },
                None => Seq::empty(),
            }
        } else {
            Seq::empty()
        };
        keep + css_link_urls(s, te)
    } else {
        css_link_urls(s, (i + 1) as nat)
    }
}

#[via_fn]
proof fn css_link_urls_dec(s: Seq<char>, i: nat) {
    if i < s.len() {
        lemma_find_gt_from(s, i);
    }
}

/// The script references of a document: the `src` of every `script`
/// tag that has one, skipping data URLs and empty values.
pub open spec fn js_src_urls(s: Seq<char>, i: nat) -> Seq<Seq<char>>
    decreases s.len() - i,
    when i <= s.len()
    via js_src_urls_dec
{
    if i >= s.len() {
        Seq::empty()
    } else if matches_at_ci(s, i as int, "<script"@) {
        let te = tag_end(s, i);
        let tag = s.subrange(i as int, te as int);
        let keep: Seq<Seq<char>> = match attr_value(tag, "src"@) {
            Some(h) => if !matches_at_cs(h, 0, "data:"@) && h.len() > 0 {
                seq![h]
            } else {
                Seq::empty()
            },
            None => Seq::empty(),
        };
        keep + js_src_urls(s, te)
    } else {
        js_src_urls(s, (i + 1) as nat)
    }
}

#[via_fn]
proof fn js_src_urls_dec(s: Seq<char>, i: nat) {
    if i < s.len() {
        lemma_find_gt_from(s, i);
    }
}

/// Collect the stylesheet references of a document.
pub fn extract_css_links(html: &str) -> (r: Vec<String>)
    ensures
        views_of_strings(r@) == css_link_urls(html@, 0),
{
    let v = str_to_chars(html);
    let n = v.len();
    let mut out: Vec<String> = Vec::new();
    let mut i: usize = 0;
    proof {
        assert(views_of_strings(out@) + css_link_urls(v@, 0) =~= css_link_urls(v@, 0));
    }
    while i < n
        invariant
            i <= n,
            n == v@.len(),
            v@ == html@,
            css_link_urls(v@, 0) == views_of_strings(out@) + css_link_urls(v@, i as nat),
        decreases n - i,
    {
        proof {
            reveal_strlit("<link");
            reveal_strlit("stylesheet");
            reveal_strlit("data:");
            reveal_strlit("/htmlwp/");
        }
        if crate::text::match_at_ci(&v, i, &str_to_chars("<link")) {
            let mut j: usize = i;
            while j < n && v[j] != '>'
                invariant
                    i <= j <= n,
                    n == v@.len(),
                    forall|m: int| i <= m < j ==> v@[m] != '>',
                decreases n - j,
            {
                j += 1;
            }
            proof {
                lemma_find_gt_from_is(v@, i as nat, j as nat);
            }
            let te = if j < n {
                j + 1
            } else {
                n
            };
            let mut tag: Vec<char> = Vec::new();
            push_range(&mut tag, &v, i, te);
            proof {
                assert(tag@ =~= v@.subrange(i as int, te as int));
            }
            let rel = attr_value_exec(&tag, &str_to_chars("rel"));
            let is_sheet = match rel {
                Some(x) => {
                    let d = str_to_chars("stylesheet");
                    let m = match_at_cs(&x, 0, &d) && x.len() == d.len();
                    proof {
                        if m {
                            assert(x@ =~= "stylesheet"@);
                        }
                    }
                    m
                },
                None => false,
            };
            proof {
                assert(is_sheet == (attr_value(tag@, "rel"@) == Some("stylesheet"@)));
            }
            if is_sheet {
                match attr_value_exec(&tag, &str_to_chars("href")) {
                    Some(h) => {
                        let dp = str_to_chars("data:");
                        if !match_at_cs(&h, 0, &dp) && h.len() > 0 && !has_cs(
                            &h,
                            &str_to_chars("/htmlwp/"),
                        ) {
                            out.push(chars_to_string(&h));
                            proof {
                                assert(views_of_strings(out@) =~= views_of_strings(
                                    out@.drop_last(),
                                ) + seq![h@]);
                            }
                        }
                    },
                    None => {},
                }
            }
            i = te;
        } else {
            i += 1;
        }
    }
    out
}

/// Collect the script references of a document.
pub fn extract_js_sources(html: &str) -> (r: Vec<String>)
    ensures
        views_of_strings(r@) == js_src_urls(html@, 0),
{
    let v = str_to_chars(html);
    let n = v.len();
    let mut out: Vec<String> = Vec::new();
    let mut i: usize = 0;
    proof {
        assert(views_of_strings(out@) + js_src_urls(v@, 0) =~= js_src_urls(v@, 0));
    }
    while i < n
        invariant
            i <= n,
            n == v@.len(),
            v@ == html@,
            js_src_urls(v@, 0) == views_of_strings(out@) + js_src_urls(v@, i as nat),
        decreases n - i,
    {
        proof {
            reveal_strlit("<script");
            reveal_strlit("data:");
        }
        if crate::text::match_at_ci(&v, i, &str_to_chars("<script")) {
            let mut j: usize = i;
            while j < n && v[j] != '>'
                invariant
                    i <= j <= n,
                    n == v@.len(),
                    forall|m: int| i <= m < j ==> v@[m] != '>',
                decreases n - j,
            {
                j += 1;
            }
            proof {
                lemma_find_gt_from_is(v@, i as nat, j as nat);
            }
            let te = if j < n {
                j + 1
            } else {
                n
            };
            let mut tag: Vec<char> = Vec::new();
            push_range(&mut tag, &v, i, te);
            proof {
                assert(tag@ =~= v@.subrange(i as int, te as int));
            }
            match attr_value_exec(&tag, &str_to_chars("src")) {
                Some(h) => {
                    let dp = str_to_chars("data:");
                    if !match_at_cs(&h, 0, &dp) && h.len() > 0 {
                        out.push(chars_to_string(&h));
                        proof {
                            assert(views_of_strings(out@) =~= views_of_strings(out@.drop_last())
                                + seq![h@]);
                        }
                    }
                },
                None => {},
            }
            i = te;
        } else {
            i += 1;
        }
    }
    out
}

/// The value of `attr_name` inside the tag text, matched without
/// regard to ASCII case and read up to the closing quote.
pub fn extract_attribute(tag: &str, attr_name: &str) -> (r: Option<String>)
    ensures
        match r {
            Some(x) => attr_value(tag@, attr_name@) == Some(x@),
            None => attr_value(tag@, attr_name@) is None,
        },
{
    let t = str_to_chars(tag);
    let nm = str_to_chars(attr_name);
    match attr_value_exec(&t, &nm) {
        Some(x) => Some(chars_to_string(&x)),
        None => None,
    }
}

/// The `href` attribute of a tag text.
pub fn extract_href(tag: &str) -> (r: Option<String>)
    ensures
        match r {
            Some(x) => attr_value(tag@, "href"@) == Some(x@),
            None => attr_value(tag@, "href"@) is None,
        },
{
    extract_attribute(tag, "href")
}

/// The `src` attribute of a tag text.
pub fn extract_src(tag: &str) -> (r: Option<String>)
    ensures
        match r {
            Some(x) => attr_value(tag@, "src"@) == Some(x@),
            None => attr_value(tag@, "src"@) is None,
        },
{
    extract_attribute(tag, "src")
}

/// One step of the 64-bit FNV-1a hash.
pub open spec fn fnv_step(h: u64, c: char) -> u64 {
    (((h ^ (c as u64)) as nat * 0x100000001b3) % 0x10000000000000000) as u64
}

/// The 64-bit FNV-1a hash of a text, over its codepoints.
pub open spec fn fnv_hash(s: Seq<char>, i: nat, h: u64) -> u64
    decreases s.len() - i,
    when i <= s.len()
{
    if i >= s.len() {
        h
    } else {
        fnv_hash(s, (i + 1) as nat, fnv_step(h, s[i as int]))
    }
}

/// The lowercase hexadecimal digits of `n`, most significant first.
pub open spec fn hex_digit_char(d: nat) -> char {
    if d < 10 {
        crate::text::digit_char(d)
    } else if d == 10 {
        'a'
    } else if d == 11 {
        'b'
    } else if d == 12 {
        'c'
    } else if d == 13 {
        'd'
    } else if d == 14 {
        'e'
    } else {
        'f'
    }
}

pub open spec fn hex_digits(n: nat) -> Seq<char>
    decreases n,
{
    if n < 16 {
        seq![hex_digit_char(n)]
    } else {
        hex_digits(n / 16) + seq![hex_digit_char(n % 16)]
    }
}

/// The deterministic filename derived from a URL: the hexadecimal
/// FNV-1a hash of the URL followed by the extension.  The name depends
/// on the URL alone, never on the fetched content.
pub open spec fn filename_spec(url: Seq<char>, ext: Seq<char>) -> Seq<char> {
    hex_digits(fnv_hash(url, 0, 0xcbf29ce484222325) as nat) + seq!['.'] + ext
}

fn hex_chars(n: u64) -> (r: Vec<char>)
    ensures
        r@ == hex_digits(n as nat),
{
    let mut rev: Vec<char> = Vec::new();
    let mut m: u64 = n;
    loop
        invariant_except_break
            hex_digits(n as nat) == hex_digits(m as nat) + rev@.reverse(),
        ensures
            hex_digits(n as nat) == rev@.reverse(),
        decreases m,
    {
        let ghost m0 = m as nat;
        let d = m % 16;
        let c: char = if d < 10 {
            (('0' as u8) + (d as u8)) as char
        } else {
            (('a' as u8) + ((d - 10) as u8)) as char
        };
        proof {
            assert(c == hex_digit_char((m % 16) as nat)) by {
                assert((m % 16) < 16);
            }
        }
        let ghost old_rev = rev@;
        rev.push(c);
        m = m / 16;
        proof {
            assert(rev@.reverse() =~= seq![c] + old_rev.reverse());
            if m0 < 16 {
                assert(hex_digits(m0) == seq![hex_digit_char(m0)]);
                assert(hex_digits(n as nat) =~= rev@.reverse());
            } else {
                assert(hex_digits(m0) == hex_digits(m0 / 16) + seq![hex_digit_char(m0 % 16)]);
                assert(hex_digits(n as nat) =~= hex_digits(m as nat) + rev@.reverse());
            }
        }
        if m == 0 {
            break;
        }
    }
    let mut out: Vec<char> = Vec::new();
    let mut i: usize = rev.len();
    while i > 0
        invariant
            i <= rev@.len(),
            out@ =~= rev@.reverse().take(rev@.len() - i),
        decreases i,
    {
        i -= 1;
        out.push(rev[i]);
        proof {
            assert(out@ =~= rev@.reverse().take(rev@.len() - i));
        }
    }
    proof {
        assert(out@ =~= rev@.reverse());
    }
    out
}

/// Derive the deterministic, URL-addressed filename for a resource.
pub fn generate_filename(url: &str, extension: &str) -> (r: String)
    ensures
        r@ == filename_spec(url@, extension@),
{
    let v = str_to_chars(url);
    let n = v.len();
    let mut h: u64 = 0xcbf29ce484222325;
    let mut i: usize = 0;
    while i < n
        invariant
            i <= n,
            n == v@.len(),
            fnv_hash(v@, 0, 0xcbf29ce484222325) == fnv_hash(v@, i as nat, h),
        decreases n - i,
    {
        let c = v[i];
        let x: u64 = h ^ (c as u64);
        let h2: u64 = x.wrapping_mul(0x100000001b3u64);
        proof {
            assert(h2 == fnv_step(h, c));
        }
        h = h2;
        i += 1;
    }
    let mut out = hex_chars(h);
    out.push('.');
    push_all(&mut out, &str_to_chars(extension));
    proof {
        assert(out@ =~= filename_spec(url@, extension@));
    }
    chars_to_string(&out)
}

/// The same URL always yields the same derived filename, in any two
/// runs: the name is a function of the URL and extension alone.
pub proof fn lemma_filename_deterministic(u1: Seq<char>, u2: Seq<char>, e1: Seq<char>, e2: Seq<char>)
    requires
        u1 == u2,
        e1 == e2,
    ensures
        filename_spec(u1, e1) == filename_spec(u2, e2),
{
}

/// Relies on lightningcss, through the stylesheet minifier: acceptance
/// and the printed stylesheet are functions of the source text alone.
pub fn minify_css(css: &str) -> (r: Result<String, String>)
    ensures
        r is Ok <==> crate::css_optimizer::css_parses(css@),
        r is Ok ==> r->Ok_0@ == crate::css_optimizer::css_minified_of(css@),
{
    crate::css_optimizer::minify_css(css)
}

/// Relies on minify_js::minify (parse, minify, emit) only to hand back
/// some candidate text, or `None` on a parse error or non-UTF-8
/// output, and to return on every input.  Nothing is claimed of the
/// candidate: the emitter orders hoisted function declarations by
/// hash-map iteration, so two calls on one source may differ.  The
/// caller decides what to keep.
#[verifier::external_body]
fn js_minify_call(js: &str) -> (r: Option<String>)
{
    let session = minify_js::Session::new();
    let mut out: Vec<u8> = Vec::new();
    match minify_js::minify(&session, minify_js::TopLevelMode::Global, js.as_bytes(), &mut out) {
        Ok(_) => match String::from_utf8(out) {
            Ok(minified) => Some(minified),
            Err(_) => None,
        },
        Err(_) => None,
    }
}

/// Minify a script: the result is the original text, or whatever the
/// minifier produced when that is strictly smaller; it is never
/// longer than the input.
pub fn basic_js_minify(js: &str) -> (r: String)
    ensures
        r@ == js@ || r@.len() < js@.len(),
{
    match js_minify_call(js) {
        Some(m) => {
            if m.as_str().unicode_len() < js.unicode_len() {
                m
            } else {
                js.to_owned()
            }
        },
        None => js.to_owned(),
    }
}

/// A known shared-CDN host, never fetched so that cross-origin caching
/// is preserved.
pub open spec fn skip_external_spec(url: Seq<char>) -> bool {
    let lo = lower_seq(url);
    ||| contains_cs(lo, "fonts.googleapis.com"@)
    ||| contains_cs(lo, "fonts.gstatic.com"@)
    ||| contains_cs(lo, "cdnjs.cloudflare.com"@)
    ||| contains_cs(lo, "cdn.jsdelivr.net"@)
    ||| contains_cs(lo, "unpkg.com"@)
    ||| contains_cs(lo, "ajax.googleapis.com"@)
    ||| contains_cs(lo, "code.jquery.com"@)
    ||| contains_cs(lo, "stackpath.bootstrapcdn.com"@)
    ||| contains_cs(lo, "maxcdn.bootstrapcdn.com"@)
}

/// Whether a reference points at a shared CDN that must be skipped.
pub fn should_skip_external(url: &str) -> (r: bool)
    ensures
        r == skip_external_spec(url@),
{
    proof {
        reveal_strlit("fonts.googleapis.com");
        reveal_strlit("fonts.gstatic.com");
        reveal_strlit("cdnjs.cloudflare.com");
        reveal_strlit("cdn.jsdelivr.net");
        reveal_strlit("unpkg.com");
        reveal_strlit("ajax.googleapis.com");
        reveal_strlit("code.jquery.com");
        reveal_strlit("stackpath.bootstrapcdn.com");
        reveal_strlit("maxcdn.bootstrapcdn.com");
    }
    let v = str_to_chars(url);
    let lo = to_lower_vec(&v);
    has_cs(&lo, &str_to_chars("fonts.googleapis.com")) || has_cs(
        &lo,
        &str_to_chars("fonts.gstatic.com"),
    ) || has_cs(&lo, &str_to_chars("cdnjs.cloudflare.com")) || has_cs(
        &lo,
        &str_to_chars("cdn.jsdelivr.net"),
    ) || has_cs(&lo, &str_to_chars("unpkg.com")) || has_cs(
        &lo,
        &str_to_chars("ajax.googleapis.com"),
    ) || has_cs(&lo, &str_to_chars("code.jquery.com")) || has_cs(
        &lo,
        &str_to_chars("stackpath.bootstrapcdn.com"),
    ) || has_cs(&lo, &str_to_chars("maxcdn.bootstrapcdn.com"))
}


/// An optimized external stylesheet, ready to be stored.
#[derive(Debug)]
pub struct OptimizedCssFile {
    pub original_url: String,
    pub filename: String,
    /// Minified CSS text.
    pub content: String,
    pub original_size: usize,
    pub optimized_size: usize,
    /// Tenths of a percent saved.
    pub reduction_tenths: i128,
}

/// An optimized external script, ready to be stored.
#[derive(Debug)]
pub struct OptimizedJsFile {
    pub original_url: String,
    pub filename: String,
    /// Minified JS text.
    pub content: String,
    pub original_size: usize,
    pub optimized_size: usize,
    /// Tenths of a percent saved.
    pub reduction_tenths: i128,
}

/// The combined result of external CSS/JS optimization.
pub struct OptimizedResources {
    pub css_files: Vec<OptimizedCssFile>,
    pub js_files: Vec<OptimizedJsFile>,
    pub critical_css: Option<String>,
    /// All CSS merged into one payload.
    pub combined_css: Option<String>,
    /// All JS merged into one payload.
    pub combined_js: Option<String>,
    pub combined_css_filename: String,
    pub combined_js_filename: String,
    pub total_css_savings_bytes: u128,
    pub total_js_savings_bytes: u128,
}

/// `s` without its trailing `/` characters.
pub open spec fn trim_trailing_slashes(s: Seq<char>) -> Seq<char>
    decreases s.len(),
{
    if s.len() > 0 && s[s.len() - 1] == '/' {
        trim_trailing_slashes(s.drop_last())
    } else {
        s
    }
}

pub proof fn lemma_tts_take(s: Seq<char>, b: int)
    requires
        0 <= b <= s.len(),
        forall|m: int| b <= m < s.len() ==> s[m] == '/',
        b > 0 ==> s[b - 1] != '/',
    ensures
        trim_trailing_slashes(s) == s.take(b),
    decreases s.len() - b,
{
    if b == s.len() {
        assert(s.take(b) =~= s);
    } else {
        lemma_tts_take(s.drop_last(), b);
        assert(s.drop_last().take(b) =~= s.take(b));
    }
}

/// Copy of `s` without trailing slashes.
pub fn trim_trailing_slashes_exec(s: &Vec<char>) -> (r: Vec<char>)
    ensures
        r@ == trim_trailing_slashes(s@),
{
    let n = s.len();
    let mut b: usize = n;
    while b > 0 && s[b - 1] == '/'
        invariant
            b <= n,
            n == s@.len(),
            forall|m: int| b <= m < n ==> s@[m] == '/',
        decreases b,
    {
        b -= 1;
    }
    proof {
        lemma_tts_take(s@, b as int);
    }
    let mut out: Vec<char> = Vec::new();
    push_range(&mut out, s, 0, b);
    proof {
        assert(out@ =~= s@.take(b as int));
    }
    out
}

/// A reference resolved against the site origin: root-relative paths
/// get the origin, absolute URLs pass through, and other paths are
/// joined with a `/`.
pub open spec fn resolved_url(url: Seq<char>, base: Seq<char>) -> Seq<char> {
    if matches_at_cs(url, 0, "/"@) {
        trim_trailing_slashes(base) + url
    } else if matches_at_cs(url, 0, "http"@) {
        url
    } else {
        trim_trailing_slashes(base) + seq!['/'] + url
    }
}

/// Resolve a discovered reference to the URL to fetch.
pub fn resolve_resource_url(url: &str, base_url: &str) -> (r: String)
    ensures
        r@ == resolved_url(url@, base_url@),
{
    proof {
        reveal_strlit("/");
        reveal_strlit("http");
    }
    let u = str_to_chars(url);
    let b = str_to_chars(base_url);
    let slash = str_to_chars("/");
    let http = str_to_chars("http");
    if match_at_cs(&u, 0, &slash) {
        let mut out = trim_trailing_slashes_exec(&b);
        push_all(&mut out, &u);
        return chars_to_string(&out);
    }
    if match_at_cs(&u, 0, &http) {
        return chars_to_string(&u);
    }
    let mut out = trim_trailing_slashes_exec(&b);
    out.push('/');
    push_all(&mut out, &u);
    proof {
        assert(out@ =~= trim_trailing_slashes(b@) + seq!['/'] + u@);
    }
    chars_to_string(&out)
}

/// Turn fetched stylesheet text into a stored asset: the asset is
/// built exactly when the text is within the size ceiling and the
/// requested minification accepts it and strictly shrinks it; each
/// rejection names its cause.
pub fn prepare_css_asset(url: &str, original_css: &str, minify: bool) -> (r: Result<
    OptimizedCssFile,
    String,
>)
    ensures
        r is Ok <==> original_css@.len() <= 500000 && minify && crate::css_optimizer::css_parses(
            original_css@,
        ) && crate::css_optimizer::css_minified_of(original_css@).len() < original_css@.len(),
        original_css@.len() > 500000 <==> r is Err && r->Err_0@ == "CSS file too large"@,
        r is Err && original_css@.len() <= 500000 ==> r->Err_0@ == "No size improvement"@,
        match r {
            Ok(f) => {
                &&& f.original_url@ == url@
                &&& f.filename@ == filename_spec(url@, "css"@)
                &&& f.content@ == crate::css_optimizer::css_minified_of(original_css@)
                &&& f.original_size == original_css@.len()
                &&& f.optimized_size == f.content@.len()
                &&& f.optimized_size < f.original_size
                &&& f.reduction_tenths == crate::stats::reduction_tenths(
                    f.original_size as int,
                    f.optimized_size as int,
                )
            },
            Err(_) => true,
        },
{
    proof {
        reveal_strlit("CSS file too large");
        reveal_strlit("No size improvement");
        assert("CSS file too large"@.len() == 18);
        assert("No size improvement"@.len() == 19);
    }
    let original_size = original_css.unicode_len();
    if original_size > 500000 {
        return Err(String::from_str("CSS file too large"));
    }
    let minified: String = if minify {
        match minify_css(original_css) {
            Ok(m) => m,
            Err(_) => original_css.to_owned(),
        }
    } else {
        original_css.to_owned()
    };
    let optimized_size = minified.as_str().unicode_len();
    if optimized_size >= original_size {
        return Err(String::from_str("No size improvement"));
    }
    let tenths = crate::stats::reduction_tenths_exec(original_size, optimized_size);
    Ok(
        OptimizedCssFile {
            original_url: url.to_owned(),
            filename: generate_filename(url, "css"),
            content: minified,
            original_size,
            optimized_size,
            reduction_tenths: tenths,
        },
    )
}

/// Turn fetched script text into a stored asset: reject text over the
/// size ceiling, and reject it when the minifier's candidate did not
/// strictly shrink it; each rejection names its cause.  Whether the
/// minifier shrinks a given text is the one thing left to it.
pub fn prepare_js_asset(url: &str, original_js: &str, minify: bool) -> (r: Result<
    OptimizedJsFile,
    String,
>)
    ensures
        original_js@.len() > 1000000 <==> r is Err && r->Err_0@ == "JS file too large"@,
        r is Err && original_js@.len() <= 1000000 ==> r->Err_0@ == "No size improvement"@,
        !minify && original_js@.len() <= 1000000 ==> r is Err,
        match r {
            Ok(f) => {
                &&& f.original_url@ == url@
                &&& f.filename@ == filename_spec(url@, "js"@)
                &&& f.content@.len() < original_js@.len()
                &&& f.original_size == original_js@.len()
                &&& f.optimized_size == f.content@.len()
                &&& f.optimized_size < f.original_size
                &&& f.reduction_tenths == crate::stats::reduction_tenths(
                    f.original_size as int,
                    f.optimized_size as int,
                )
            },
            Err(_) => true,
        },
{
    proof {
        reveal_strlit("JS file too large");
        reveal_strlit("No size improvement");
        assert("JS file too large"@.len() == 17);
        assert("No size improvement"@.len() == 19);
    }
    let original_size = original_js.unicode_len();
    if original_size > 1000000 {
        return Err(String::from_str("JS file too large"));
    }
    let minified: String = if minify {
        basic_js_minify(original_js)
    } else {
        original_js.to_owned()
    };
    let optimized_size = minified.as_str().unicode_len();
    if optimized_size >= original_size {
        return Err(String::from_str("No size improvement"));
    }
    let tenths = crate::stats::reduction_tenths_exec(original_size, optimized_size);
    Ok(
        OptimizedJsFile {
            original_url: url.to_owned(),
            filename: generate_filename(url, "js"),
            content: minified,
            original_size,
            optimized_size,
            reduction_tenths: tenths,
        },
    )
}

/// Whether a rule's text marks it as critical, above-the-fold CSS.
pub open spec fn is_critical_rule(rule: Seq<char>) -> bool {
    ||| contains_cs(rule, "@font-face"@)
    ||| contains_cs(rule, ":root"@)
    ||| contains_cs(rule, "html"@)
    ||| contains_cs(rule, "body"@)
    ||| contains_cs(rule, "header"@)
    ||| contains_cs(rule, "nav"@)
    ||| contains_cs(rule, ".hero"@)
    ||| contains_cs(rule, "#hero"@)
    ||| contains_cs(rule, ".header"@)
    ||| contains_cs(rule, "#header"@)
    ||| contains_cs(rule, ".site-"@)
    ||| contains_cs(rule, "@media"@)
}

/// The critical subset of a stylesheet: rules carrying a fold marker,
/// kept until the accumulated text reaches the size cap.
pub open spec fn critical_css_spec(css: Seq<char>, i: nat, acc: Seq<char>) -> Seq<char>
    decreases css.len() - i,
    when i <= css.len()
    via critical_css_spec_dec
{
    if acc.len() >= 14336 {
        acc
    } else if i >= css.len() {
        acc
    } else {
        let e = find_if_from(css, i, char_pred('}'));
        let t = trim_spec(css.subrange(i as int, e as int));
        let acc2 = if t.len() > 0 && is_critical_rule(t) {
            acc + t + seq!['}'] + seq!['\n']
        } else {
            acc
        };
        if e < css.len() {
            critical_css_spec(css, (e + 1) as nat, acc2)
        } else {
            acc2
        }
    }
}

#[via_fn]
proof fn critical_css_spec_dec(css: Seq<char>, i: nat, acc: Seq<char>) {
    if acc.len() < 14336 && i < css.len() {
        lemma_find_if_from(css, i, char_pred('}'));
    }
}

/// Pick the heuristically critical rules of a combined stylesheet,
/// capped at fourteen kilobytes.
pub fn extract_critical_css(full_css: &str, _html: &str) -> (r: String)
    ensures
        r@ == critical_css_spec(full_css@, 0, Seq::<char>::empty()),
{
    proof {
        reveal_strlit("@font-face");
        reveal_strlit(":root");
        reveal_strlit("html");
        reveal_strlit("body");
        reveal_strlit("header");
        reveal_strlit("nav");
        reveal_strlit(".hero");
        reveal_strlit("#hero");
        reveal_strlit(".header");
        reveal_strlit("#header");
        reveal_strlit(".site-");
        reveal_strlit("@media");
    }
    let v = str_to_chars(full_css);
    let n = v.len();
    let mut out: Vec<char> = Vec::new();
    let mut i: usize = 0;
    let mut done: bool = false;
    while !done
        invariant
            i <= n,
            n == v@.len(),
            critical_css_spec(v@, 0, Seq::<char>::empty()) == (if done {
                out@
            } else {
                critical_css_spec(v@, i as nat, out@)
            }),
        decreases n - i + (if done { 0int } else { 1int }),
    {
        proof {
            reveal_strlit("@font-face");
            reveal_strlit(":root");
            reveal_strlit("html");
            reveal_strlit("body");
            reveal_strlit("header");
            reveal_strlit("nav");
            reveal_strlit(".hero");
            reveal_strlit("#hero");
            reveal_strlit(".header");
            reveal_strlit("#header");
            reveal_strlit(".site-");
            reveal_strlit("@media");
        }
        if out.len() >= 14336 {
            done = true;
        } else if i >= n {
            done = true;
        } else {
            let e = find_char_from(&v, i, '}');
            let mut piece: Vec<char> = Vec::new();
            push_range(&mut piece, &v, i, e);
            proof {
                assert(piece@ =~= v@.subrange(i as int, e as int));
            }
            let t = trim_chars(&piece);
            if t.len() > 0 && (has_cs(&t, &str_to_chars("@font-face")) || has_cs(
                &t,
                &str_to_chars(":root"),
            ) || has_cs(&t, &str_to_chars("html")) || has_cs(&t, &str_to_chars("body"))
                || has_cs(&t, &str_to_chars("header")) || has_cs(&t, &str_to_chars("nav"))
                || has_cs(&t, &str_to_chars(".hero")) || has_cs(&t, &str_to_chars("#hero"))
                || has_cs(&t, &str_to_chars(".header")) || has_cs(&t, &str_to_chars("#header"))
                || has_cs(&t, &str_to_chars(".site-")) || has_cs(&t, &str_to_chars("@media"))) {
                let ghost old_out = out@;
                push_all(&mut out, &t);
                out.push('}');
                out.push('\n');
                proof {
                    assert(out@ =~= old_out + t@ + seq!['}'] + seq!['\n']);
                }
            }
            if e < n {
                i = e + 1;
            } else {
                done = true;
            }
        }
    }
    chars_to_string(&out)
}

/// The contents joined with a separator, in first-seen order.
pub open spec fn join_with(parts: Seq<Seq<char>>, sep: Seq<char>, i: nat) -> Seq<char>
    decreases parts.len() - i,
    when i <= parts.len()
{
    if i >= parts.len() {
        Seq::empty()
    } else {
        parts[i as int] + (if i + 1 < parts.len() {
            sep + join_with(parts, sep, (i + 1) as nat)
        } else {
            Seq::empty()
        })
    }
}

pub open spec fn css_contents(files: Seq<OptimizedCssFile>) -> Seq<Seq<char>> {
    Seq::new(files.len(), |k: int| files[k].content@)
}

pub open spec fn js_contents(files: Seq<OptimizedJsFile>) -> Seq<Seq<char>> {
    Seq::new(files.len(), |k: int| files[k].content@)
}

pub open spec fn sum_sizes(orig: Seq<int>, i: nat) -> int
    decreases orig.len() - i,
    when i <= orig.len()
{
    if i >= orig.len() {
        0
    } else {
        orig[i as int] + sum_sizes(orig, (i + 1) as nat)
    }
}

fn join_css_contents(files: &Vec<OptimizedCssFile>, sep: &Vec<char>) -> (r: Vec<char>)
    ensures
        r@ == join_with(css_contents(files@), sep@, 0),
{
    let n = files.len();
    let mut out: Vec<char> = Vec::new();
    let mut k: usize = 0;
    proof {
        assert(out@ + join_with(css_contents(files@), sep@, 0) =~= join_with(
            css_contents(files@),
            sep@,
            0,
        ));
    }
    while k < n
        invariant
            k <= n,
            n == files@.len(),
            join_with(css_contents(files@), sep@, 0) == out@ + join_with(
                css_contents(files@),
                sep@,
                k as nat,
            ),
        decreases n - k,
    {
        push_all(&mut out, &str_to_chars(files[k].content.as_str()));
        if k + 1 < n {
            push_all(&mut out, sep);
        }
        proof {
            assert(out@ =~= out@);
        }
        k += 1;
    }
    proof {
        assert(out@ =~= join_with(css_contents(files@), sep@, 0));
    }
    out
}

fn join_js_contents(files: &Vec<OptimizedJsFile>, sep: &Vec<char>) -> (r: Vec<char>)
    ensures
        r@ == join_with(js_contents(files@), sep@, 0),
{
    let n = files.len();
    let mut out: Vec<char> = Vec::new();
    let mut k: usize = 0;
    proof {
        assert(out@ + join_with(js_contents(files@), sep@, 0) =~= join_with(
            js_contents(files@),
            sep@,
            0,
        ));
    }
    while k < n
        invariant
            k <= n,
            n == files@.len(),
            join_with(js_contents(files@), sep@, 0) == out@ + join_with(
                js_contents(files@),
                sep@,
                k as nat,
            ),
        decreases n - k,
    {
        push_all(&mut out, &str_to_chars(files[k].content.as_str()));
        if k + 1 < n {
            push_all(&mut out, sep);
        }
        proof {
            assert(out@ =~= out@);
        }
        k += 1;
    }
    proof {
        assert(out@ =~= join_with(js_contents(files@), sep@, 0));
    }
    out
}

pub open spec fn css_orig_sizes(files: Seq<OptimizedCssFile>) -> Seq<int> {
    Seq::new(files.len(), |k: int| files[k].original_size as int)
}

pub open spec fn css_opt_sizes(files: Seq<OptimizedCssFile>) -> Seq<int> {
    Seq::new(files.len(), |k: int| files[k].optimized_size as int)
}

pub open spec fn js_orig_sizes(files: Seq<OptimizedJsFile>) -> Seq<int> {
    Seq::new(files.len(), |k: int| files[k].original_size as int)
}

pub open spec fn js_opt_sizes(files: Seq<OptimizedJsFile>) -> Seq<int> {
    Seq::new(files.len(), |k: int| files[k].optimized_size as int)
}

/// What combining yields: CSS joined with newlines, JS joined with
/// `;` separators, the critical subset of the joined CSS, and the
/// byte savings per kind.
pub open spec fn combined_spec(
    css: Seq<OptimizedCssFile>,
    js: Seq<OptimizedJsFile>,
) -> (Option<Seq<char>>, Option<Seq<char>>, Option<Seq<char>>, int, int) {
    let all_css = join_with(css_contents(css), "\n"@, 0);
    let crit: Option<Seq<char>> = if all_css.len() > 0 {
        Some(critical_css_spec(all_css, 0, Seq::<char>::empty()))
    } else {
        None
    };
    let ccss: Option<Seq<char>> = if css.len() > 0 {
        Some(all_css)
    } else {
        None
    };
    let cjs: Option<Seq<char>> = if js.len() > 0 {
        Some(join_with(js_contents(js), ";\n"@, 0))
    } else {
        None
    };
    let css_sav = if sum_sizes(css_orig_sizes(css), 0) >= sum_sizes(css_opt_sizes(css), 0) {
        sum_sizes(css_orig_sizes(css), 0) - sum_sizes(css_opt_sizes(css), 0)
    } else {
        0
    };
    let js_sav = if sum_sizes(js_orig_sizes(js), 0) >= sum_sizes(js_opt_sizes(js), 0) {
        sum_sizes(js_orig_sizes(js), 0) - sum_sizes(js_opt_sizes(js), 0)
    } else {
        0
    };
    (crit, ccss, cjs, css_sav, js_sav)
}

/// Combine the successfully optimized assets: joined payloads in
/// first-seen order, the critical CSS subset, and the totals.
pub fn combine_resources(css_files: Vec<OptimizedCssFile>, js_files: Vec<OptimizedJsFile>) -> (r:
    OptimizedResources)
    ensures
        ({
            let sp = combined_spec(css_files@, js_files@);
            &&& r.css_files == css_files
            &&& r.js_files == js_files
            &&& (match (r.critical_css, sp.0) {
                (Some(a), Some(b)) => a@ == b,
                (None, None) => true,
                _ => false,
            })
            &&& (match (r.combined_css, sp.1) {
                (Some(a), Some(b)) => a@ == b,
                (None, None) => true,
                _ => false,
            })
            &&& (match (r.combined_js, sp.2) {
                (Some(a), Some(b)) => a@ == b,
                (None, None) => true,
                _ => false,
            })
            &&& r.combined_css_filename@ == "styles.min.css"@
            &&& r.combined_js_filename@ == "scripts.min.js"@
            &&& r.total_css_savings_bytes == sp.3
            &&& r.total_js_savings_bytes == sp.4
        }),
{
    proof {
        reveal_strlit("\n");
        reveal_strlit(";\n");
    }
    let all_css = join_css_contents(&css_files, &str_to_chars("\n"));
    let critical_css: Option<String> = if all_css.len() > 0 {
        let ac = chars_to_string(&all_css);
        Some(extract_critical_css(ac.as_str(), ""))
    } else {
        None
    };
    let combined_css: Option<String> = if css_files.len() > 0 {
        Some(chars_to_string(&all_css))
    } else {
        None
    };
    let combined_js: Option<String> = if js_files.len() > 0 {
        let cj = join_js_contents(&js_files, &str_to_chars(";\n"));
        Some(chars_to_string(&cj))
    } else {
        None
    };
    let mut css_orig: u128 = 0;
    let mut css_opt: u128 = 0;
    let mut k: usize = 0;
    let cn = css_files.len();
    while k < cn
        invariant
            k <= cn,
            cn == css_files@.len(),
            css_orig <= k * 0x10000000000000000,
            css_opt <= k * 0x10000000000000000,
            sum_sizes(css_orig_sizes(css_files@), 0) == css_orig + sum_sizes(
                css_orig_sizes(css_files@),
                k as nat,
            ),
            sum_sizes(css_opt_sizes(css_files@), 0) == css_opt + sum_sizes(
                css_opt_sizes(css_files@),
                k as nat,
            ),
        decreases cn - k,
    {
        css_orig = css_orig + (css_files[k].original_size as u128);
        css_opt = css_opt + (css_files[k].optimized_size as u128);
        k += 1;
    }
    let mut js_orig: u128 = 0;
    let mut js_opt: u128 = 0;
    let mut k2: usize = 0;
    let jn = js_files.len();
    while k2 < jn
        invariant
            k2 <= jn,
            jn == js_files@.len(),
            js_orig <= k2 * 0x10000000000000000,
            js_opt <= k2 * 0x10000000000000000,
            sum_sizes(js_orig_sizes(js_files@), 0) == js_orig + sum_sizes(
                js_orig_sizes(js_files@),
                k2 as nat,
            ),
            sum_sizes(js_opt_sizes(js_files@), 0) == js_opt + sum_sizes(
                js_opt_sizes(js_files@),
                k2 as nat,
            ),
        decreases jn - k2,
    {
        js_orig = js_orig + (js_files[k2].original_size as u128);
        js_opt = js_opt + (js_files[k2].optimized_size as u128);
        k2 += 1;
    }
    let css_sav: u128 = if css_orig >= css_opt {
        css_orig - css_opt
    } else {
        0
    };
    let js_sav: u128 = if js_orig >= js_opt {
        js_orig - js_opt
    } else {
        0
    };
    OptimizedResources {
        css_files,
        js_files,
        critical_css,
        combined_css,
        combined_js,
        combined_css_filename: String::from_str("styles.min.css"),
        combined_js_filename: String::from_str("scripts.min.js"),
        total_css_savings_bytes: css_sav,
        total_js_savings_bytes: js_sav,
    }
}

/// Index of the last exact occurrence of `pat` in `s`, or `-1`.
pub open spec fn rfind_sub(s: Seq<char>, pat: Seq<char>) -> int
    decreases s.len(),
{
    if pat.len() > s.len() {
        -1
    } else if matches_at_cs(s, s.len() - pat.len(), pat) {
        s.len() - pat.len()
    } else {
        rfind_sub(s.drop_last(), pat)
    }
}

pub proof fn lemma_rfind_sub_is(s: Seq<char>, pat: Seq<char>, j: int)
    requires
        pat.len() > 0,
        j == -1 || (0 <= j <= s.len() - pat.len() && matches_at_cs(s, j, pat)),
        forall|m: int| j < m <= s.len() - pat.len() ==> !matches_at_cs(s, m, pat),
    ensures
        rfind_sub(s, pat) == j,
    decreases s.len(),
{
    if pat.len() > s.len() {
        assert(j == -1);
    } else if matches_at_cs(s, s.len() - pat.len(), pat) {
        assert(j == s.len() - pat.len());
    } else {
        let sd = s.drop_last();
        assert forall|m: int| j < m <= sd.len() - pat.len() implies !matches_at_cs(sd, m, pat) by {
            if matches_at_cs(sd, m, pat) {
                assert(forall|y: int| 0 <= y < pat.len() ==> #[trigger] sd[m + y] == s[m + y]);
                assert(matches_at_cs(s, m, pat));
            }
        }
        if j >= 0 {
            assert(matches_at_cs(sd, j, pat)) by {
                assert(j + pat.len() <= sd.len());
                assert(forall|y: int| 0 <= y < pat.len() ==> #[trigger] sd[j + y] == s[j + y]);
            }
        }
        lemma_rfind_sub_is(sd, pat, j);
    }
}

/// The rightmost `pat` occurrence strictly before `limit`, by exact
/// match, as `rfind` over the prefix.
fn rfind_sub_before(s: &Vec<char>, pat: &Vec<char>, limit: usize) -> (r: Option<usize>)
    requires
        pat@.len() > 0,
        limit <= s@.len(),
    ensures
        match r {
            Some(k) => rfind_sub(s@.take(limit as int), pat@) == k && k + pat@.len() <= limit,
            None => rfind_sub(s@.take(limit as int), pat@) == -1,
        },
{
    let ghost pre = s@.take(limit as int);
    if limit < pat.len() {
        proof {
            lemma_rfind_sub_is(pre, pat@, -1);
        }
        return None;
    }
    let mut m: usize = limit - pat.len() + 1;
    while m > 0
        invariant
            m <= limit - pat@.len() + 1,
            limit <= s@.len(),
            pat@.len() > 0,
            pre == s@.take(limit as int),
            forall|x: int| m <= x <= limit - pat@.len() ==> !matches_at_cs(pre, x, pat@),
        decreases m,
    {
        m -= 1;
        if match_at_cs(s, m, pat) {
            proof {
                assert(matches_at_cs(pre, m as int, pat@)) by {
                    assert(forall|y: int| 0 <= y < pat@.len() ==> #[trigger] pre[m + y] == s@[m + y]);
                }
                lemma_rfind_sub_is(pre, pat@, m as int);
            }
            return Some(m);
        }
        proof {
            if matches_at_cs(pre, m as int, pat@) {
                assert(forall|y: int| 0 <= y < pat@.len() ==> #[trigger] pre[m + y] == s@[m + y]);
                assert(matches_at_cs(s@, m as int, pat@));
            }
        }
    }
    proof {
        lemma_rfind_sub_is(pre, pat@, -1);
    }
    None
}

/// One attribute-value search pattern tried by the tag locator: the
/// first exact occurrence in the lowered text, then the nearest tag
/// opener before it.
pub open spec fn try_tag_pattern(lh: Seq<char>, p: Seq<char>, tagpat: Seq<char>) -> Option<int> {
    let k = find_cs_from(lh, p, 0);
    if k < lh.len() {
        let r = rfind_sub(lh.take(k as int), tagpat);
        if r >= 0 {
            Some(r)
        } else {
            None
        }
    } else {
        None
    }
}

/// Where the `link` tag that references `url` opens: the `href`
/// value is located (double-quoted, single-quoted, then unquoted) and
/// the nearest `<link` before it is returned.
pub open spec fn link_tag_start_spec(s: Seq<char>, url: Seq<char>) -> Option<int> {
    let lh = lower_seq(s);
    let lu = lower_seq(url);
    let t1 = try_tag_pattern(lh, "href=\""@ + lu + "\""@, "<link"@);
    let t2 = try_tag_pattern(lh, "href='"@ + lu + "'"@, "<link"@);
    let t3 = try_tag_pattern(lh, "href="@ + lu, "<link"@);
    if t1 is Some {
        t1
    } else if t2 is Some {
        t2
    } else {
        t3
    }
}

/// Where the `script` tag that references `url` opens.
pub open spec fn script_tag_start_spec(s: Seq<char>, url: Seq<char>) -> Option<int> {
    let lh = lower_seq(s);
    let lu = lower_seq(url);
    let t1 = try_tag_pattern(lh, "src=\""@ + lu + "\""@, "<script"@);
    let t2 = try_tag_pattern(lh, "src='"@ + lu + "'"@, "<script"@);
    let t3 = try_tag_pattern(lh, "src="@ + lu, "<script"@);
    if t1 is Some {
        t1
    } else if t2 is Some {
        t2
    } else {
        t3
    }
}

fn try_tag_pattern_exec(lh: &Vec<char>, p: &Vec<char>, tagpat: &Vec<char>) -> (r: Option<usize>)
    requires
        p@.len() > 0,
        tagpat@.len() > 0,
    ensures
        match r {
            Some(k) => try_tag_pattern(lh@, p@, tagpat@) == Some(k as int) && k < lh@.len(),
            None => try_tag_pattern(lh@, p@, tagpat@) is None,
        },
{
    match crate::text::find_cs(lh, p) {
        Some(k) => {
            proof {
                lemma_find_cs_from_is(lh@, p@, 0, k as nat);
            }
            match rfind_sub_before(lh, tagpat, k) {
                Some(r) => Some(r),
                None => None,
            }
        },
        None => {
            proof {
                lemma_find_cs_from_is(lh@, p@, 0, lh@.len());
            }
            None
        },
    }
}

fn build_attr_pattern(prefix: &str, lu: &Vec<char>, suffix: &str) -> (r: Vec<char>)
    ensures
        r@ == prefix@ + lu@ + suffix@,
        r@.len() == prefix@.len() + lu@.len() + suffix@.len(),
{
    let mut p: Vec<char> = Vec::new();
    push_all(&mut p, &str_to_chars(prefix));
    push_all(&mut p, lu);
    push_all(&mut p, &str_to_chars(suffix));
    proof {
        assert(p@ =~= prefix@ + lu@ + suffix@);
    }
    p
}

/// Find where the `link` tag referencing `url` opens.
pub fn find_link_tag_start(html: &str, url: &str) -> (r: Option<usize>)
    ensures
        match r {
            Some(k) => link_tag_start_spec(html@, url@) == Some(k as int) && k < html@.len(),
            None => link_tag_start_spec(html@, url@) is None,
        },
{
    proof {
        reveal_strlit("href=\"");
        reveal_strlit("href='");
        reveal_strlit("href=");
        reveal_strlit("\"");
        reveal_strlit("'");
        reveal_strlit("");
        reveal_strlit("<link");
    }
    let v = str_to_chars(html);
    let lh = to_lower_vec(&v);
    let u = str_to_chars(url);
    let lu = to_lower_vec(&u);
    let tagpat = str_to_chars("<link");
    let p1 = build_attr_pattern("href=\"", &lu, "\"");
    let p2 = build_attr_pattern("href='", &lu, "'");
    let p3 = build_attr_pattern("href=", &lu, "");
    let ghost lhs = lh@;
    match try_tag_pattern_exec(&lh, &p1, &tagpat) {
        Some(k) => {
            proof {
                crate::scan::lemma_find_cs_from(lhs, p1@, 0);
            }
            return Some(k);
        },
        None => {},
    }
    match try_tag_pattern_exec(&lh, &p2, &tagpat) {
        Some(k) => {
            return Some(k);
        },
        None => {},
    }
    match try_tag_pattern_exec(&lh, &p3, &tagpat) {
        Some(k) => {
            return Some(k);
        },
        None => {},
    }
    None
}

/// Find where the `script` tag referencing `url` opens.
pub fn find_script_tag_start(html: &str, url: &str) -> (r: Option<usize>)
    ensures
        match r {
            Some(k) => script_tag_start_spec(html@, url@) == Some(k as int) && k < html@.len(),
            None => script_tag_start_spec(html@, url@) is None,
        },
{
    proof {
        reveal_strlit("src=\"");
        reveal_strlit("src='");
        reveal_strlit("src=");
        reveal_strlit("\"");
        reveal_strlit("'");
        reveal_strlit("");
        reveal_strlit("<script");
    }
    let v = str_to_chars(html);
    let lh = to_lower_vec(&v);
    let u = str_to_chars(url);
    let lu = to_lower_vec(&u);
    let tagpat = str_to_chars("<script");
    let p1 = build_attr_pattern("src=\"", &lu, "\"");
    let p2 = build_attr_pattern("src='", &lu, "'");
    let p3 = build_attr_pattern("src=", &lu, "");
    match try_tag_pattern_exec(&lh, &p1, &tagpat) {
        Some(k) => {
            return Some(k);
        },
        None => {},
    }
    match try_tag_pattern_exec(&lh, &p2, &tagpat) {
        Some(k) => {
            return Some(k);
        },
        None => {},
    }
    match try_tag_pattern_exec(&lh, &p3, &tagpat) {
        Some(k) => {
            return Some(k);
        },
        None => {},
    }
    None
}

pub open spec fn css_urls_of(files: Seq<OptimizedCssFile>) -> Seq<Seq<char>> {
    Seq::new(files.len(), |k: int| files[k].original_url@)
}

pub open spec fn js_urls_of(files: Seq<OptimizedJsFile>) -> Seq<Seq<char>> {
    Seq::new(files.len(), |k: int| files[k].original_url@)
}

/// The non-blocking combined stylesheet reference.
pub open spec fn combined_css_link() -> Seq<char> {
    "<link rel=\"stylesheet\" href=\"./styles.min.css\" id=\"htmlwp-combined-css\" media=\"print\" onload=\"this.media='all'\">"@
}

/// The combined script reference.
pub open spec fn combined_js_script() -> Seq<char> {
    "<script src=\"./scripts.min.js\" id=\"htmlwp-combined-js\"></script>"@
}

/// Rewrite the stylesheet references in first-seen order: the first
/// located reference becomes the combined link, every later one is
/// deleted, and references that cannot be located are left untouched.
pub open spec fn rewrite_css_refs(
    s: Seq<char>,
    urls: Seq<Seq<char>>,
    k: nat,
    added: bool,
) -> (Seq<char>, bool)
    decreases urls.len() - k,
    when k <= urls.len()
{
    if k >= urls.len() {
        (s, added)
    } else {
        match link_tag_start_spec(s, urls[k as int]) {
            Some(start) => {
                let g = find_if_from(s, start as nat, char_pred('>'));
                if g < s.len() {
                    if !added {
                        rewrite_css_refs(
                            s.take(start) + combined_css_link() + s.skip(g + 1 as int),
                            urls,
                            (k + 1) as nat,
                            true,
                        )
                    } else {
                        rewrite_css_refs(
                            s.take(start) + s.skip(g + 1 as int),
                            urls,
                            (k + 1) as nat,
                            added,
                        )
                    }
                } else {
                    rewrite_css_refs(s, urls, (k + 1) as nat, added)
                }
            },
            None => rewrite_css_refs(s, urls, (k + 1) as nat, added),
        }
    }
}

/// Rewrite the script references in first-seen order, handling both
/// explicit close tags and self-closing tags.
pub open spec fn rewrite_js_refs(
    s: Seq<char>,
    urls: Seq<Seq<char>>,
    k: nat,
    added: bool,
) -> (Seq<char>, bool)
    decreases urls.len() - k,
    when k <= urls.len()
{
    if k >= urls.len() {
        (s, added)
    } else {
        match script_tag_start_spec(s, urls[k as int]) {
            Some(start) => {
                let cp = find_cs_from(s, "</script>"@, start as nat);
                if cp < s.len() {
                    if !added {
                        rewrite_js_refs(
                            s.take(start) + combined_js_script() + s.skip(cp + 9 as int),
                            urls,
                            (k + 1) as nat,
                            true,
                        )
                    } else {
                        rewrite_js_refs(s.take(start) + s.skip(cp + 9 as int), urls, (k + 1) as nat, added)
                    }
                } else {
                    let sc = find_cs_from(s, "/>"@, start as nat);
                    if sc < s.len() {
                        if !added {
                            rewrite_js_refs(
                                s.take(start) + combined_js_script() + s.skip(sc + 2 as int),
                                urls,
                                (k + 1) as nat,
                                true,
                            )
                        } else {
                            rewrite_js_refs(
                                s.take(start) + s.skip(sc + 2 as int),
                                urls,
                                (k + 1) as nat,
                                added,
                            )
                        }
                    } else {
                        rewrite_js_refs(s, urls, (k + 1) as nat, added)
                    }
                }
            },
            None => rewrite_js_refs(s, urls, (k + 1) as nat, added),
        }
    }
}

/// The critical CSS style block.
pub open spec fn critical_style_block(c: Seq<char>) -> Seq<char> {
    "<style id=\"critical-css\">"@ + c + "</style>\n"@
}

/// The whole commit: replace located CSS references, then JS
/// references, then inline the critical CSS before `</head>`.
pub open spec fn rewrite_resources_spec(
    s: Seq<char>,
    css_on: bool,
    css_urls: Seq<Seq<char>>,
    js_on: bool,
    js_urls: Seq<Seq<char>>,
    crit: Option<Seq<char>>,
) -> Seq<char> {
    let s1 = if css_on {
        rewrite_css_refs(s, css_urls, 0, false).0
    } else {
        s
    };
    let s2 = if js_on {
        rewrite_js_refs(s1, js_urls, 0, false).0
    } else {
        s1
    };
    match crit {
        Some(c) => if c.len() > 0 && find_ci_from(s2, "</head>"@, 0) < s2.len() {
            insert_at(s2, find_ci_from(s2, "</head>"@, 0), critical_style_block(c))
        } else {
            s2
        },
        None => s2,
    }
}

/// Replace the document's external references with the combined
/// assets and inline the critical CSS.  Failed or skipped references
/// are left byte-identical.
#[verifier::rlimit(100)]
pub fn rewrite_html_with_optimized_resources(
    html: &mut String,
    resources: &OptimizedResources,
    _upload_base_url: &str,
)
    ensures
        final(html)@ == rewrite_resources_spec(
            old(html)@,
            resources.combined_css is Some && resources.css_files@.len() > 0,
            css_urls_of(resources.css_files@),
            resources.combined_js is Some && resources.js_files@.len() > 0,
            js_urls_of(resources.js_files@),
            match resources.critical_css {
                Some(c) => Some(c@),
                None => None,
            },
        ),
{
    proof {
        reveal_strlit("</script>");
        reveal_strlit("/>");
        reveal_strlit("</head>");
    }
    let css_on = resources.combined_css.is_some() && resources.css_files.len() > 0;
    let ghost curls = css_urls_of(resources.css_files@);
    if css_on {
        let mut added: bool = false;
        let mut k: usize = 0;
        let n = resources.css_files.len();
        while k < n
            invariant
                k <= n,
                n == resources.css_files@.len(),
                curls == css_urls_of(resources.css_files@),
                rewrite_css_refs(old(html)@, curls, 0, false) == rewrite_css_refs(
                    html@,
                    curls,
                    k as nat,
                    added,
                ),
            decreases n - k,
        {
            let url = &resources.css_files[k].original_url;
            match find_link_tag_start(html.as_str(), url.as_str()) {
                Some(start) => {
                    let v = str_to_chars(html.as_str());
                    let g = crate::scan::find_char_from(&v, start, '>');
                    let ghost pre_added = added;
                    if g < v.len() {
                        let mut out: Vec<char> = Vec::new();
                        push_range(&mut out, &v, 0, start);
                        if !added {
                            push_all(&mut out, &str_to_chars(
                                "<link rel=\"stylesheet\" href=\"./styles.min.css\" id=\"htmlwp-combined-css\" media=\"print\" onload=\"this.media='all'\">",
                            ));
                            added = true;
                        }
                        let vn = v.len();
                        push_range(&mut out, &v, g + 1, vn);
                        proof {
                            if !pre_added {
                                assert(out@ =~= v@.take(start as int) + combined_css_link()
                                    + v@.skip(g + 1 as int));
                            } else {
                                assert(out@ =~= v@.take(start as int) + v@.skip(g + 1 as int));
                            }
                        }
                        *html = chars_to_string(&out);
                    }
                },
                None => {},
            }
            k += 1;
        }
        proof {
            assert(rewrite_css_refs(html@, curls, n as nat, added) == (html@, added));
        }
    }
    let js_on = resources.combined_js.is_some() && resources.js_files.len() > 0;
    let ghost jurls = js_urls_of(resources.js_files@);
    let ghost s1 = html@;
    if js_on {
        let mut added: bool = false;
        let mut k: usize = 0;
        let n = resources.js_files.len();
        while k < n
            invariant
                k <= n,
                n == resources.js_files@.len(),
                jurls == js_urls_of(resources.js_files@),
                rewrite_js_refs(s1, jurls, 0, false) == rewrite_js_refs(
                    html@,
                    jurls,
                    k as nat,
                    added,
                ),
            decreases n - k,
        {
            proof {
                reveal_strlit("</script>");
                reveal_strlit("/>");
            }
            let url = &resources.js_files[k].original_url;
            match find_script_tag_start(html.as_str(), url.as_str()) {
                Some(start) => {
                    let v = str_to_chars(html.as_str());
                    let close_pat = str_to_chars("</script>");
                    let mut rel_end: usize = 0;
                    let mut have_end: bool = false;
                    // exact, case-sensitive search: a differently-cased
                    // close tag is treated as unterminated and the
                    // reference left untouched
                    let mut m: usize = start;
                    let vn = v.len();
                    while m < vn && !(have_end)
                        invariant
                            start <= m <= vn,
                            vn == v@.len(),
                            close_pat@ == "</script>"@,
                            close_pat@.len() == 9,
                            !have_end ==> forall|x: int|
                                start <= x < m ==> !matches_at_cs(v@, x, "</script>"@),
                            have_end ==> rel_end == find_cs_from(v@, "</script>"@, start as nat)
                                && rel_end < vn && matches_at_cs(v@, rel_end as int, "</script>"@),
                        decreases vn - m + (if have_end { 0int } else { 1int }),
                    {
                        if match_at_cs(&v, m, &close_pat) {
                            proof {
                                lemma_find_cs_from_is(v@, "</script>"@, start as nat, m as nat);
                            }
                            rel_end = m;
                            have_end = true;
                        } else {
                            m += 1;
                        }
                    }
                    proof {
                        if !have_end {
                            assert forall|x: int| start <= x implies !matches_at_cs(
                                v@,
                                x,
                                "</script>"@,
                            ) by {}
                            lemma_find_cs_from_is(v@, "</script>"@, start as nat, vn as nat);
                        }
                    }
                    if have_end {
                        let ghost pre_added = added;
                        let mut out: Vec<char> = Vec::new();
                        push_range(&mut out, &v, 0, start);
                        if !added {
                            push_all(&mut out, &str_to_chars(
                                "<script src=\"./scripts.min.js\" id=\"htmlwp-combined-js\"></script>",
                            ));
                            added = true;
                        }
                        push_range(&mut out, &v, rel_end + 9, vn);
                        proof {
                            if !pre_added {
                                assert(out@ =~= v@.take(start as int) + combined_js_script()
                                    + v@.skip(rel_end + 9 as int));
                            } else {
                                assert(out@ =~= v@.take(start as int) + v@.skip(
                                    rel_end + 9 as int,
                                ));
                            }
                        }
                        *html = chars_to_string(&out);
                    } else {
                        let sc_pat = str_to_chars("/>");
                        let mut m2: usize = start;
                        let mut sc_end: usize = 0;
                        let mut have_sc: bool = false;
                        while m2 < vn && !(have_sc)
                            invariant
                                start <= m2 <= vn,
                                vn == v@.len(),
                                sc_pat@ == "/>"@,
                                sc_pat@.len() == 2,
                                !have_sc ==> forall|x: int|
                                    start <= x < m2 ==> !matches_at_cs(v@, x, "/>"@),
                                have_sc ==> sc_end == find_cs_from(v@, "/>"@, start as nat)
                                    && sc_end < vn && matches_at_cs(v@, sc_end as int, "/>"@),
                            decreases vn - m2 + (if have_sc { 0int } else { 1int }),
                        {
                            if match_at_cs(&v, m2, &sc_pat) {
                                proof {
                                    lemma_find_cs_from_is(v@, "/>"@, start as nat, m2 as nat);
                                }
                                sc_end = m2;
                                have_sc = true;
                            } else {
                                m2 += 1;
                            }
                        }
                        proof {
                            if !have_sc {
                                assert forall|x: int| start <= x implies !matches_at_cs(
                                    v@,
                                    x,
                                    "/>"@,
                                ) by {}
                                lemma_find_cs_from_is(v@, "/>"@, start as nat, vn as nat);
                            }
                        }
                        if have_sc {
                            let ghost pre_added = added;
                            let mut out: Vec<char> = Vec::new();
                            push_range(&mut out, &v, 0, start);
                            if !added {
                                push_all(&mut out, &str_to_chars(
                                    "<script src=\"./scripts.min.js\" id=\"htmlwp-combined-js\"></script>",
                                ));
                                added = true;
                            }
                            push_range(&mut out, &v, sc_end + 2, vn);
                            proof {
                                if !pre_added {
                                    assert(out@ =~= v@.take(start as int) + combined_js_script()
                                        + v@.skip(sc_end + 2 as int));
                                } else {
                                    assert(out@ =~= v@.take(start as int) + v@.skip(
                                        sc_end + 2 as int,
                                    ));
                                }
                            }
                            *html = chars_to_string(&out);
                        }
                    }
                },
                None => {},
            }
            k += 1;
        }
        proof {
            assert(rewrite_js_refs(html@, jurls, n as nat, added) == (html@, added));
        }
    }
    match &resources.critical_css {
        Some(c) => {
            if c.as_str().unicode_len() > 0 {
                let v = str_to_chars(html.as_str());
                let hp = crate::scan::find_ci_at(&v, &str_to_chars("</head>"), 0);
                if hp < v.len() {
                    let mut tag: Vec<char> = Vec::new();
                    push_all(&mut tag, &str_to_chars("<style id=\"critical-css\">"));
                    push_all(&mut tag, &str_to_chars(c.as_str()));
                    push_all(&mut tag, &str_to_chars("</style>\n"));
                    proof {
                        assert(tag@ =~= critical_style_block(c@));
                    }
                    let out = insert_chars(&v, hp, &tag);
                    *html = chars_to_string(&out);
                }
            }
        },
        None => {},
    }
}
} // verus!
