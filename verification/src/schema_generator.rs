//! Structured-data templating: JSON-LD text describing the page or
//! article, injected into the document head.

use vstd::prelude::*;

use crate::resource_optimizer::join_with;
use crate::scan::{
    attr_value, attr_value_exec, char_pred, find_char_from, find_ci_at, find_ci_from,
    find_if_from, insert_at, insert_chars, lemma_find_gt_from, lemma_find_gt_from_is,
    lemma_find_if_from, lemma_find_if_from_is, tag_end,
};
use crate::seo_optimizer::{first_img_src, meta_desc_content, origin_of, title_text};
use crate::text::{
    chars_to_string, contains_cs, dec_digits, digit_char, has_cs, is_space_char, lower_seq,
    match_at_cs, matches_at_ci, matches_at_cs, push_all, push_range, str_to_chars, to_lower_vec,
    trim_chars, trim_spec, usize_to_chars, views_of_strings,
};

verus! {

/// A JSON string escape for one character.
pub open spec fn esc_char(c: char) -> Seq<char> {
    if c == '"' {
        seq!['\\', '"']
    } else if c == '\\' {
        seq!['\\', '\\']
    } else if c == '\n' {
        seq!['\\', 'n']
    } else if c == '\r' {
        seq!['\\', 'r']
    } else if c == '\t' {
        seq!['\\', 't']
    } else if c == '\u{8}' {
        seq!['\\', 'b']
    } else if c == '\u{c}' {
        seq!['\\', 'f']
    } else if (c as u32) < 32 {
        seq!['\\', 'u', '0', '0', hex_of_nibble(((c as u32) / 16) as nat), hex_of_nibble(
            ((c as u32) % 16) as nat,
        )]
    } else {
        seq![c]
    }
}

pub open spec fn hex_of_nibble(d: nat) -> char {
    if d < 10 {
        digit_char(d)
    } else if d == 10 {
        'a'
    } else if d == 11 {
        'b'
    } else if d == 12 {
        'c'
    } else if d == 13 {
        'd'
    } else if d == 14 {
        'e'
    } else {
        'f'
    }
}

/// A text escaped for inclusion in a JSON string literal.
pub open spec fn json_escape(s: Seq<char>) -> Seq<char>
    decreases s.len(),
{
    if s.len() == 0 {
        Seq::empty()
    } else {
        esc_char(s[0]) + json_escape(s.drop_first())
    }
}

fn esc_char_exec(c: char) -> (r: Vec<char>)
    ensures
        r@ == esc_char(c),
{
    let mut v: Vec<char> = Vec::new();
    if c == '"' {
        v.push('\\');
        v.push('"');
    } else if c == '\\' {
        v.push('\\');
        v.push('\\');
    } else if c == '\n' {
        v.push('\\');
        v.push('n');
    } else if c == '\r' {
        v.push('\\');
        v.push('r');
    } else if c == '\t' {
        v.push('\\');
        v.push('t');
    } else if c == '\u{8}' {
        v.push('\\');
        v.push('b');
    } else if c == '\u{c}' {
        v.push('\\');
        v.push('f');
    } else if (c as u32) < 32 {
        v.push('\\');
        v.push('u');
        v.push('0');
        v.push('0');
        let hi = ((c as u32) / 16) as u8;
        let lo = ((c as u32) % 16) as u8;
        let hc: char = if hi < 10 {
            (('0' as u8) + hi) as char
        } else {
            (('a' as u8) + (hi - 10)) as char
        };
        let lc: char = if lo < 10 {
            (('0' as u8) + lo) as char
        } else {
            (('a' as u8) + (lo - 10)) as char
        };
        v.push(hc);
        v.push(lc);
        proof {
            assert(hc == hex_of_nibble(((c as u32) / 16) as nat));
            assert(lc == hex_of_nibble(((c as u32) % 16) as nat));
            assert(v@ =~= esc_char(c));
        }
    } else {
        v.push(c);
    }
    proof {
        assert(v@ =~= esc_char(c));
    }
    v
}

fn json_escape_exec(s: &Vec<char>) -> (r: Vec<char>)
    ensures
        r@ == json_escape(s@),
{
    let n = s.len();
    let mut out: Vec<char> = Vec::new();
    let mut i: usize = 0;
    while i < n
        invariant
            i <= n,
            n == s@.len(),
            out@ == json_escape(s@.take(i as int)),
        decreases n - i,
    {
        let e = esc_char_exec(s[i]);
        push_all(&mut out, &e);
        proof {
            crate::schema_generator::lemma_json_escape_snoc(s@, i as int);
        }
        i += 1;
    }
    proof {
        assert(s@.take(n as int) =~= s@);
    }
    out
}

pub proof fn lemma_json_escape_snoc(s: Seq<char>, i: int)
    requires
        0 <= i < s.len(),
    ensures
        json_escape(s.take(i + 1)) == json_escape(s.take(i)) + esc_char(s[i]),
    decreases i,
{
    if i == 0 {
        assert(s.take(1).drop_first() =~= s.take(0));
        assert(json_escape(s.take(0)) =~= Seq::<char>::empty());
        assert(s.take(1)[0] == s[0]);
        assert(json_escape(s.take(1)) =~= esc_char(s[0]));
        assert(json_escape(s.take(0)) + esc_char(s[0]) =~= esc_char(s[0]));
    } else {
        lemma_json_escape_snoc(s.drop_first(), i - 1);
        assert(s.take(i + 1).drop_first() =~= s.drop_first().take(i));
        assert(s.take(i).drop_first() =~= s.drop_first().take(i - 1));
        assert(s.take(i + 1)[0] == s[0]);
        assert(s.take(i)[0] == s[0]);
        assert(s.drop_first()[i - 1] == s[i]);
        assert(json_escape(s.take(i + 1)) =~= esc_char(s[0]) + json_escape(s.drop_first().take(i)));
        assert(json_escape(s.take(i)) =~= esc_char(s[0]) + json_escape(
            s.drop_first().take(i - 1),
        ));
        assert(json_escape(s.take(i)) + esc_char(s[i]) =~= esc_char(s[0]) + (json_escape(
            s.drop_first().take(i - 1),
        ) + esc_char(s.drop_first()[i - 1])));
    }
}

/// One quoted, escaped JSON string field with a leading key.
pub open spec fn json_field(key: Seq<char>, val: Seq<char>) -> Seq<char> {
    seq!['"'] + key + seq!['"', ':', '"'] + json_escape(val) + seq!['"']
}

fn json_field_exec(key: &str, val: &Vec<char>) -> (r: Vec<char>)
    ensures
        r@ == json_field(key@, val@),
{
    let mut out: Vec<char> = Vec::new();
    out.push('"');
    push_all(&mut out, &str_to_chars(key));
    out.push('"');
    out.push(':');
    out.push('"');
    let e = json_escape_exec(val);
    push_all(&mut out, &e);
    out.push('"');
    proof {
        assert(out@ =~= json_field(key@, val@));
    }
    out
}

/// The JSON-LD description of a plain web page.
pub open spec fn webpage_schema_spec(title: Seq<char>, desc: Seq<char>, url: Seq<char>) -> Seq<
    char,
> {
    "{\"@context\":\"https://schema.org\",\"@type\":\"WebPage\","@ + json_field("name"@, title)
        + seq![','] + json_field("description"@, desc) + seq![','] + json_field("url"@, url)
        + seq!['}']
}

/// Render the page description.
pub fn generate_webpage_schema(title: &str, description: &str, url: &str) -> (r: String)
    ensures
        r@ == webpage_schema_spec(title@, description@, url@),
{
    let mut out: Vec<char> = Vec::new();
    push_all(&mut out, &str_to_chars("{\"@context\":\"https://schema.org\",\"@type\":\"WebPage\","));
    let f1 = json_field_exec("name", &str_to_chars(title));
    push_all(&mut out, &f1);
    out.push(',');
    let f2 = json_field_exec("description", &str_to_chars(description));
    push_all(&mut out, &f2);
    out.push(',');
    let f3 = json_field_exec("url", &str_to_chars(url));
    push_all(&mut out, &f3);
    out.push('}');
    proof {
        assert(out@ =~= webpage_schema_spec(title@, description@, url@));
    }
    chars_to_string(&out)
}

/// The JSON-LD description of an article, with fixed organization
/// entries for its author and publisher.
pub open spec fn article_schema_spec(
    title: Seq<char>,
    desc: Seq<char>,
    url: Seq<char>,
    image: Seq<char>,
) -> Seq<char> {
    "{\"@context\":\"https://schema.org\",\"@type\":\"Article\","@ + json_field(
        "headline"@,
        title,
    ) + seq![','] + json_field("description"@, desc) + seq![','] + json_field("url"@, url)
        + seq![','] + json_field("image"@, image) + seq![',']
        + "\"author\":{\"@type\":\"Organization\",\"name\":\"Site Author\"},\"publisher\":{\"@type\":\"Organization\",\"name\":\"Site Publisher\"}}"@
}

/// Render the article description.
pub fn generate_article_schema(title: &str, description: &str, url: &str, image: &str) -> (r:
    String)
    ensures
        r@ == article_schema_spec(title@, description@, url@, image@),
{
    let mut out: Vec<char> = Vec::new();
    push_all(&mut out, &str_to_chars("{\"@context\":\"https://schema.org\",\"@type\":\"Article\","));
    let f1 = json_field_exec("headline", &str_to_chars(title));
    push_all(&mut out, &f1);
    out.push(',');
    let f2 = json_field_exec("description", &str_to_chars(description));
    push_all(&mut out, &f2);
    out.push(',');
    let f3 = json_field_exec("url", &str_to_chars(url));
    push_all(&mut out, &f3);
    out.push(',');
    let f4 = json_field_exec("image", &str_to_chars(image));
    push_all(&mut out, &f4);
    out.push(',');
    push_all(
        &mut out,
        &str_to_chars(
            "\"author\":{\"@type\":\"Organization\",\"name\":\"Site Author\"},\"publisher\":{\"@type\":\"Organization\",\"name\":\"Site Publisher\"}}",
        ),
    );
    proof {
        assert(out@ =~= article_schema_spec(title@, description@, url@, image@));
    }
    chars_to_string(&out)
}

/// The page kind, from coarse markers in the lowered text.
pub open spec fn page_type_spec(s: Seq<char>) -> Seq<char> {
    let lo = lower_seq(s);
    if contains_cs(lo, "woocommerce"@) && contains_cs(lo, "product"@) {
        "product"@
    } else if contains_cs(lo, "hentry"@) || contains_cs(lo, "post-"@) || contains_cs(
        lo,
        "article"@,
    ) {
        "article"@
    } else {
        "page"@
    }
}

/// Detect whether the page reads as a product, an article or a plain
/// page.
pub fn detect_page_type(html: &str) -> (r: String)
    ensures
        r@ == page_type_spec(html@),
{
    proof {
        reveal_strlit("woocommerce");
        reveal_strlit("product");
        reveal_strlit("hentry");
        reveal_strlit("post-");
        reveal_strlit("article");
    }
    let v = str_to_chars(html);
    let lo = to_lower_vec(&v);
    if has_cs(&lo, &str_to_chars("woocommerce")) && has_cs(&lo, &str_to_chars("product")) {
        return String::from_str("product");
    }
    if has_cs(&lo, &str_to_chars("hentry")) || has_cs(&lo, &str_to_chars("post-")) || has_cs(
        &lo,
        &str_to_chars("article"),
    ) {
        return String::from_str("article");
    }
    String::from_str("page")
}

/// The absolute URL of the first image: kept as-is when absolute,
/// prefixed with the site origin otherwise; empty when the page has
/// no image.
pub open spec fn first_image_spec(s: Seq<char>, base_url: Seq<char>) -> Seq<char> {
    match first_img_src(s, 0) {
        Some(src) => if matches_at_cs(src, 0, "http"@) {
            src
        } else {
            origin_of(base_url) + src
        },
        None => Seq::empty(),
    }
}

/// Schema.org result.
pub struct SchemaResult {
    pub schemas_added: Vec<String>,
    pub json_ld: String,
}

/// The description text for structured data: the page's meta
/// description, or nothing.
pub open spec fn desc_or_empty(s: Seq<char>) -> Seq<char> {
    match meta_desc_content(s, 0) {
        Some(d) => d,
        None => Seq::empty(),
    }
}

/// The single JSON-LD item of a page: an article body for article
/// pages, a plain page body otherwise (product markup is left to the
/// store's own templates).
pub open spec fn schema_items_spec(s: Seq<char>, url: Seq<char>) -> (Seq<char>, Seq<Seq<char>>) {
    let pt = page_type_spec(s);
    if pt == "article"@ {
        (
            article_schema_spec(title_text(s), desc_or_empty(s), url, first_image_spec(s, url)),
            seq!["Article"@],
        )
    } else {
        (webpage_schema_spec(title_text(s), desc_or_empty(s), url), seq!["WebPage"@])
    }
}

/// Generate the structured data for a page.
pub fn generate_schema(html: &str, url: &str, page_type: &str) -> (r: SchemaResult)
    ensures
        page_type@ == "article"@ || page_type@ == "post"@ ==> r.json_ld@ == article_schema_spec(
            title_text(html@),
            desc_or_empty(html@),
            url@,
            first_image_spec(html@, url@),
        ) && views_of_strings(r.schemas_added@) == seq!["Article"@],
        page_type@ != "article"@ && page_type@ != "post"@ ==> r.json_ld@ == webpage_schema_spec(
            title_text(html@),
            desc_or_empty(html@),
            url@,
        ) && views_of_strings(r.schemas_added@) == seq!["WebPage"@],
{
    proof {
        reveal_strlit("http");
    }
    let v = str_to_chars(html);
    let title_v = crate::seo_optimizer::title_text_pub(&v);
    let title = chars_to_string(&title_v);
    let desc: String = match crate::seo_optimizer::meta_desc_content_pub(&v) {
        Some(d) => chars_to_string(&d),
        None => String::new(),
    };
    let u = str_to_chars(url);
    let image: String = match crate::seo_optimizer::first_img_src_pub(&v) {
        Some(src) => {
            if match_at_cs(&src, 0, &str_to_chars("http")) {
                chars_to_string(&src)
            } else {
                let mut o = crate::seo_optimizer::origin_pub(&u);
                push_all(&mut o, &src);
                chars_to_string(&o)
            }
        },
        None => String::new(),
    };
    let mut schemas: Vec<String> = Vec::new();
    let is_article = crate::text::str_eq_str(page_type, "article") || crate::text::str_eq_str(
        page_type,
        "post",
    );
    proof {
        reveal_strlit("article");
        reveal_strlit("post");
    }
    if is_article {
        let json_ld = generate_article_schema(
            title.as_str(),
            desc.as_str(),
            url,
            image.as_str(),
        );
        schemas.push(String::from_str("Article"));
        proof {
            assert(views_of_strings(schemas@) =~= seq!["Article"@]);
        }
        SchemaResult { schemas_added: schemas, json_ld }
    } else {
        let json_ld = generate_webpage_schema(title.as_str(), desc.as_str(), url);
        schemas.push(String::from_str("WebPage"));
        proof {
            assert(views_of_strings(schemas@) =~= seq!["WebPage"@]);
        }
        SchemaResult { schemas_added: schemas, json_ld }
    }
}

/// The injected script block.
pub open spec fn schema_script(json: Seq<char>) -> Seq<char> {
    "<script type=\"application/ld+json\">\n"@ + json + "\n</script>\n"@
}

/// The document after schema injection: one JSON-LD script before
/// `</head>`, unless structured data is already present.
pub open spec fn inject_schema_spec(s: Seq<char>, url: Seq<char>) -> (Seq<char>, nat) {
    if contains_cs(s, "application/ld+json"@) {
        (s, 0nat)
    } else {
        let items = schema_items_spec(s, url);
        if find_ci_from(s, "</head>"@, 0) < s.len() {
            (
                insert_at(s, find_ci_from(s, "</head>"@, 0), schema_script(items.0)),
                items.1.len(),
            )
        } else {
            (s, items.1.len())
        }
    }
}

/// Add structured data to a page that has none.  The count of
/// descriptions generated is returned even when the document has no
/// head to hold them.
pub fn inject_schema(html: &mut String, url: &str) -> (count: usize)
    ensures
        final(html)@ == inject_schema_spec(old(html)@, url@).0,
        count == inject_schema_spec(old(html)@, url@).1,
{
    proof {
        reveal_strlit("application/ld+json");
        reveal_strlit("</head>");
        reveal_strlit("article");
        reveal_strlit("post");
        reveal_strlit("page");
        reveal_strlit("product");
    }
    let v = str_to_chars(html.as_str());
    if has_cs(&v, &str_to_chars("application/ld+json")) {
        return 0;
    }
    let page_type = detect_page_type(html.as_str());
    let result = generate_schema(html.as_str(), url, page_type.as_str());
    proof {
        if page_type_spec(v@) == "article"@ {
            assert(page_type@ == "article"@);
        } else {
            assert(page_type@ != "article"@ && page_type@ != "post"@) by {
                reveal_strlit("product");
                reveal_strlit("page");
                reveal_strlit("article");
                reveal_strlit("post");
                assert("page"@.len() == 4 && "post"@.len() == 4);
                assert("page"@[1] == 'a' && "post"@[1] == 'o');
                assert("product"@.len() == 7 && "article"@.len() == 7);
                assert("product"@[0] == 'p' && "article"@[0] == 'a');
                assert("product"@[1] == 'r' && "post"@[1] == 'o');
                assert("page"@[0] == 'p' && "article"@[0] == 'a');
            }
        }
    }
    let hp = find_ci_at(&v, &str_to_chars("</head>"), 0);
    if hp < v.len() {
        let mut script: Vec<char> = Vec::new();
        push_all(&mut script, &str_to_chars("<script type=\"application/ld+json\">\n"));
        push_all(&mut script, &str_to_chars(result.json_ld.as_str()));
        push_all(&mut script, &str_to_chars("\n</script>\n"));
        proof {
            assert(script@ =~= schema_script(result.json_ld@));
        }
        let out = insert_chars(&v, hp, &script);
        *html = chars_to_string(&out);
    }
    result.schemas_added.len()
}

} // verus!
