use htmlwp::config::Config;
use htmlwp::css_optimizer::CssOptimizer;
use htmlwp::error::AppError;
use htmlwp::handlers::{authorize, optimize_bulk_pages, OptimizeOptions, OptimizeRequest};
use htmlwp::image_optimizer::{generate_cdn_url, CdnConfig};
use htmlwp::optimizer::{
    add_lazy_loading, add_preconnect_hints, count_images_without_dimensions, defer_scripts,
    minify_html, optimize_and_treeshake_css, optimize_html,
};
use htmlwp::resource_optimizer::{
    extract_attribute, extract_critical_css, generate_filename, prepare_css_asset,
    prepare_js_asset, resolve_resource_url, should_skip_external,
};
use htmlwp::schema_generator::inject_schema;
use htmlwp::seo_optimizer::{
    add_canonical_url, calculate_seo_score, ensure_meta_description, fix_external_links,
    MetaResult, SeoOptimizer,
};
use htmlwp::resource_optimizer::basic_js_minify;
use htmlwp::webp_converter::package_converted_image;

fn shaker_for(html: &str) -> CssOptimizer {
    let mut opt = CssOptimizer::new();
    opt.extract_used_selectors(html);
    opt
}

// Minifying already-minified CSS produces no further size change.
#[test]
fn minify_is_idempotent_on_rules() {
    let opt = shaker_for(r#"<div class="hero"></div>"#);
    let css = ".hero {  color :  red ; }  .hero p {margin:0}";
    let once = opt.remove_unused_css(css).unwrap();
    let twice = opt.remove_unused_css(&once).unwrap();
    assert_eq!(once, twice);
    assert_eq!(once.len(), twice.len());
}

// Tree-shaking keeps what the document uses and drops the rest.
#[test]
fn tree_shaking_preserves_usage() {
    let opt = shaker_for(r#"<div class="hero">x</div>"#);
    let out = opt.remove_unused_css(".hero{color:red}.unused{color:blue}").unwrap();
    assert!(out.contains(".hero{color:red"));
    assert!(!out.contains(".unused"));
}

// At-rules, pseudo-class rules and whitelisted selectors survive
// tree-shaking regardless of usage.
#[test]
fn always_kept_categories_survive() {
    let opt = shaker_for("<p>nothing else</p>");
    let media = opt.remove_unused_css("@media screen{.gone{color:red}}").unwrap();
    assert!(media.contains("@media screen{.gone{color:red}}"));
    let hover = opt.remove_unused_css(".gone:hover{color:red}").unwrap();
    assert!(hover.contains(":hover"));
    let wp = opt.remove_unused_css(".wp-block{color:red}").unwrap();
    assert!(wp.contains(".wp-block"));
    let dropped = opt.remove_unused_css(".gone{color:red}").unwrap();
    assert!(!dropped.contains(".gone"));
}

// An image with a loading attribute is untouched; one without gets
// loading="lazy".
#[test]
fn lazy_load_is_idempotent() {
    let mut eager = r#"<img loading="eager">"#.to_string();
    let count = add_lazy_loading(&mut eager);
    assert_eq!(count, 0);
    assert_eq!(eager, r#"<img loading="eager">"#);

    let mut plain = r#"<img src="a.jpg">"#.to_string();
    let count = add_lazy_loading(&mut plain);
    assert_eq!(count, 1);
    assert_eq!(plain, r#"<img loading="lazy" src="a.jpg">"#);

    let count = add_lazy_loading(&mut plain);
    assert_eq!(count, 0);
    assert_eq!(plain, r#"<img loading="lazy" src="a.jpg">"#);
}

// Inline scripts are untouched; external scripts get defer.
#[test]
fn script_deferral_scope() {
    let mut inline = "<script>inline</script>".to_string();
    let count = defer_scripts(&mut inline);
    assert_eq!(count, 0);
    assert_eq!(inline, "<script>inline</script>");

    let mut external = r#"<script src="a.js"></script>"#.to_string();
    let count = defer_scripts(&mut external);
    assert_eq!(count, 1);
    assert_eq!(external, r#"<script defer src="a.js"></script>"#);
}

// The same URL yields the same derived filename across independent
// runs.
#[test]
fn filename_is_deterministic() {
    let a = generate_filename("https://example.com/app.css", "css");
    let b = generate_filename("https://example.com/app.css", "css");
    assert_eq!(a, b);
    assert!(a.ends_with(".css"));
}

// One empty item in a bulk request fails alone with zero sizes; the
// other items succeed with nonzero sizes.
#[test]
fn bulk_failure_is_isolated() {
    let options = OptimizeOptions::default();
    let pages = vec![
        OptimizeRequest {
            html: "<html><head></head><body>one</body></html>".to_string(),
            url: "http://a".to_string(),
            options,
        },
        OptimizeRequest { html: "".to_string(), url: "http://b".to_string(), options },
        OptimizeRequest {
            html: "<html><head></head><body>three</body></html>".to_string(),
            url: "http://c".to_string(),
            options,
        },
    ];
    let r = optimize_bulk_pages(&pages);
    assert_eq!(r.results.len(), 3);
    assert!(r.results[0].success);
    assert!(r.results[0].original_size > 0);
    assert!(r.results[0].optimized_size > 0);
    assert!(!r.results[1].success);
    assert_eq!(r.results[1].original_size, 0);
    assert_eq!(r.results[1].optimized_size, 0);
    assert!(r.results[2].success);
    assert!(r.results[2].original_size > 0);
    assert!(r.results[2].optimized_size > 0);
}

// reduction_percent (in tenths) matches round((1 - opt/orig)*100, 1).
#[test]
fn size_accounting_matches_formula() {
    let options = OptimizeOptions::default();
    let html = "<html><head><!-- note --></head><body>  padded   text  </body></html>";
    let r = optimize_html(html, "http://localhost", &options).unwrap();
    let expected =
        ((1.0 - (r.optimized_size as f64) / (r.original_size as f64)) * 1000.0).round() as i128;
    assert_eq!(r.reduction_percent_tenths, expected);
}

#[test]
fn empty_html_is_a_client_fault() {
    let options = OptimizeOptions::default();
    let r = optimize_html("", "http://localhost", &options);
    assert!(matches!(r, Err(AppError::BadRequest(_))));
}

#[test]
fn authorization_outcomes() {
    let no_key: Option<String> = None;
    assert!(matches!(authorize(&no_key, "Bearer anything"), Err(AppError::Internal(_))));
    let key = Some("SECRET-REDACTED".to_string());
    assert!(matches!(authorize(&key, "Bearer wrong"), Err(AppError::Unauthorized)));
    assert!(authorize(&key, "Bearer SECRET-REDACTED").is_ok());
}

#[test]
fn minify_html_strips_comments_and_whitespace() {
    let out = minify_html("<p>  a   b  </p><!-- remove me --><pre>  keep   this </pre>");
    assert!(!out.contains("remove me"));
    assert!(out.contains("<p> a b </p>"));
    assert!(out.contains("<pre>  keep   this </pre>"));
}

#[test]
fn preconnect_hints_added_after_head() {
    let mut html =
        "<html><head></head><body><script src=\"https://www.googletagmanager.com/x.js\"></script></body></html>"
            .to_string();
    let count = add_preconnect_hints(&mut html);
    assert_eq!(count, 1);
    assert!(html.contains("<head><link rel=\"preconnect\" href=\"https://www.googletagmanager.com\" crossorigin>"));
}

#[test]
fn critical_css_keeps_fold_markers() {
    let out = extract_critical_css("body{color:red}.widget{color:blue}", "");
    assert!(out.contains("body{color:red}"));
    assert!(!out.contains(".widget"));
}

#[test]
fn external_cdn_hosts_are_skipped() {
    assert!(should_skip_external("https://fonts.googleapis.com/css?family=X"));
    assert!(!should_skip_external("/wp-content/themes/site/style.css"));
}

#[test]
fn url_resolution() {
    assert_eq!(resolve_resource_url("/a.css", "https://site.example/"), "https://site.example/a.css");
    assert_eq!(resolve_resource_url("https://cdn.example/a.css", "https://site.example"), "https://cdn.example/a.css");
    assert_eq!(resolve_resource_url("a.css", "https://site.example"), "https://site.example/a.css");
}

#[test]
fn css_asset_rejected_without_improvement() {
    // already minimal, so minification cannot shrink it
    let r = prepare_css_asset("/tiny.css", "a{x:1}", true);
    assert!(r.is_err());
    let r2 = prepare_css_asset("/tiny.css", "a{x:1}", false);
    assert!(r2.is_err());
}

#[test]
fn attribute_extraction() {
    assert_eq!(
        extract_attribute(r#"<link REL="stylesheet" href='/x.css'>"#, "href"),
        Some("/x.css".to_string())
    );
    assert_eq!(extract_attribute("<link>", "href"), None);
}

#[test]
fn base64_payload_is_encoded() {
    let original = vec![1u8, 2, 3, 4, 5, 6];
    let webp = vec![9u8];
    let img = package_converted_image("/a/pic.jpg", &original, &webp);
    assert_eq!(img.webp_base64, "CQ==");
    assert_eq!(img.webp_size, 1);
    assert!(img.filename.ends_with(".webp"));

    let bigger = vec![9u8; 10];
    let kept = package_converted_image("/a/pic.jpg", &original, &bigger);
    assert_eq!(kept.webp_base64, "AQIDBAUG");
    assert_eq!(kept.webp_size, 6);
    assert_eq!(kept.reduction_tenths, 0);
    assert!(kept.filename.ends_with(".jpg"));
}


#[test]
fn minify_html_copies_malformed_input_verbatim() {
    // an unterminated comment: the remainder passes through untouched
    assert_eq!(minify_html("a<!--b"), "a<!--b");
    // a complete comment inside a verbatim region is kept byte for byte
    assert_eq!(minify_html("<pre><!--x--></pre>"), "<pre><!--x--></pre>");
    assert_eq!(minify_html("<script>/*a*/<!--b--></script>"), "<script>/*a*/<!--b--></script>");
}

#[test]
fn unterminated_style_block_passes_through() {
    let mut html = "<p></p><style>.gone{color:red}".to_string();
    let (count, _) = optimize_and_treeshake_css(&mut html);
    assert_eq!(count, 0);
    assert_eq!(html, "<p></p><style>.gone{color:red}");
}

#[test]
fn implied_elements_stay_used() {
    let opt = shaker_for("<p>no explicit body</p>");
    let out = opt.remove_unused_css("body{color:red}.gone{color:blue}").unwrap();
    assert!(out.contains("body{color:red"));
    assert!(!out.contains(".gone"));
}

#[test]
fn resource_rejections_name_their_cause() {
    let big_css = "x".repeat(500_001);
    assert_eq!(prepare_css_asset("/a.css", &big_css, true).unwrap_err(), "CSS file too large");
    let big_js = "x".repeat(1_000_001);
    assert_eq!(prepare_js_asset("/a.js", &big_js, true).unwrap_err(), "JS file too large");
    assert_eq!(prepare_css_asset("/a.css", "a{x:1}", false).unwrap_err(), "No size improvement");
}

#[test]
fn css_asset_built_when_minification_shrinks() {
    let css = ".wide {  color : #ffffff ; margin : 0px ; }";
    let f = prepare_css_asset("/w.css", css, true).unwrap();
    assert!(f.optimized_size < f.original_size);
    assert!(f.filename.ends_with(".css"));
}

#[test]
fn js_minify_keeps_minimal_source() {
    let js = "var x=1";
    assert_eq!(basic_js_minify(js), js);
}

#[test]
fn js_minify_shrinks_plain_source() {
    let js = "var x = 1 ;\nvar y = 2 ;";
    let out = htmlwp::resource_optimizer::basic_js_minify(js);
    assert!(out.len() < js.len());
}

#[test]
fn seo_passes_compose() {
    let html = "<html><head><title>T</title></head><body><a href=\"http://x\" target=\"_blank\">x</a><img src=\"pic-one.jpg\"></body></html>";
    let seo = SeoOptimizer::new();
    let result = seo.optimize(html, "http://me.example");
    assert!(result.html.contains("alt=\"Pic one\""));
    assert!(result.html.contains("rel=\"noopener noreferrer\""));
    assert!(result.html.contains("rel=\"canonical\" href=\"http://me.example\""));
    assert!(result.changes.len() > 0);
}

#[test]
fn meta_description_added_when_missing() {
    let mut html = "<html><head></head><body><p>Some long paragraph of body text that goes on well past fifty characters in total.</p></body></html>".to_string();
    let r = ensure_meta_description(&mut html);
    assert!(matches!(r, MetaResult::Added));
    assert!(html.contains("<meta name=\"description\" content=\""));
}

#[test]
fn canonical_not_duplicated() {
    let mut html =
        "<html><head><link rel=\"canonical\" href=\"http://a\"></head></html>".to_string();
    assert!(!add_canonical_url(&mut html, "http://b"));
}

#[test]
fn external_links_hardened_once() {
    let mut html = r#"<a href="http://x" target="_blank">x</a>"#.to_string();
    assert_eq!(fix_external_links(&mut html), 1);
    assert!(html.contains("noopener noreferrer"));
    assert_eq!(fix_external_links(&mut html), 0);
}

#[test]
fn seo_score_base_and_credits() {
    assert_eq!(calculate_seo_score("<p>img-less, title-less</p>"), 55);
    assert_eq!(calculate_seo_score("<title>T</title><p>x</p>"), 65);
}

#[test]
fn schema_injected_once() {
    let mut html = "<html><head></head><body></body></html>".to_string();
    let n = inject_schema(&mut html, "http://me.example");
    assert_eq!(n, 1);
    assert!(html.contains("application/ld+json"));
    let again = inject_schema(&mut html, "http://me.example");
    assert_eq!(again, 0);
}

#[test]
fn cdn_url_for_default_provider() {
    let cfg = CdnConfig::default();
    let url = generate_cdn_url("/wp-content/a.jpg", "https://site.example/", &cfg);
    assert_eq!(url, "https://site.example/cdn-cgi/image/format=webp,quality=80/wp-content/a.jpg");
}

#[test]
fn dimension_counting() {
    let html = r#"<img src="a.jpg"><img src="b.jpg" width="1" height="1">"#;
    assert_eq!(count_images_without_dimensions(html), 1);
}

#[test]
fn listen_address_formatting() {
    let c = Config { host: "0.0.0.0".to_string(), port: 3000, api_key: None };
    assert_eq!(c.address(), "0.0.0.0:3000");
}
