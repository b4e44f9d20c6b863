use htmlwp::css_optimizer::{minify_css, CssOptimizer};
use htmlwp::image_optimizer::analyze_images;
use htmlwp::resource_optimizer::{extract_css_links, extract_js_sources, find_script_tag_start};
use htmlwp::schema_generator::generate_webpage_schema;
use htmlwp::seo_optimizer::{add_alt_tags, extract_alt_from_src};
use htmlwp::webp_converter::{extract_image_urls, generate_filename, should_skip_image};

#[test]
fn test_extract_alt_from_src() {
    let img = r#"<img src="/images/hero-banner.jpg">"#;
    let alt = extract_alt_from_src(img);
    assert_eq!(alt, "Hero banner");
}

#[test]
fn test_add_alt_tags() {
    let mut html = r#"<img src="test.jpg"><img src="other.png" alt="exists">"#.to_string();
    let count = add_alt_tags(&mut html);
    assert_eq!(count, 1);
    assert!(html.contains("alt=\"Test\""));
}

#[test]
fn test_extract_image_urls() {
    let html = r#"<img src="/uploads/test.jpg"><img src="/images/photo.png" srcset="/images/photo-2x.png 2x, /images/photo-sm.png 500w">"#;
    let urls = extract_image_urls(html);
    assert_eq!(urls.len(), 4);
    assert!(urls.contains(&"/uploads/test.jpg".to_string()));
    assert!(urls.contains(&"/images/photo-2x.png".to_string()));
}

#[test]
fn test_should_skip_image() {
    assert!(should_skip_image("data:image/png;base64,..."));
    assert!(should_skip_image("/images/favicon.ico"));
    assert!(should_skip_image("/images/logo.webp"));
    assert!(!should_skip_image("/uploads/photo.jpg"));
}

#[test]
fn test_generate_filename() {
    let filename = generate_filename("/uploads/test.jpg", "webp");
    assert!(filename.ends_with(".webp"));
    assert!(filename.len() > 10);
}

#[test]
fn test_minify_css() {
    let css = r#"
            .test {
                color: #ffffff;
                margin: 0px;
            }
        "#;

    let result = minify_css(css).unwrap();
    assert!(result.len() < css.len());
    assert!(result.contains(".test"));
}

#[test]
fn test_extract_selectors() {
    let html = r#"<div class="hero main" id="content"><p class="text">Hello</p></div>"#;
    let mut optimizer = CssOptimizer::new();
    optimizer.extract_used_selectors(html);

    assert!(optimizer.used_selectors.contains(&".hero".to_string()));
    assert!(optimizer.used_selectors.contains(&".main".to_string()));
    assert!(optimizer.used_selectors.contains(&"#content".to_string()));
    assert!(optimizer.used_selectors.contains(&".text".to_string()));
}

#[test]
fn test_extract_css_links() {
    let html = r#"<link rel="stylesheet" href="/style.css"><link rel="stylesheet" href="/theme.css">"#;
    let links = extract_css_links(html);
    assert_eq!(links.len(), 2);
    assert!(links.contains(&"/style.css".to_string()));
}

#[test]
fn test_extract_js_sources() {
    let html = r#"<script src="/app.js"></script><script>inline</script><script src="/vendor.js"></script>"#;
    let sources = extract_js_sources(html);
    assert_eq!(sources.len(), 2);
    assert!(sources.contains(&"/app.js".to_string()));
}

#[test]
fn test_user_specific_js_case() {
    let html = r#"<script defer type="text/javascript" src="https://pillarshoteldv.wpenginepowered.com/wp-includes/js/jquery/jquery.min.js?ver=3.7.1" id="jquery-core-js"></script>"#;
    let url = "https://pillarshoteldv.wpenginepowered.com/wp-includes/js/jquery/jquery.min.js?ver=3.7.1";

    let sources = extract_js_sources(html);
    assert_eq!(sources.len(), 1);
    assert_eq!(sources[0], url);

    let pos = find_script_tag_start(html, url);
    assert!(pos.is_some(), "Failed to find script tag position");
}

#[test]
fn test_analyze_images() {
    let html = r#"
            <img src="test.jpg">
            <img src="other.png" width="100" height="100">
            <img src="lazy.webp" loading="lazy">
        "#;

    let result = analyze_images(html);
    assert_eq!(result.webp_candidates, 2);
    assert_eq!(result.missing_dimensions, 2);
}

#[test]
fn test_generate_webpage_schema() {
    let schema = generate_webpage_schema("Test Page", "A test description", "http://example.com");
    let value: serde_json::Value = serde_json::from_str(&schema).unwrap();
    assert!(value["@type"] == "WebPage");
    assert!(value["name"] == "Test Page");
}
