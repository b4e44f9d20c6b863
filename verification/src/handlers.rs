//! Request-level logic: authorization against the configured secret,
//! the per-request shapes, and the bulk run in which one item's
//! failure never aborts the batch.

use vstd::prelude::*;

use crate::error::AppError;
use crate::optimizer::{optimize_html, pipeline_spec, OptimizeResult};
use crate::stats::reduction_tenths;
use crate::text::{chars_to_string, push_all, str_to_chars, views_of_strings};

verus! {

/// Health check response.
pub struct HealthResponse {
    pub status: String,
    pub version: String,
    pub auth_enabled: bool,
}

/// Per-pass switches, every one on by default.
#[derive(Clone, Copy)]
pub struct OptimizeOptions {
    pub minify_html: bool,
    pub minify_css: bool,
    pub minify_js: bool,
    pub remove_unused_css: bool,
    pub convert_webp: bool,
    pub resize_images: bool,
    pub defer_js: bool,
    pub lazy_images: bool,
    pub optimize_resources: bool,
}

impl Default for OptimizeOptions {
    /// Every pass is on by default.
    fn default() -> (r: OptimizeOptions)
        ensures
            r.minify_html && r.minify_css && r.minify_js && r.remove_unused_css
                && r.convert_webp && r.resize_images && r.defer_js && r.lazy_images
                && r.optimize_resources,
    {
        OptimizeOptions {
            minify_html: true,
            minify_css: true,
            minify_js: true,
            remove_unused_css: true,
            convert_webp: true,
            resize_images: true,
            defer_js: true,
            lazy_images: true,
            optimize_resources: true,
        }
    }
}

/// The default value of every option.
pub fn default_true() -> (r: bool)
    ensures
        r,
{
    true
}

/// The default optimization level.
pub fn default_level() -> (r: String)
    ensures
        r@ == "balanced"@,
{
    String::from_str("balanced")
}

/// One optimization request.
pub struct OptimizeRequest {
    pub html: String,
    pub url: String,
    pub options: OptimizeOptions,
}

/// One optimization response.
pub struct OptimizeResponse {
    pub success: bool,
    pub optimized_html: String,
    pub original_size: usize,
    pub optimized_size: usize,
    /// Tenths of a percent saved.
    pub reduction_percent_tenths: i128,
    pub optimizations: Vec<String>,
    pub images: Option<WebpImagesResponse>,
    pub resources: Option<ResourcesResponse>,
}

/// Converted images reported with a response.
pub struct WebpImagesResponse {
    pub images: Vec<WebpImageData>,
    pub total_original_bytes: u128,
    pub total_webp_bytes: u128,
    pub total_savings_bytes: u128,
}

pub struct WebpImageData {
    pub original_url: String,
    pub webp_filename: String,
    pub webp_base64: String,
    pub original_size: usize,
    pub webp_size: usize,
    pub reduction_tenths: i128,
}

/// Optimized external resources reported with a response.
pub struct ResourcesResponse {
    pub css_files: Vec<CssFileData>,
    pub js_files: Vec<JsFileData>,
    pub critical_css: Option<String>,
    /// Combined CSS: all CSS merged into one payload.
    pub combined_css: Option<String>,
    /// Combined JS: all JS merged into one payload.
    pub combined_js: Option<String>,
    pub combined_css_filename: String,
    pub combined_js_filename: String,
    pub total_css_savings_bytes: u128,
    pub total_js_savings_bytes: u128,
}

pub struct CssFileData {
    pub original_url: String,
    pub filename: String,
    pub content: String,
    pub original_size: usize,
    pub optimized_size: usize,
    pub reduction_tenths: i128,
}

pub struct JsFileData {
    pub original_url: String,
    pub filename: String,
    pub content: String,
    pub original_size: usize,
    pub optimized_size: usize,
    pub reduction_tenths: i128,
}

/// Bulk optimization request.
pub struct BulkOptimizeRequest {
    pub pages: Vec<OptimizeRequest>,
}

/// Bulk optimization response.
pub struct BulkOptimizeResponse {
    pub success: bool,
    pub results: Vec<OptimizeResponse>,
    /// Tenths of a percent saved across all successful items.
    pub total_reduction_tenths: i128,
}

/// A request is authorized when the server has a secret configured
/// and the header carries exactly that bearer secret; a server with
/// no secret is a fatal misconfiguration, never silently open.
pub open spec fn authorize_spec(api_key: Option<Seq<char>>, header: Seq<char>) -> bool {
    match api_key {
        Some(k) => header == "Bearer "@ + k,
        None => false,
    }
}

/// Check the bearer credential against the configured secret.
pub fn authorize(api_key: &Option<String>, auth_header: &str) -> (r: Result<(), AppError>)
    ensures
        r is Ok <==> authorize_spec(
            match api_key {
                Some(k) => Some(k@),
                None => None,
            },
            auth_header@,
        ),
        api_key is None ==> r is Err && r->Err_0 is Internal
            && r->Err_0->Internal_0@ == "Server misconfiguration: API_KEY must be set"@,
        api_key is Some && r is Err ==> r->Err_0 is Unauthorized,
{
    proof {
        reveal_strlit("Bearer ");
    }
    match api_key {
        Some(key) => {
            let mut expected = str_to_chars("Bearer ");
            push_all(&mut expected, &str_to_chars(key.as_str()));
            let given = str_to_chars(auth_header);
            if crate::text::chars_eq(&given, &expected) {
                proof {
                    assert(auth_header@ =~= "Bearer "@ + key@);
                }
                Ok(())
            } else {
                proof {
                    assert(expected@ =~= "Bearer "@ + key@);
                }
                Err(AppError::Unauthorized)
            }
        },
        None => Err(
            AppError::Internal(String::from_str("Server misconfiguration: API_KEY must be set")),
        ),
    }
}

/// The outcome of one bulk item: the rewritten page on success; the
/// original text with zero sizes on failure.
pub open spec fn bulk_item_ok(page_html: Seq<char>, page_url: Seq<char>, o: OptimizeOptions, r:
    OptimizeResponse) -> bool {
    let p = pipeline_spec(page_html, page_url, o);
    &&& r.success
    &&& r.optimized_html@ == p.0
    &&& r.original_size == page_html.len()
    &&& r.optimized_size == p.0.len()
    &&& r.reduction_percent_tenths == reduction_tenths(page_html.len() as int, p.0.len() as int)
    &&& views_of_strings(r.optimizations@) == p.1
    &&& r.images is None
    &&& r.resources is None
}

pub open spec fn bulk_item_failed(page_html: Seq<char>, r: OptimizeResponse) -> bool {
    &&& !r.success
    &&& r.optimized_html@ == page_html
    &&& r.original_size == 0
    &&& r.optimized_size == 0
    &&& r.reduction_percent_tenths == 0
    &&& r.optimizations@.len() == 0
    &&& r.images is None
    &&& r.resources is None
}

/// The summed original sizes of a batch's results.
pub open spec fn resp_orig_sum(rs: Seq<OptimizeResponse>, i: nat) -> int
    decreases rs.len() - i,
    when i <= rs.len()
{
    if i >= rs.len() {
        0
    } else {
        rs[i as int].original_size + resp_orig_sum(rs, (i + 1) as nat)
    }
}

/// The summed optimized sizes of a batch's results.
pub open spec fn resp_opt_sum(rs: Seq<OptimizeResponse>, i: nat) -> int
    decreases rs.len() - i,
    when i <= rs.len()
{
    if i >= rs.len() {
        0
    } else {
        rs[i as int].optimized_size + resp_opt_sum(rs, (i + 1) as nat)
    }
}

/// Run the pipeline over every page of a bulk request.  Each item is
/// processed independently: an item with empty text fails alone, with
/// zero sizes, and never aborts the batch; every other item succeeds.
/// The aggregate reduction is computed over all items' reported sizes.
pub fn optimize_bulk_pages(pages: &Vec<OptimizeRequest>) -> (r: BulkOptimizeResponse)
    ensures
        r.success,
        r.results@.len() == pages@.len(),
        r.total_reduction_tenths == (if 0 < resp_orig_sum(r.results@, 0)
            <= 0x100000000000000000000000000 && resp_opt_sum(r.results@, 0)
            <= 0x100000000000000000000000000 {
            reduction_tenths(resp_orig_sum(r.results@, 0), resp_opt_sum(r.results@, 0))
        } else {
            0int
        }),
        forall|k: int|
            0 <= k < pages@.len() ==> {
                &&& (pages@[k].html@.len() == 0 ==> bulk_item_failed(
                    pages@[k].html@,
                    #[trigger] r.results@[k],
                ))
                &&& (pages@[k].html@.len() > 0 ==> bulk_item_ok(
                    pages@[k].html@,
                    pages@[k].url@,
                    pages@[k].options,
                    r.results@[k],
                ))
            },
{
    let n = pages.len();
    let mut results: Vec<OptimizeResponse> = Vec::new();
    let mut k: usize = 0;
    while k < n
        invariant
            k <= n,
            n == pages@.len(),
            results@.len() == k,
            forall|m: int|
                0 <= m < k ==> {
                    &&& (pages@[m].html@.len() == 0 ==> bulk_item_failed(
                        pages@[m].html@,
                        #[trigger] results@[m],
                    ))
                    &&& (pages@[m].html@.len() > 0 ==> bulk_item_ok(
                        pages@[m].html@,
                        pages@[m].url@,
                        pages@[m].options,
                        results@[m],
                    ))
                },
        decreases n - k,
    {
        let page = &pages[k];
        match optimize_html(page.html.as_str(), page.url.as_str(), &page.options) {
            Ok(result) => {
                results.push(
                    OptimizeResponse {
                        success: true,
                        optimized_html: result.html,
                        original_size: result.original_size,
                        optimized_size: result.optimized_size,
                        reduction_percent_tenths: result.reduction_percent_tenths,
                        optimizations: result.optimizations,
                        images: None,
                        resources: None,
                    },
                );
            },
            Err(_) => {
                results.push(
                    OptimizeResponse {
                        success: false,
                        optimized_html: page.html.clone(),
                        original_size: 0,
                        optimized_size: 0,
                        reduction_percent_tenths: 0,
                        optimizations: Vec::new(),
                        images: None,
                        resources: None,
                    },
                );
            },
        }
        k += 1;
    }
    let rn = results.len();
    let mut so: u128 = 0;
    let mut sp: u128 = 0;
    let mut m: usize = 0;
    while m < rn
        invariant
            m <= rn,
            rn == results@.len(),
            so <= m * 0x10000000000000000,
            sp <= m * 0x10000000000000000,
            resp_orig_sum(results@, 0) == so + resp_orig_sum(results@, m as nat),
            resp_opt_sum(results@, 0) == sp + resp_opt_sum(results@, m as nat),
        decreases rn - m,
    {
        so = so + (results[m].original_size as u128);
        sp = sp + (results[m].optimized_size as u128);
        m += 1;
    }
    let total_reduction: i128 = if 0 < so && so <= 0x100000000000000000000000000 && sp
        <= 0x100000000000000000000000000 {
        crate::stats::reduction_tenths_wide(so, sp)
    } else {
        0
    };
    BulkOptimizeResponse { success: true, results, total_reduction_tenths: total_reduction }
}

} // verus!
