//! A library that rewrites HTML documents to reduce transfer size: it
//! tree-shakes unused inline style rules, collapses markup, injects
//! performance hints, and prepares external stylesheets and scripts for
//! consolidation into combined, minified assets.

pub mod config;
pub mod css_optimizer;
pub mod error;
pub mod handlers;
pub mod image_optimizer;
pub mod optimizer;
pub mod resource_optimizer;
pub mod scan;
pub mod schema_generator;
pub mod webp_converter;
pub mod seo_optimizer;
pub mod stats;
pub mod text;
