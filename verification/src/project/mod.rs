pub mod classify;
pub mod rust_manifest;
pub mod ts_js_manifest;
