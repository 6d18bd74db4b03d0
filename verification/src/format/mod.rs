pub mod ansi;
pub mod colors;
pub mod bridge_console;
pub mod bridge_http;
pub mod case_map;
pub mod console;
pub mod details;
pub mod failure_diagnostics;
pub mod infra_failure;
pub mod libtest_json;
pub mod nextest;
pub mod paths;
pub mod pattern;
pub mod raw_jest;
pub mod time;
pub mod stacks;
pub mod unstructured_engine;
pub mod vitest;
pub mod cargo_test;
