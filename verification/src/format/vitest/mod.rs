pub mod assertions;
pub mod console;
pub mod file_failure;
pub mod footer;
