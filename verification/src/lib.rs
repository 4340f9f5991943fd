//! Verified core of a clipboard history tool.
#![allow(unused_imports)]

pub mod tasks;
pub mod text;
pub mod paths;
pub mod scheduler;
pub mod tokenizer;
pub mod regions;
pub mod ocr;
pub mod capture;
pub mod monitor;
pub mod sessions;
pub mod store;
pub mod quick_window;
pub mod platform;
pub mod history;
pub mod utils;
