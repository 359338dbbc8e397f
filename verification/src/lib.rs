//! Verified core of the proces-verbaal tooling: validation and parsing of
//! OCR Markdown tables, parsing of official result CSVs, comparison of the
//! two, and the text of the reports built from that comparison.
pub mod error;
pub mod text;
pub mod textops;
pub mod votes;
pub mod markdown;
pub mod validate;
pub mod corrections;
pub mod csv;
pub mod candidates;
pub mod compare;
pub mod comparison;
pub mod paths;
pub mod candidate_compare;
pub mod official;
pub mod stations;
pub mod report;
pub mod render;
pub mod names;
pub mod candidate_lists;
pub mod help;
pub mod args;
pub mod problems;
pub mod terminal;
pub mod layout;
pub mod bands;
pub mod canvas;
pub mod labels;
pub mod report_images;
pub mod mismatch_report;
pub mod http;
pub mod pages;
pub mod selection;
pub mod llm;
pub mod ocr_report;
pub mod listing;
pub mod tools;
