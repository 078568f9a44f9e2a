//! Verified core of the Persian literary translation engine: document text
//! extraction and segmentation, character context retrieval, advanced analysis
//! planning and validation, and the blind provider review ledger.

pub mod text;
pub mod chunking;
pub mod fmt;
pub mod docx;
pub mod epub;
pub mod models;
pub mod chapter;
pub mod pdf;
pub mod export;
pub mod error;
pub mod epub_export;
pub mod norm;
pub mod character;
pub mod digest;
pub mod analysis;
pub mod prompts;
pub mod provider;
pub mod blind_review;
pub mod cli_args;
pub mod reveal_authority;
pub mod admission;
pub mod cli;
pub mod intelligence;
pub mod desktop;
pub mod planner;
pub mod validation;
pub mod orchestration;
pub mod parser;
pub mod plain_text;
pub mod manuscript;
pub mod document;
pub mod disagreement;
pub mod analysis_run;
pub mod mock_provider;
pub mod review_ledger;
pub mod blind_comparison;
pub mod evidence;
pub mod archive;
pub mod ledger_order;
