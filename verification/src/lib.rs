//! Verified core of a small web front end that reports continuous-integration
//! test results per branch and per commit.
pub mod text;
pub mod status;
pub mod pattern;
pub mod filter;
pub mod walk;
pub mod branches;
pub mod query;
pub mod html;
