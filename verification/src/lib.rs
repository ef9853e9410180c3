//! Verified core of `reproducible`: the parts of report generation that are
//! plain data logic (CSV test-case assembly, table layout, categorical
//! statistics, Criterion path routing, environment summaries).
pub mod benchmark;
pub mod columns;
pub mod env;
pub mod parser;
pub mod render;
pub mod rows;
pub mod stats;
pub mod text;
