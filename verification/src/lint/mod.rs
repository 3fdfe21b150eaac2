pub mod rules;
pub mod report;
