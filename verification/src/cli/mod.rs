//! The stages and configuration of the command-line program.
pub mod age_validator;
pub mod config;
pub mod employee_validation;
pub mod experience_enrichment;
pub mod mock_source;
pub mod rename_field;
pub mod required_field_validator;
pub mod salary_validator;
