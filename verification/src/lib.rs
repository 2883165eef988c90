//! Validates that open source projects name their primary maintainers.

pub mod codeowners;
pub mod error;
pub mod github;
pub mod maintainers;
pub mod slack;
pub mod text;
pub mod validate;
