//! The conversation data model that clients write as turns, with its
//! builders, and the provenance that describes who wrote a context.
pub mod conversation;
pub mod provenance;
pub mod builders;
