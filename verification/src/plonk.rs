//! Constraint-system construction.

pub mod assigned;
pub mod assignment;
pub mod circuit;
pub mod error;
pub mod lookup;
pub mod permutation;
pub mod shuffle;

pub use assigned::Assigned;
pub use assignment::{
    lemma_answer_itself, spec_answer, spec_until_failure, Assignment, SinkCall,
};
pub use error::{Error, TableError};
