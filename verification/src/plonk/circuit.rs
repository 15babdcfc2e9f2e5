//! Columns, selectors, queries, expressions and the constraint system.

pub mod arguments;
pub mod backend;
pub mod canonical;
pub mod cells;
pub mod column;
pub mod compress;
pub mod convert;
pub mod compress_selectors;
pub mod degree;
pub mod evaluate;
pub mod expression;
pub mod gate;
pub mod guards;
pub mod identifier;
pub mod invariants;
pub mod laws;
pub mod pinned;
pub mod queries;
pub mod sealed;
pub mod selectors;
pub mod system;
pub mod traits;

pub use cells::VirtualCells;
pub use column::{
    AdviceQuery, Challenge, Column, FirstPhase, FixedQuery, InstanceQuery, Phase, SecondPhase,
    Selector, TableColumn, ThirdPhase,
};
pub use evaluate::Evaluator;
pub use expression::Expression;
pub use gate::{Constraint, Constraints, Gate, VirtualCell};
pub use backend::{Queries, QueriesMap};
pub use convert::collect_queries;
pub use pinned::PinnedConstraintSystem;
pub use sealed::SealedPhase;
pub use system::ConstraintSystem;
pub use traits::{Circuit, FloorPlanner};
