pub mod expression;
pub mod evaluation;
pub mod context;
pub mod machine;

pub use context::ExpressionContext;
pub use evaluation::{EvaluationError, Instruction};
pub use expression::{Expression, Number, Operator};
pub use machine::{Evaluation, Request};
