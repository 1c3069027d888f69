//! A tree-walking evaluator for a small expression language: literals,
//! arithmetic and comparison, variables with lexical block scopes,
//! conditionals and loops.
pub mod value;
pub mod scope;
pub mod environment_manager;
pub mod environment_manager_raw;
pub mod literal;
pub mod semantics;
pub mod eva;
pub mod laws;

pub use environment_manager::EnvironmentManager;
pub use environment_manager_raw::{get_environment_manager, EnvironmentManagerRaw};
pub use eva::Eva;
pub use value::{EvalDataType, EvalError, EvalType};
