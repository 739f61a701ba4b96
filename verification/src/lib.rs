pub mod assoc;
pub mod builder;
pub mod dispatch;
pub mod dsl;
pub mod element;
pub mod error;
pub mod event;
pub mod kind;
pub mod machine;
pub mod macro_builders;
pub mod model;
pub mod model_lifecycle;
pub mod model_validation;
pub mod path;
pub mod queue;
pub mod rebase;
pub mod route;
pub mod runtime;
pub mod text;
