pub mod args;
pub mod context;
pub mod error;
pub mod model;
pub mod number;
pub mod ollama;
pub mod option;
pub mod prompt;
pub mod template;
