pub mod errors;
pub mod input_json;
pub mod input_native;
pub mod input_string;
pub mod number;
pub mod temporal;
pub mod text;
pub mod validation_exception;
pub mod validators;
