pub mod collector;
pub mod lexer;
pub mod reflector;
pub mod walk;
