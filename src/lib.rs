pub mod ast;
pub mod driver;
pub mod environment;
pub mod interpreter;
pub mod number;
pub mod parser;
pub mod printer;
pub mod scanner;
pub mod text;
pub mod token;
