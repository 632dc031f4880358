//! The narrative script language: blocks of actions, laid out by
//! indentation.

pub mod ast;
pub mod parser;
pub mod runner;
