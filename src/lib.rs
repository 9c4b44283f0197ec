//! Shell commands served as HTTP endpoints: the route table, the script
//! builder and the response synthesizer, with their contracts.

pub mod cli;
pub mod handler;
pub mod response;
pub mod routes;
pub mod shell;
pub mod state;
pub mod text;
