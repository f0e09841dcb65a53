//! A supervisor for locally run child processes, written as a library of
//! decisions: every function here takes plain values and gives plain values
//! back, and the program around it spawns, sleeps, connects and prints.

pub mod cli;
pub mod command_to_run;
pub mod env_file;
pub mod machine;
pub mod script;
pub mod server;
pub mod service;
pub mod service_manager;
pub mod session;
pub mod text;
pub mod tokenizer;
pub mod user_command;
pub mod utilities;
