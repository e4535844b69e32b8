pub mod bfmachine;
pub mod cliargs;
pub mod lemmas;
