//! What the command-line front end decides: the arguments of each command
//! as plain data and the work each command hands to the library.

pub mod diff;
pub mod doctor;
pub mod edit;
pub mod envelope;
pub mod extract;
pub mod kb;
pub mod review;
pub mod run;
pub mod schema;
pub mod validate;
