//! What holds of the library as a whole, said of what goes in and what comes out.

pub mod capture;
pub mod commands;
pub mod edit;
pub mod exchange;
pub mod images;
pub mod json;
pub mod layout;
pub mod losses;
pub mod paths;
pub mod read;
pub mod records;
pub mod reply;
pub mod request;
pub mod run;
pub mod sessions;
pub mod settings;
pub mod show;
pub mod text;
pub mod tools;
pub mod turns;
