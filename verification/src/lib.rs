pub mod command;
pub mod commands;
pub mod extgit;
pub mod fileset;
pub mod ip;
pub mod template;
pub mod text;
pub mod util;
pub mod vhdl;
