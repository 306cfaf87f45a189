pub mod catalog;
pub mod ip;
pub mod mvs;
pub mod pkgid;
pub mod resolver;
pub mod version;
