pub mod adapter;
pub mod addresses;
pub mod geometry;
pub mod matcher;
pub mod position;
pub mod records;
pub mod restore;
pub mod scripted;
pub mod session;
pub mod strutil;
