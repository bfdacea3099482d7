//! The part of Glimmerwood that has no platform: the rules that decide where an
//! address goes, which list a site is on, when the wisp asks a question, what
//! the tabs and downloads are, and the words the pages show.

pub mod text;
pub mod pages;
pub mod find;
pub mod failure;
pub mod protocol;
pub mod nav;
pub mod newsboat;
pub mod dose;
pub mod home;
pub mod downloads;
pub mod asking;
pub mod diary;
pub mod store;
pub mod history;
pub mod bookmarks;
pub mod attention;
pub mod companion;
pub mod session;
pub mod tabs;
pub mod reputation;
pub mod ratings;
pub mod settings;
pub mod places;
pub mod embed;
pub mod feel_lab;
