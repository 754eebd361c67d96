pub mod amount;
pub mod app;
pub mod calendar;
pub mod document;
pub mod engine;
pub mod feed;
pub mod figures;
pub mod logs;
pub mod machines;
pub mod names;
pub mod opml;
pub mod pages;
pub mod plain;
pub mod plans;
pub mod questions;
pub mod scripts;
pub mod sound;
pub mod tags;
pub mod text;
pub mod theme;
pub mod timestamps;
pub mod tools;
pub mod transcribe;
pub mod util;
pub mod word;
pub mod wrapping;
pub mod xml;
