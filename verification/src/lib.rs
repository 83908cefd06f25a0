//! Radio automation core: the rules of a small station, stated and proved.

pub mod ads;
pub mod audio;
pub mod cart;
pub mod clock;
pub mod days;
pub mod db;
pub mod error;
pub mod library;
pub mod license;
pub mod paths;
pub mod playlist;
pub mod rank;
pub mod report;
pub mod scheduler;
pub mod settings;
pub mod stream;
pub mod table;
pub mod text;
pub mod voice;
pub mod workbook;
