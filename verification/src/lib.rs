pub mod action;
pub mod codec;
pub mod collection;
pub mod deck;
pub mod deck_panel;
pub mod home_screen;
mod ids;
pub mod idset;
pub mod importer;
pub mod input_state;
pub mod note;
pub mod practice_screen;
pub mod textutil;
