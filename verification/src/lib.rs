//! A modal (vim-style) editing engine for markdown notes, with the wikilink
//! rewriting and note-name rules of the notes app built around it.

pub mod text;
pub mod vim;
pub mod keymap;
pub mod vim_laws;
pub mod wiki;
pub mod notes;
pub mod picker;
