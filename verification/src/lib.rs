use vstd::prelude::*;

pub mod app;
pub mod app_laws;
pub mod cli;
pub mod cursor;
pub mod diff_laws;
pub mod diff_view;
pub mod escape;
pub mod file_laws;
pub mod files;
pub mod key_laws;
pub mod path;
pub mod preview;
pub mod preview_laws;
pub mod sed;
pub mod sed_laws;
pub mod styled;
pub mod text;
pub mod text_laws;
pub mod ui;
pub mod ui_laws;
pub mod worker;
pub mod worker_laws;

verus! {

} // verus!
