//! Repairs the launcher files that a Chromium-family browser writes for its
//! web-app shortcuts: recognises them, aligns their window class with their
//! icon, and picks a collision-free file name from the shortcut's name and
//! browser profile.

pub mod text;
pub mod resolve;
pub mod record;
pub mod naming;
pub mod plan;

pub use naming::generate_new_filename;
pub use record::{get_fixed_content, is_chromium_pwa, needs_wmclass_fix, with_fixed_wmclass};
pub use plan::plan_record;
pub use resolve::get_final_filepath;
