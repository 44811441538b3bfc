//! Transcript rendering: word wrap, raw terminal sequences, block
//! projection, layout, and the render cache, each with a machine-checked
//! contract. The modules named `.._laws` hold what follows of every input.

pub mod block_laws;
pub mod block_render;
pub mod body;
pub mod body_laws;
pub mod cache_laws;
pub mod cells;
pub mod code;
pub mod compose;
pub mod diff;
pub mod diff_laws;
pub mod draw_laws;
pub mod grep;
pub mod header;
pub mod host;
pub mod json;
pub mod layout;
pub mod layout_laws;
pub mod lua;
pub mod message;
pub mod overlay;
pub mod owner;
pub mod owner_laws;
pub mod parse;
pub mod parse_laws;
pub mod place;
pub mod project;
pub mod project_laws;
pub mod raw;
pub mod raw_laws;
pub mod raw_writer;
pub mod render;
pub mod render_laws;
pub mod section_laws;
pub mod snapshot;
pub mod spinner_laws;
pub mod style;
pub mod text;
pub mod theme;
pub mod view_laws;
pub mod wrap;
pub mod wrap_again_laws;
pub mod wrap_break_laws;
pub mod wrap_laws;
pub mod wrap_text_laws;
