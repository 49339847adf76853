//! Markdown-to-terminal layout engine: table negotiation, prose reflow,
//! inline style extensions, math-to-Unicode conversion and the bookkeeping of
//! the asynchronous image pipeline, with the decisions of the editor that
//! shows the result: what a key or a click stands for, and what editing,
//! wrapping and saving do to the buffer.

pub mod app_state;
pub mod autocomplete;
pub mod buffer;
pub mod cache;
pub mod chrome;
pub mod code_highlight;
pub mod editor;
pub mod events;
pub mod git;
pub mod images;
pub mod math;
pub mod pandoc;
pub mod preview;
pub mod rename;
pub mod renderer;
pub mod style;
pub mod style_ext;
pub mod table_format;
pub mod text;
pub mod theme;
