//! Core of an interactive terminal viewer for filtering a JSON document with a
//! query expression: the editable query buffer, a structural JSON renderer that
//! produces styled lines, scroll/viewport bookkeeping, the three-pane focus
//! ring, and the pipeline that re-evaluates the filter on every edit and
//! propagates success or error state across the panes.
//!
//! Terminal setup, event decoding, painting and the filter engine itself live
//! outside this crate: the surrounding loop feeds key events in, runs the
//! engine when the session asks for a re-evaluation, and hands the engine's
//! outcome back to the pipeline as a plain value.

pub mod buffer;
pub mod codec;
pub mod codec_laws;
pub mod focus;
pub mod input;
pub mod jq;
pub mod json;
pub mod keys;
pub mod pane;
pub mod render;
pub mod session;
pub mod text;
pub mod viewport;
