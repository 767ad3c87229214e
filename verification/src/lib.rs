//! Verified core of the inkpdf PDF annotator: the document model and its
//! page/annotation edits, the text editor, undo/redo history, the canvas's
//! click/drag/key decisions, the worker wire format, compressed document
//! storage, crash-recovery file naming, path handling, what the file browser
//! lists, and the worker sandbox setup.

pub mod history;
pub mod document;
pub(crate) mod strings;
pub mod text_edit;
pub mod canvas;
pub mod worker_protocol;
pub mod storage;
pub mod autosave;
pub mod sandbox;
pub(crate) mod sandbox_calls;
pub mod file_browser;
pub mod paths;
