//! Batch renaming of image files: the naming rules, the file ordering, the
//! conflict handling and the interactive format dialog, with their contracts.

pub mod foreign;
pub mod text;
pub mod naming;
pub mod order;
pub mod dialog;
pub mod progress;
