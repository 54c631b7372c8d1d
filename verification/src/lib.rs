//! The navigation core of a three-column directory browser: what each column
//! lists, how the columns follow the working directory, how an entry is found
//! by typing, and which keys change the interaction mode.

pub mod browser;
pub mod entry;
pub mod laws;
pub mod lister;
pub mod mode;
pub mod pane;
pub mod path;
pub mod preview;
pub mod search;
pub mod status;
pub mod text;
