//! Verified core of a generator for LaTeX report repositories: the text
//! transformations applied to the report template, the project-name slug, the
//! cursor arithmetic of the settings form and the state machine of the form and
//! its directory picker.

pub mod form;
pub mod latex;
pub mod order;
pub mod paths;
pub mod picker;
pub mod setup;
pub mod slug;
pub mod text;
pub mod width;
