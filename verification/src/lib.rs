//! Equation numbering, compiler-log diagnostics and manuscript helpers for a
//! scientific Markdown/LaTeX publishing tool.
pub mod diagnostics;
pub mod emergency_stop;
pub mod environments;
pub mod html_post;
pub mod html_source;
pub mod labels;
pub mod logparse;
pub mod manuscript;
pub mod mathfix;
pub mod numbering;
pub mod paths;
pub mod publishing;
pub mod references;
pub mod spelling;
pub mod suggest;
pub mod text;
pub mod unicode_math;
