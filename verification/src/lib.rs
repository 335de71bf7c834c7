pub mod diag;
pub mod events;
pub mod laws;
pub mod machine;
pub mod pipeline;
pub mod render;

pub use diag::diagnostic_for;
pub use pipeline::{finish_chapter, prepare_chapter, version_warning, Prepared, Puml};
pub use render::RenderOutcome;
