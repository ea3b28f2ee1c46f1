pub mod escape;
pub mod indent;
pub mod join;
pub mod lossy;
pub mod text;

pub use escape::{IterEscaped, UnescapeBytes};
pub use indent::Indent;
pub use join::{IterJoin, Join};
