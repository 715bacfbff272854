//! The package: the declared objects of a project, normalized and ordered.

pub mod archive;
pub mod assemble;
pub mod compare;
pub mod delta;
pub mod emit;
pub mod inspect;
pub mod dependencies;
pub mod laws;
pub mod lookup;
pub mod normalize;
pub mod package;
pub mod profiles;
pub mod replay;
pub mod snapshot;
pub mod project;

pub use self::package::Package;
pub use self::profiles::{GenerationOptions, PublishProfile};
pub use self::project::Project;
