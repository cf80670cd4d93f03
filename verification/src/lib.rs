//! A verified core for a git-fork manager: a declarative description of
//! forks (a target repository tracking an upstream, plus changes layered on
//! top) is resolved into a plan of remotes and branches, ready to be rendered
//! into a script.

pub mod error;
pub mod filler;
pub mod github_url;
pub mod model;
pub mod remotes;
pub mod render;
pub mod resolver;

pub use error::Error;
pub use model::{Change, Config, Fork, Repo, Update, PR};
pub use render::remote_name;
pub use resolver::{Pull, PullHead, PullRepo};
