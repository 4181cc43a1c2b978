//! Services of the gte editor: watching for new releases, and handing clipboard images to a
//! remote machine over SSH.

pub mod args;
pub mod checker;
pub mod clock;
pub mod image;
pub mod install;
pub mod number;
pub mod path;
pub mod percent;
pub mod remote;
pub mod stamp;
pub mod text;
pub mod upload;
pub mod version;
