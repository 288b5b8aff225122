//! Bookkeeping for a folder of HUD skins: which skins exist, which one is
//! active, which are favorites, and which names a search query selects.

pub mod error;
pub mod favorites;
pub mod hud;
pub mod huds;
pub mod laws;
pub mod name_set;
pub mod order;
pub mod path;
pub mod search;
pub mod text;

pub use crate::error::Error;
pub use crate::hud::Hud;
pub use crate::huds::activation::{Action, Event};
pub use crate::huds::Huds;
pub use crate::name_set::NameSet;
