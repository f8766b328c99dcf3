use vstd::prelude::*;

pub mod analysis;
pub mod codec;
pub mod num;
pub mod player_data;
pub mod text;
pub mod time;

