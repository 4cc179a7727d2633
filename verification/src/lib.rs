pub mod game;
pub mod snake;
mod host;
