pub mod text;
pub mod theme;
pub mod renderer;
pub mod github;
pub mod contributions;
pub mod system;
pub mod config;
pub mod avatar;
pub mod cache;
pub mod greeting;
pub mod cli;
pub mod probe;
