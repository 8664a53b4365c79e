pub mod fixed;
pub mod maze;
pub mod player;
pub mod castray;
pub mod framebuffer;
pub mod textures;
pub mod render;
pub mod session;
