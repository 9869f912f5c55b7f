//! Velocity: the verified core of a small 2D game framework.
pub mod scene;
pub mod text;
pub mod texture;
pub mod assets;
pub mod pixels;
pub mod input;
pub mod animation;
pub mod atlas;
pub mod sparrow;
pub mod render;
pub mod audio;
pub mod game;
