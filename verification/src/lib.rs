pub mod block;
pub mod chunk;
pub mod coordinates;
pub mod crafting;
pub mod generation;
pub mod inventory;
pub mod item;
pub mod meshing;
pub mod persistence;
pub mod text;
pub mod game;
pub mod interaction;
