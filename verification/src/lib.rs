pub mod camera;
pub mod carving;
pub mod components;
pub mod dungeon;
pub mod geometry;
pub mod grid;
pub mod map;
pub mod map_builder;
pub mod ordering;
pub mod paths;
pub mod player;
pub mod random;
pub mod rendering;
pub mod spawner;
pub mod systems;
