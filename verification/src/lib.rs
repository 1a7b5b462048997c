//! The verified core of a small polygon engine: the text formats it reads
//! (the maze map, OBJ geometry and MTL materials), the grid rules of the
//! maze game, and the input state that drives the camera.

pub mod text;
pub mod obj;
pub mod game;
pub mod maze;
pub mod keys;
pub mod pixels;
pub mod laws;
