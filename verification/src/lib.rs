//! Conway's Game of Life on a toroidal grid, with a reader for plaintext
//! pattern files. Every function is verified against a mathematical model
//! of the board.

pub mod grid;
pub mod indexed;
pub mod laws;
pub mod patterns;
pub mod plaintext;
pub mod random;
pub mod session;
pub mod text;
pub mod torus;
pub mod world;
