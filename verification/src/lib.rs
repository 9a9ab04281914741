//! A verified engine for a falling-block puzzle game on a 20 x 10 playfield.
//!
//! The engine owns the board, the catalog of the seven standard piece shapes,
//! the score and the game-over latch. It is a pure, synchronous reducer: a
//! driver feeds it one action per tick and renders the snapshot returned by
//! `view`. All input, timing and drawing live outside the engine.

pub mod board;

pub mod rows;

pub mod shape;

pub mod state;

mod rng;

pub mod tetris;

pub mod laws;
