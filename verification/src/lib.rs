//! A falling-block puzzle game engine on a ten by twenty playfield.
//!
//! The engine holds the rules of the game and nothing of the terminal: pieces
//! and their rotation states ([`blocks`], [`block_data`]), the board with its
//! collision test and line clearing ([`collision_manager`], [`lines`]), the
//! piece controller with wall kicks, ghost, hold and lock delay
//! ([`block_manager`]), the queue of upcoming shapes ([`queue`]), rewards and
//! messages ([`alerts`]), and the step that advances a game by one frame
//! ([`game`]). A caller feeds it one intent per
//! frame and draws what it shows.
//!
//! Every function is verified against its contract. The contracts speak of
//! mathematical models: the settled cells as a set of integer pairs, the
//! queue as a sequence of shapes, a whole game as a [`game::GameView`]. What
//! is taken on trust is named in [`pixels`] and at the shuffle in [`blocks`].

pub mod alerts;
pub mod block_data;
pub mod block_manager;
pub mod blocks;
pub mod collision_manager;
pub mod game;
pub mod grid;
pub mod lines;
pub mod pixels;
pub mod queue;
