//! A grid-bound snake game core: the simulation rules, the legacy round and
//! score bookkeeping, and the gates and planner that decide when and in what
//! order the rules run.

mod chance;
pub mod events;
pub mod fixed_step;
pub mod game;
pub mod grid;
pub mod keyboard;
pub mod menu;
pub mod pipeline;
pub mod rounds;
pub mod schedule;
pub mod snake;
pub mod stages;
pub mod state;
pub mod system;
pub mod text;
