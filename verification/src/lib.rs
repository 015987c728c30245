//! A perpetual-futures market whose contentious instructions wait in a queue and run in priority
//! order, so that a maker's cancel always comes before a take of the same slot.
//!
//! - [`state`]: everything that the program keeps, and the [`state::Market`] that it stands for.
//! - [`orderbook`], [`order_tree`]: the resting orders and the tree that holds a side of them.
//! - [`queue`], [`queue_tree`]: the waiting instructions and the tree that holds them.
//! - [`positions`], [`slots`]: the tables of positions and margin balances.
//! - [`settlement`]: fills, gains and losses, liquidations.
//! - [`sync_instructions`], [`async_instructions`], [`program`]: the instructions, and the way from
//!   instruction data to an answer.
//! - [`record`]: words and keys in bytes.
//! - [`table_laws`], [`fill_laws`], [`take_laws`], [`instruction_laws`], [`program_laws`]: what each
//!   operation does, field by field.
//! - [`book_laws`], [`margin_laws`], [`position_laws`], [`queue_laws`], [`market_laws`]: what holds
//!   whatever instructions come.

pub mod async_instructions;
pub mod book_laws;
pub mod error;
pub mod fill_laws;
pub mod instruction_laws;
pub mod margin_laws;
pub mod market_laws;
pub mod order_tree;
pub mod orderbook;
pub mod position_laws;
pub mod positions;
pub mod program;
pub mod program_laws;
pub mod queue;
pub mod queue_laws;
pub mod queue_tree;
pub mod record;
pub mod settlement;
pub mod slots;
pub mod state;
pub mod sync_instructions;
pub mod table_laws;
pub mod take_laws;

pub use program::PerpsProgram;
pub use queue::{QueueAsyncArgs, QueueNode};
