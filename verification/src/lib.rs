//! Authoritative simulation core for a multiplayer arena game of growing
//! circular avatars.
//!
//! All quantities are fixed-point integers:
//! - lengths, positions, sizes and speeds are in milli-units (1/1000 of a
//!   world unit);
//! - angles are in nano-radians and trigonometric values, probabilities and
//!   decay factors are in nano-units (1/1'000'000'000), so that one full
//!   unit is `NANO`;
//! - time deltas are in whole milliseconds.
//!
//! The modules: `types` holds the world state and the directive router with
//! the well-formedness invariant; `engine` the tick's phases, their
//! specifications and the stochastic pickup spawn; `laws` the global
//! properties proved of the engine (conservation, the merge rule, the
//! boundary clamp, the zero-time no-op, the spawn probability's shape);
//! `trig` the fixed-point sine and cosine; `num` integer square roots and
//! fixed-point powers; `chain` the eaten-by resolution for spectating
//! views; `session` id allocation; `content` the file server's content-type
//! mapping; `rng` the one randomness source.

pub mod chain;
pub mod content;
pub mod engine;
pub mod laws;
pub mod num;
pub mod rng;
pub mod session;
pub mod trig;
pub mod types;

pub use chain::follow_eaten_by;
pub use content::get_content_type;
pub use session::next_player_id;
pub use trig::cos;
pub use trig::sin;
pub use types::Ball;
pub use types::IdPlayerCommand;
pub use types::Player;
pub use types::PlayerCommand;
pub use types::State;
pub use types::SynchrosizationMessage;
