//! Engine of a dual N-back training exercise: generation of the two
//! stimulus streams and scoring of the player's answers.

pub mod accuracy;
pub mod game;
mod random;
pub mod sequence_generator;
pub mod settings;

pub use accuracy::AccuracyStats;
pub use game::{GameEvent, GameState, Stimulus, UserResponse};
pub use sequence_generator::{AuditoryStimulusSet, GenerationError};
pub use settings::UserSettings;
