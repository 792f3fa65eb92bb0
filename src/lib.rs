pub mod dice;
pub mod engine;
pub mod entropy;
pub mod hex;
pub mod planet;
pub mod runner;

pub use dice::Dice;
pub use engine::Outcome;
pub use entropy::{EntropyCore, Quantum};
pub use hex::HexCoord;
pub use planet::{Archetype, PassiveEffect, Planet};
pub use runner::{DeployError, Field, FieldKind, Hostile, Progress, RiftRunner};
