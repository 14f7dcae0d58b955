//! What the bus's decisions add up to.
//!
//! The executable bus takes each decision by a function of the values it
//! loaded (`check_claim`, `check_gate`, `Slot::read_at`, `Slot::overwritten`,
//! `Event::read_as`). The two models here are built from the specifications
//! of those functions. `gating` lets any number of publishers and consumers
//! take their steps in any order and proves that no claim laps a consumer.
//! `delivery` takes a publish and a receive as one step each and proves what
//! a subscriber receives, and in which order.
//!
//! Neither model is tied to the executable bus by a proof: what a load of an
//! atomic returns is not known to the verifier. They state what follows from
//! the decisions if the shared cells behave as cells do.

pub mod delivery;
pub mod gating;
