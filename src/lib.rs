//! Finds the running pods that mount persistent volume claims of chosen
//! storage classes and drives their deletion, so that their controllers
//! recreate them.
//!
//! `correlate` selects the target pods from a snapshot of claims and pods,
//! `group` partitions them by namespace, `deletion` is the state machine of a
//! deletion pass, and `pass` ties them together.

pub mod model;
pub mod correlate;
pub mod group;
pub mod deletion;
pub mod pass;
