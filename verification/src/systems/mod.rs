//! The stages that a tick runs, in the order in which it runs them.
pub mod destination_to_velocity;
pub mod handle_commands;
pub mod remove_destination_on_arrival;
pub mod velocity_to_position;
