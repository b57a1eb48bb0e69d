//! The editor around the robot model: what its panels decide and change.

pub mod balance;
pub mod console;
pub mod display;
pub mod drag;
pub mod edit;
pub mod export;
pub mod frame;
pub mod indicator;
pub mod overlay;
pub mod panels;
pub mod poses;
pub mod properties;
pub mod shapes;
pub mod sim_drag;
pub mod state;
pub mod tree;
pub mod viewport;
