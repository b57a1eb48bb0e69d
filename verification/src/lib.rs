//! Verified logic of a robot model editor, and of the controller that walks its
//! bipeds.

pub mod biped;
pub mod camera;
pub mod chicken_head;
pub mod collision;
pub mod dynamics;
pub mod editor;
pub mod estimator;
pub mod format;
pub mod joint_map;
pub mod order;
pub mod robot;
pub mod root;
pub mod text;
