pub mod action;
pub mod durative_action;
pub mod plan;
pub mod simple_action;
