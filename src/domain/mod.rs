pub mod action;
pub mod constant;
pub mod domain;
pub mod durative_action;
pub mod expression;
pub mod parameter;
pub mod predicate;
pub mod requirement;
pub mod simple_action;
pub mod typed_parameter;
pub mod typed_predicate;
pub mod typedef;
pub mod typing;
