pub mod catalog;
pub mod evidence;
pub mod experiment;
pub mod mask;
pub mod planner;
pub mod probe;
pub mod transaction;
