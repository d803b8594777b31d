//! The registry: object-identifier paths and the schema leaves they name.

pub mod field;
pub mod veh_criteria;
pub mod leaves;
pub mod registry;
