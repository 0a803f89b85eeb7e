pub mod clock;
pub mod deadline;
