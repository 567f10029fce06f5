mod clock;
pub mod model;
pub mod program;
pub mod report;
pub mod sale;
pub mod steps;
pub mod text;
