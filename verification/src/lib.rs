pub mod cli;
pub mod order;
pub mod project;
pub mod render;
pub mod scan;
pub mod text;
