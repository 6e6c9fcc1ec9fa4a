pub mod canvas;
pub mod display;
pub mod figurefactory;
pub mod utilities;
