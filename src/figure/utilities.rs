pub mod axistype;
pub mod linetype;
pub mod orientation;
pub mod scatterdottype;
