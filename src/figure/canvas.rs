pub mod areafill;
pub mod linetrace;
pub mod markers;
pub mod pixelcanvas;
pub mod rasterfile;
pub mod svgcanvas;
pub mod textoverlay;
