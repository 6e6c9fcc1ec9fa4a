pub mod winop;
