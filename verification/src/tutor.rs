pub mod app;
pub mod review;
pub mod screen;
