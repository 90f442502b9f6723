pub mod sampling;
