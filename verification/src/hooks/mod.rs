pub mod hw;
