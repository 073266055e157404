pub mod money;
