pub mod templates;
