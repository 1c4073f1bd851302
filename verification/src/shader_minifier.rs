pub mod minifier;
