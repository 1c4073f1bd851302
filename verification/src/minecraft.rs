pub mod builtin_files;
