pub mod helper_funcs;
pub mod character_error;
pub mod python_commune;
pub mod read_and_write_funcs;
