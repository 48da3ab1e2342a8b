pub mod parsed_character;
