pub mod chars;
pub mod markup;
pub mod key_map;
pub mod color_segments;
pub mod helper_funcs;
pub mod other_helper_funcs;
pub mod base_models;
pub mod materials_model;
pub mod parsed_tcg;
pub mod parsed_models;
pub mod material_funcs;
pub mod parsed_weapon;
pub mod parsed_artifact;
pub mod ascension_funcs;
pub mod hakushin_lists;
pub mod gui_funcs;
pub mod api_funcs;
pub mod character_funcs;
