pub mod character;
pub mod hakushin_lists;
pub mod tcg_cards;
pub mod terms;
pub mod weapon;
