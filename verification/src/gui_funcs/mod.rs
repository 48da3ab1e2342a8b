pub mod display_lists;
pub mod egui_for_lists;
