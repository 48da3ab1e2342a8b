pub mod get_item_funcs;
