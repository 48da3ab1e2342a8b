pub mod skill_funcs;
