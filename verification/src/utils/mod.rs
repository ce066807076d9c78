pub mod add_colors_to_diff;
pub mod bytes;
pub mod fix_indent;
pub mod fnmatch;
pub mod line_index;
pub mod name_set;
pub mod nested_scopes;
pub mod path_order;
pub mod path_utils;
pub mod regex_support;
pub mod sorting;
pub mod text;
pub mod toml_support;
