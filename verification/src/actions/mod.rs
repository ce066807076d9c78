pub mod find_python_filenames;
pub mod fix_or_show_unused_code;
pub mod get_unused_names_error_message;
pub mod merge_overlapping_file_parts;
pub mod parse_arguments;
pub mod parse_tach_config;
pub mod remove_file_parts_from_content;
