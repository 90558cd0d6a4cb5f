pub mod snake_case_to_camel_case;
pub mod to_kebab_case;
