pub mod interactive_clap;
pub mod to_cli_args;
