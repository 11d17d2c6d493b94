use ruso_cli::args::{Cli, Command, LogLevel, RegistryArgs, RegistryOnlyArgs};

fn cli(quiet: u8, verbose: u8) -> Cli {
    Cli { quiet, verbose, command: Command::Logout(RegistryOnlyArgs { registry: RegistryArgs { registry: None } }) }
}

#[test]
fn verbosity_selects_level_and_filter() {
    assert_eq!(cli(0, 0).log_level(), LogLevel::Info);
    assert_eq!(cli(0, 1).log_level(), LogLevel::Debug);
    assert_eq!(cli(0, 5).log_level(), LogLevel::Trace);
    assert_eq!(cli(1, 0).log_level(), LogLevel::Warn);
    assert_eq!(cli(3, 0).log_level(), LogLevel::Error);
    assert_eq!(cli(2, 2).log_level(), LogLevel::Info);
    assert_eq!(cli(0, 0).log_filter(), "ruso=off,reqwest=off");
    assert_eq!(cli(0, 1).log_filter(), "ruso_runtime::runtime::http=debug,ruso=warn,reqwest=warn");
    assert_eq!(LogLevel::Error.default_filter(), "ruso=error,reqwest=error");
    assert!(cli(0, 1).is_verbose());
    assert!(!cli(1, 0).is_verbose());
}
