use denote::cli::{log_filter, Cli, Command};

#[test]
fn log_filters() {
    assert_eq!(log_filter(false, false), "denote=info");
    assert_eq!(log_filter(true, false), "denote=debug");
    assert_eq!(log_filter(true, true), "error");
    assert_eq!(log_filter(false, true), "error");
}

#[test]
fn cli_values() {
    let c = Cli { command: Command::Init { repo: "~/n".into(), remote: None }, config: None, verbose: false, quiet: false };
    assert!(matches!(c.command, Command::Init { ref repo, remote: None } if repo == "~/n"));
}
