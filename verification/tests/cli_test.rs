use time_checker::cli::{validate_period, Cli, Commands};
use time_checker::error::TimeCheckerError;

fn argv(parts: &[&str]) -> Vec<String> {
    let mut v: Vec<String> = Vec::new();
    for p in parts {
        v.push(p.to_string());
    }
    v
}

#[test]
fn test_cli_start_command() {
    let args = argv(&["time-checker", "start", "プログラミング"]);
    let cli = Cli::parse_from(&args).expect("parse failed");

    match cli.command {
        Commands::Start { task, note } => {
            assert_eq!(task, "プログラミング");
            assert_eq!(note, None);
        }
        _ => panic!("Expected Start command"),
    }
}

#[test]
fn test_cli_start_command_with_note() {
    let args = argv(&["time-checker", "start", "ドキュメント作成", "--note", "設計書更新"]);
    let cli = Cli::parse_from(&args).expect("parse failed");

    match cli.command {
        Commands::Start { task, note } => {
            assert_eq!(task, "ドキュメント作成");
            assert_eq!(note, Some("設計書更新".to_string()));
        }
        _ => panic!("Expected Start command"),
    }
}

#[test]
fn test_cli_start_command_with_note_short() {
    let args = argv(&["time-checker", "start", "会議", "-n", "週次定例"]);
    let cli = Cli::parse_from(&args).expect("parse failed");

    match cli.command {
        Commands::Start { task, note } => {
            assert_eq!(task, "会議");
            assert_eq!(note, Some("週次定例".to_string()));
        }
        _ => panic!("Expected Start command"),
    }
}

#[test]
fn test_cli_stop_command() {
    let args = argv(&["time-checker", "stop"]);
    let cli = Cli::parse_from(&args).expect("parse failed");

    match cli.command {
        Commands::Stop => {}
        _ => panic!("Expected Stop command"),
    }
}

#[test]
fn test_cli_status_command() {
    let args = argv(&["time-checker", "status"]);
    let cli = Cli::parse_from(&args).expect("parse failed");

    match cli.command {
        Commands::Status => {}
        _ => panic!("Expected Status command"),
    }
}

#[test]
fn test_cli_show_command_default() {
    let args = argv(&["time-checker", "show"]);
    let cli = Cli::parse_from(&args).expect("parse failed");

    match cli.command {
        Commands::Show { period } => {
            assert_eq!(period, "today");
        }
        _ => panic!("Expected Show command"),
    }
}

#[test]
fn test_cli_show_command_with_period() {
    let args = argv(&["time-checker", "show", "week"]);
    let cli = Cli::parse_from(&args).expect("parse failed");

    match cli.command {
        Commands::Show { period } => {
            assert_eq!(period, "week");
        }
        _ => panic!("Expected Show command"),
    }
}

#[test]
fn test_cli_task_with_spaces() {
    let args = argv(&["time-checker", "start", "バグ修正 issue #123"]);
    let cli = Cli::parse_from(&args).expect("parse failed");

    match cli.command {
        Commands::Start { task, note } => {
            assert_eq!(task, "バグ修正 issue #123");
            assert_eq!(note, None);
        }
        _ => panic!("Expected Start command"),
    }
}

#[test]
fn test_cli_rejects_missing_task() {
    let args = argv(&["time-checker", "start"]);
    assert!(Cli::parse_from(&args).is_none());
}

#[test]
fn test_cli_rejects_unknown_subcommand() {
    let args = argv(&["time-checker", "pause"]);
    assert!(Cli::parse_from(&args).is_none());
}

#[test]
fn test_cli_rejects_missing_note_value() {
    let args = argv(&["time-checker", "start", "作業", "--note"]);
    assert!(Cli::parse_from(&args).is_none());
}

#[test]
fn test_cli_rejects_extra_arguments() {
    let args = argv(&["time-checker", "stop", "now"]);
    assert!(Cli::parse_from(&args).is_none());
    let args2 = argv(&["time-checker", "show", "today", "please"]);
    assert!(Cli::parse_from(&args2).is_none());
}

#[test]
fn test_validate_period() {
    assert!(validate_period(&"today".to_string()).is_ok());
    let err = validate_period(&"week".to_string()).unwrap_err();
    match err {
        TimeCheckerError::InvalidPeriod(p) => assert_eq!(p, "week"),
        _ => panic!("Expected InvalidPeriod"),
    }
}
