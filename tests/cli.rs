use ptime::cli::{Cli, CliCommand, Command, CommandKind};

#[test]
fn test_oldest_with_default_dir() {
    let cli = Cli {
        command: Command::Oldest { directory: None },
    };
    let result = Cli::convert(cli).unwrap();
    assert!(matches!(result.kind, CommandKind::Oldest));
    assert_eq!(result.directory, ".");
}

#[test]
fn test_oldest_with_custom_dir() {
    let cli = Cli {
        command: Command::Oldest {
            directory: Some(String::from("/tmp/photos")),
        },
    };
    let result = Cli::convert(cli).unwrap();
    assert!(matches!(result.kind, CommandKind::Oldest));
    assert_eq!(result.directory, "/tmp/photos");
}

#[test]
fn test_latest_with_default_dir() {
    let cli = Cli {
        command: Command::Latest { directory: None },
    };
    let result = Cli::convert(cli).unwrap();
    assert!(matches!(result.kind, CommandKind::Latest));
    assert_eq!(result.directory, ".");
}

#[test]
fn test_hist_with_default_width() {
    let cli = Cli {
        command: Command::Hist {
            width: 50,
            directory: None,
        },
    };
    let result = Cli::convert(cli).unwrap();
    match result.kind {
        CommandKind::Hist { width } => assert_eq!(width, 50),
        _ => panic!("Expected Hist command"),
    }
    assert_eq!(result.directory, ".");
}

#[test]
fn test_hist_with_custom_width() {
    let cli = Cli {
        command: Command::Hist {
            width: 100,
            directory: None,
        },
    };
    let result = Cli::convert(cli).unwrap();
    match result.kind {
        CommandKind::Hist { width } => assert_eq!(width, 100),
        _ => panic!("Expected Hist command"),
    }
}

#[test]
fn test_hist_width_clamped_above_200() {
    let cli = Cli {
        command: Command::Hist {
            width: 300,
            directory: None,
        },
    };
    let result = Cli::convert(cli).unwrap();
    match result.kind {
        CommandKind::Hist { width } => assert_eq!(width, 200),
        _ => panic!("Expected Hist command"),
    }
}

#[test]
fn test_hist_width_zero_errors() {
    let cli = Cli {
        command: Command::Hist {
            width: 0,
            directory: None,
        },
    };
    let result = Cli::convert(cli);
    assert!(result.is_err());
    assert_eq!(result.unwrap_err(), "Width must be at least 1");
}

#[test]
fn test_hist_with_custom_dir() {
    let cli = Cli {
        command: Command::Hist {
            width: 50,
            directory: Some(String::from("/tmp/pics")),
        },
    };
    let result = Cli::convert(cli).unwrap();
    assert_eq!(result.directory, "/tmp/pics");
}

#[test]
fn hist_width_bounds_are_kept() {
    for (given, kept) in [(1usize, 1usize), (200, 200), (201, 200), (usize::MAX, 200)] {
        let cli = Cli {
            command: Command::Hist {
                width: given,
                directory: Some(String::from("d")),
            },
        };
        let result: CliCommand = Cli::convert(cli).unwrap();
        assert_eq!(result.kind, CommandKind::Hist { width: kept });
        assert_eq!(result.directory, "d");
    }
}
