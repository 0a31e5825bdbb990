use lock::cli::{Cli, CliError, Command, WitnessAction};

#[test]
fn parse_no_args() {
    let cli = Cli::try_parse_from(&["lock"]).unwrap();
    assert!(cli.command.is_none());
    assert!(cli.input.is_none());
    assert!(cli.dataset_id.is_none());
    assert!(cli.as_of.is_none());
    assert!(cli.note.is_none());
    assert!(!cli.no_witness);
    assert!(!cli.describe);
    assert!(!cli.schema);
}

#[test]
fn parse_input_file() {
    let cli = Cli::try_parse_from(&["lock", "dataset.jsonl"]).unwrap();
    assert_eq!(cli.input, Some("dataset.jsonl".to_string()));
}

#[test]
fn parse_all_metadata_flags() {
    let cli = Cli::try_parse_from(&[
        "lock",
        "--dataset-id",
        "raw-dec",
        "--as-of",
        "2025-12-31T23:59:59Z",
        "--note",
        "Final delivery",
        "input.jsonl",
    ])
    .unwrap();
    assert_eq!(cli.dataset_id.as_deref(), Some("raw-dec"));
    assert_eq!(cli.as_of.as_deref(), Some("2025-12-31T23:59:59Z"));
    assert_eq!(cli.note.as_deref(), Some("Final delivery"));
    assert_eq!(cli.input, Some("input.jsonl".to_string()));
}

#[test]
fn parse_no_witness_flag() {
    let cli = Cli::try_parse_from(&["lock", "--no-witness"]).unwrap();
    assert!(cli.no_witness);
}

#[test]
fn parse_describe_flag() {
    let cli = Cli::try_parse_from(&["lock", "--describe"]).unwrap();
    assert!(cli.describe);
}

#[test]
fn parse_schema_flag() {
    let cli = Cli::try_parse_from(&["lock", "--schema"]).unwrap();
    assert!(cli.schema);
}

#[test]
fn parse_witness_query() {
    let cli = Cli::try_parse_from(&[
        "lock",
        "witness",
        "query",
        "--tool",
        "lock",
        "--since",
        "2026-01-01T00:00:00Z",
        "--outcome",
        "LOCK_CREATED",
        "--limit",
        "10",
        "--json",
    ])
    .unwrap();
    match &cli.command {
        Some(Command::Witness {
            action: WitnessAction::Query { filters, limit, json },
        }) => {
            assert_eq!(filters.tool.as_deref(), Some("lock"));
            assert_eq!(filters.since.as_deref(), Some("2026-01-01T00:00:00Z"));
            assert_eq!(filters.outcome.as_deref(), Some("LOCK_CREATED"));
            assert_eq!(*limit, 10);
            assert!(*json);
        }
        other => panic!("expected Witness/Query, got {other:?}"),
    }
}

#[test]
fn parse_witness_last() {
    let cli = Cli::try_parse_from(&["lock", "witness", "last", "--json"]).unwrap();
    match &cli.command {
        Some(Command::Witness {
            action: WitnessAction::Last { json },
        }) => {
            assert!(*json);
        }
        other => panic!("expected Witness/Last, got {other:?}"),
    }
}

#[test]
fn parse_witness_count() {
    let cli = Cli::try_parse_from(&[
        "lock",
        "witness",
        "count",
        "--tool",
        "hash",
        "--input-hash",
        "a1b2c3",
        "--json",
    ])
    .unwrap();
    match &cli.command {
        Some(Command::Witness {
            action: WitnessAction::Count { filters, json },
        }) => {
            assert_eq!(filters.tool.as_deref(), Some("hash"));
            assert_eq!(filters.input_hash.as_deref(), Some("a1b2c3"));
            assert!(*json);
        }
        other => panic!("expected Witness/Count, got {other:?}"),
    }
}

#[test]
fn parse_witness_query_with_until() {
    let cli = Cli::try_parse_from(&["lock", "witness", "query", "--until", "2026-02-01T00:00:00Z"]).unwrap();
    match &cli.command {
        Some(Command::Witness {
            action: WitnessAction::Query { filters, .. },
        }) => {
            assert_eq!(filters.until.as_deref(), Some("2026-02-01T00:00:00Z"));
        }
        other => panic!("expected Witness/Query, got {other:?}"),
    }
}

#[test]
fn reject_unknown_flag() {
    let result = Cli::try_parse_from(&["lock", "--bogus"]);
    assert!(result.is_err());
}

#[test]
fn unknown_word_parsed_as_input_file() {
    let cli = Cli::try_parse_from(&["lock", "frobnicate"]).unwrap();
    assert_eq!(cli.input, Some("frobnicate".to_string()));
    assert!(cli.command.is_none());
}

#[test]
fn witness_query_limit_defaults_to_twenty() {
    let cli = Cli::try_parse_from(&["lock", "witness", "query"]).unwrap();
    match &cli.command {
        Some(Command::Witness {
            action: WitnessAction::Query { limit, json, .. },
        }) => {
            assert_eq!(*limit, 20);
            assert!(!*json);
        }
        other => panic!("expected Witness/Query, got {other:?}"),
    }
}

#[test]
fn witness_query_rejects_non_numeric_limit() {
    let result = Cli::try_parse_from(&["lock", "witness", "query", "--limit", "ten"]);
    assert_eq!(result.unwrap_err(), CliError::InvalidValue("ten".to_string()));
}

#[test]
fn missing_flag_value_is_an_error() {
    let result = Cli::try_parse_from(&["lock", "--note"]);
    assert_eq!(result.unwrap_err(), CliError::MissingValue("--note".to_string()));
}

#[test]
fn parse_verify_subcommand() {
    let cli = Cli::try_parse_from(&["lock", "verify", "a.lock.json", "--root", "data", "--strict", "--json"]).unwrap();
    match &cli.command {
        Some(Command::Verify(args)) => {
            assert_eq!(args.lockfile, "a.lock.json");
            assert_eq!(args.root.as_deref(), Some("data"));
            assert!(args.strict);
            assert!(args.json);
            assert!(!args.no_witness);
        }
        other => panic!("expected Verify, got {other:?}"),
    }
}

#[test]
fn repeated_flags_and_extra_words_are_rejected() {
    assert_eq!(Cli::try_parse_from(&["lock", "--note", "a", "--note", "b"]).unwrap_err(), CliError::Repeated("--note".to_string()));
    assert_eq!(Cli::try_parse_from(&["lock", "--schema", "--schema"]).unwrap_err(), CliError::Repeated("--schema".to_string()));
    assert_eq!(Cli::try_parse_from(&["lock", "a.jsonl", "b.jsonl"]).unwrap_err(), CliError::UnexpectedArgument("b.jsonl".to_string()));
    assert!(Cli::try_parse_from(&["lock", "a.jsonl", "witness", "last"]).is_err());
}

#[test]
fn subcommand_tails_follow_their_grammar() {
    assert!(Cli::try_parse_from(&["lock", "witness"]).is_err());
    assert!(Cli::try_parse_from(&["lock", "witness", "last", "--tool", "x"]).is_err());
    assert!(Cli::try_parse_from(&["lock", "witness", "count", "--limit", "3"]).is_err());
    assert!(Cli::try_parse_from(&["lock", "verify"]).is_err());
    assert!(Cli::try_parse_from(&["lock", "verify", "a", "b"]).is_err());
    assert!(Cli::try_parse_from(&["lock", "verify", "a", "--root"]).is_err());
    let cli = Cli::try_parse_from(&["lock", "--no-witness", "--note", "n", "verify", "--json", "x.lock.json"]).unwrap();
    assert!(cli.no_witness);
    assert_eq!(cli.note.as_deref(), Some("n"));
    match cli.command {
        Some(Command::Verify(args)) => {
            assert_eq!(args.lockfile, "x.lock.json");
            assert!(args.json);
            assert!(args.root.is_none());
        }
        other => panic!("expected Verify, got {other:?}"),
    }
}
