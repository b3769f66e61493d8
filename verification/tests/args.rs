//! Argument parsing and build-mode dispatch.

use fossil_mmr::cli::Args;
use fossil_mmr::cli::BuildMode;
use fossil_mmr::cli::select_build_mode;
use fossil_mmr::common::get_var;
use fossil_mmr::common::parse_u64;
use fossil_mmr::common::CommonError;

fn argv(parts: &[&str]) -> Vec<String> {
    parts.iter().map(|p| p.to_string()).collect()
}

#[test]
fn test_args_default_values() {
    let args = Args::try_parse_from(&argv(&["test"])).unwrap();
    assert_eq!(args.batch_size, 1024);
    assert_eq!(args.skip_proof, false);
    assert_eq!(args.env_file, ".env");
    assert_eq!(args.from_latest, false);
    assert!(args.num_batches.is_none());
    assert!(args.start_block.is_none());
}

#[test]
fn test_custom_batch_size() {
    let args = Args::try_parse_from(&argv(&["test", "--batch-size", "2048"])).unwrap();
    assert_eq!(args.batch_size, 2048);
}

#[test]
fn test_invalid_batch_size() {
    let result = Args::try_parse_from(&argv(&["test", "--batch-size", "invalid"]));
    assert!(result.is_err());
    let err = result.unwrap_err();
    assert!(err.message().contains("invalid digit found in string"));
}

#[test]
fn test_conflicting_args() {
    let result = select_build_mode(true, Some(100), None);
    assert!(result.is_err());
    assert_eq!(
        result.unwrap_err(),
        "Cannot specify both --from-latest and --start-block"
    );
}

#[test]
fn test_all_flags_parse() {
    let args = Args::try_parse_from(&argv(&[
        "test",
        "-b",
        "8",
        "--num-batches",
        "3",
        "--skip-proof",
        "-e",
        "local.env",
        "--start-block",
        "42",
    ]))
    .unwrap();
    assert_eq!(args.batch_size, 8);
    assert_eq!(args.num_batches, Some(3));
    assert!(args.skip_proof);
    assert_eq!(args.env_file, "local.env");
    assert_eq!(args.start_block, Some(42));
    assert!(!args.from_latest);
}

#[test]
fn test_unknown_flag_rejected() {
    let result = Args::try_parse_from(&argv(&["test", "--bogus"]));
    assert!(result.is_err());
    assert!(result.unwrap_err().message().contains("unexpected argument"));
}

#[test]
fn test_missing_value_rejected() {
    let result = Args::try_parse_from(&argv(&["test", "--start-block"]));
    assert!(result.is_err());
    assert!(result.unwrap_err().message().contains("missing value"));
}

#[test]
fn test_build_mode_dispatch() {
    assert!(matches!(
        select_build_mode(false, None, None),
        Ok(BuildMode::FromFinalized)
    ));
    assert!(matches!(
        select_build_mode(false, None, Some(3)),
        Ok(BuildMode::WithNumBatches(3))
    ));
    assert!(matches!(
        select_build_mode(false, Some(7), None),
        Ok(BuildMode::FromBlock(7))
    ));
    assert!(matches!(
        select_build_mode(false, Some(7), Some(2)),
        Ok(BuildMode::FromBlockWithBatches(7, 2))
    ));
    assert!(matches!(
        select_build_mode(true, None, None),
        Ok(BuildMode::FromLatest)
    ));
    assert!(matches!(
        select_build_mode(true, None, Some(5)),
        Ok(BuildMode::FromLatestWithBatches(5))
    ));
}

#[test]
fn test_parse_u64_bounds() {
    assert!(matches!(parse_u64("0"), Ok(0)));
    assert!(matches!(parse_u64("18446744073709551615"), Ok(u64::MAX)));
    assert!(parse_u64("18446744073709551616").is_err());
    assert!(parse_u64("").is_err());
    assert!(parse_u64("12x").is_err());
    // A single leading plus sign is accepted, as the standard library does.
    assert!(matches!(parse_u64("+5"), Ok(5)));
    assert!(parse_u64("+").is_err());
    assert!(parse_u64("++5").is_err());
    assert!(parse_u64("-5").is_err());
}

#[test]
fn test_get_var_parses_environment_value() {
    assert!(matches!(get_var("CHAIN_ID", Some("11155111")), Ok(11155111)));
    assert!(matches!(
        get_var("CHAIN_ID", None),
        Err(CommonError::EnvVarNotSet(_))
    ));
    match get_var("CHAIN_ID", Some("abc")) {
        Err(CommonError::ParseError(name, msg)) => {
            assert_eq!(name, "CHAIN_ID");
            assert!(msg.contains("invalid digit found in string"));
        }
        other => panic!("unexpected outcome: {:?}", other),
    }
}
