use sos::cli::fsck::exit_code_for_status;
use sos::cli::fsck::parse_args as fsck_parse_args;
use sos::cli::mkfs::parse_args as mkfs_parse_args;
use sos::cli::mkfs::{format_superblock, parse_args_detailed, plan_layout, MkfsArgsError, MkfsLayout};
use sos::cli::pf::parse_args as pf_parse_args;
use sos::cli::readiness::parse_args as readiness_parse_args;
use sos::cli::readiness::exit_code;
use sos::cli::{parse_u64, ArgError};
use sos::fs::{validate_superblock, SosfsFsckStatus};

fn args(v: &[&str]) -> Vec<String> {
    v.iter().map(|s| s.to_string()).collect()
}

#[test]
fn test_exit_code_for_status() {
    assert_eq!(exit_code_for_status(SosfsFsckStatus::Clean, false), 0);
    assert_eq!(exit_code_for_status(SosfsFsckStatus::Warn, false), 1);
    assert_eq!(exit_code_for_status(SosfsFsckStatus::Warn, true), 2);
    assert_eq!(exit_code_for_status(SosfsFsckStatus::Corrupt, false), 2);
}

#[test]
fn test_parse_args_invalid_paths_and_help() {
    let missing_image_value = args(&["fsck-sosfs", "--image"]);
    assert!(fsck_parse_args(&missing_image_value).is_err());

    let missing_image_flag = args(&["fsck-sosfs"]);
    assert!(fsck_parse_args(&missing_image_flag).is_err());

    let unknown = args(&["fsck-sosfs", "--wat"]);
    assert!(fsck_parse_args(&unknown).is_err());
    assert_eq!(fsck_parse_args(&unknown), Err(ArgError::UnknownOption("--wat".to_string())));

    let help = args(&["fsck-sosfs", "--help"]);
    assert!(fsck_parse_args(&help).is_err());
    assert_eq!(fsck_parse_args(&help), Err(ArgError::Help));
}

#[test]
fn test_parse_args_valid_strict() {
    let valid = args(&["fsck-sosfs", "--image", "/tmp/a.img", "--strict"]);
    let (path, strict) = fsck_parse_args(&valid).expect("valid parse args");
    assert_eq!(path, "/tmp/a.img");
    assert!(strict);
    let lenient = args(&["fsck-sosfs", "--image", "/tmp/a.img", "--image", "/tmp/b.img"]);
    assert_eq!(fsck_parse_args(&lenient), Ok(("/tmp/b.img".to_string(), false)));
}

#[test]
fn test_parse_u64_rejects_invalid() {
    assert!(parse_u64("blocks", "nope").is_err());
    assert_eq!(
        parse_u64("blocks", "nope"),
        Err("invalid value for blocks: nope".to_string())
    );
    assert_eq!(parse_u64("blocks", "64"), Ok(64));
    assert_eq!(parse_u64("blocks", "+7"), Ok(7));
    assert_eq!(parse_u64("blocks", "18446744073709551615"), Ok(u64::MAX));
    assert!(parse_u64("blocks", "18446744073709551616").is_err());
    assert!(parse_u64("blocks", "").is_err());
    assert!(parse_u64("blocks", "+").is_err());
    assert!(parse_u64("blocks", "-1").is_err());
    assert!(parse_u64("blocks", " 1").is_err());
}

#[test]
fn test_parse_args_paths() {
    let help = args(&["mkfs-sosfs", "--help"]);
    assert_eq!(mkfs_parse_args(&help), Err(0));

    let unknown = args(&["mkfs-sosfs", "--wat"]);
    assert_eq!(mkfs_parse_args(&unknown), Err(2));

    let missing_image = args(&["mkfs-sosfs", "--blocks", "64"]);
    assert_eq!(mkfs_parse_args(&missing_image), Err(2));

    let bad_blocks = args(&["mkfs-sosfs", "--image", "/tmp/a.img", "--blocks", "16"]);
    assert_eq!(mkfs_parse_args(&bad_blocks), Err(2));

    let valid = args(&[
        "mkfs-sosfs",
        "--image",
        "/tmp/b.img",
        "--blocks",
        "64",
        "--wal-blocks",
        "8",
        "--index-blocks",
        "8",
    ]);
    let parsed = mkfs_parse_args(&valid).expect("valid parse args");
    assert_eq!(parsed.0, "/tmp/b.img");
    assert_eq!(parsed.1, 64);
    assert_eq!(parsed.2, 8);
    assert_eq!(parsed.3, 8);
}

#[test]
fn mkfs_parse_args_details_and_defaults() {
    let defaults = args(&["mkfs-sosfs", "--image", "x", "--blocks", "100"]);
    assert_eq!(
        parse_args_detailed(&defaults),
        Ok(("x".to_string(), 100, 2048, 1024))
    );
    let bad_value = args(&["mkfs-sosfs", "--wal-blocks", "lots"]);
    assert_eq!(
        parse_args_detailed(&bad_value),
        Err(MkfsArgsError::InvalidValue("invalid value for wal-blocks: lots".to_string()))
    );
    let missing_value = args(&["mkfs-sosfs", "--blocks"]);
    assert_eq!(parse_args_detailed(&missing_value), Err(MkfsArgsError::Usage));
    let no_blocks = args(&["mkfs-sosfs", "--image", "x"]);
    assert_eq!(parse_args_detailed(&no_blocks), Err(MkfsArgsError::TooFewBlocks));
}

#[test]
fn mkfs_layout_and_superblock() {
    assert_eq!(plan_layout(32, 24, 16), None);
    assert_eq!(plan_layout(20, 9, 9), None);
    let layout = plan_layout(4096, 128, 128).expect("layout");
    assert_eq!(
        layout,
        MkfsLayout {
            data_start_lba: 258,
            data_blocks: 3838,
            total_bytes: 4096 * 4096
        }
    );
    let sb = format_superblock(layout, 128, 128, [3u8; 16], [4u8; 32]);
    let info = validate_superblock(&sb).expect("valid superblock");
    assert_eq!(info.active_generation, 1);
    assert_eq!(info.fs_uuid, [3u8; 16]);
}

#[test]
fn parse_args_supports_all_commands() {
    assert!(pf_parse_args(&args(&["sos-pf"])).is_err());

    let check = pf_parse_args(&args(&["sos-pf", "check", "--config", "a.yaml"])).expect("check args");
    assert_eq!(check.0, "check");

    let apply = pf_parse_args(&args(&["sos-pf", "apply", "--config", "a.yaml"])).expect("apply args");
    assert_eq!(apply.0, "apply");

    let export =
        pf_parse_args(&args(&["sos-pf", "export", "--config", "a.yaml"])).expect("export args");
    assert_eq!(export.0, "export");
    assert_eq!(export.1.as_deref(), Some("a.yaml"));

    let export_running =
        pf_parse_args(&args(&["sos-pf", "export-running"])).expect("export-running args");
    assert_eq!(export_running.0, "export-running");
    assert!(export_running.1.is_none());
}

#[test]
fn parse_args_rejects_missing_config_for_check() {
    assert!(pf_parse_args(&args(&["sos-pf", "check"])).is_err());
    assert!(pf_parse_args(&args(&["sos-pf", "export-running", "--config", "a"])).is_err());
    assert!(pf_parse_args(&args(&["sos-pf", "check", "--help"])).is_err());
    assert!(pf_parse_args(&args(&["sos-pf", "frobnicate", "--config", "a"])).is_err());
}

#[test]
fn parse_args_accepts_strict() {
    let a = args(&["sos-readiness", "--strict"]);
    assert_eq!(readiness_parse_args(&a), Ok(true));
    assert_eq!(readiness_parse_args(&args(&["sos-readiness"])), Ok(false));
}

#[test]
fn parse_args_rejects_unknown() {
    let a = args(&["sos-readiness", "--bad"]);
    assert!(readiness_parse_args(&a).is_err());
    assert_eq!(readiness_parse_args(&args(&["sos-readiness", "-h"])), Err(ArgError::Help));
    assert_eq!(exit_code(true), 0);
    assert_eq!(exit_code(false), 2);
}
