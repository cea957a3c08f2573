//! Per-process metadata cleanup and the termination signal choice.

use gpumon::process_ops::{clean_cmdline, kill_signal, resolve_name_text, unknown_token};

#[test]
fn cmdline_nulls_become_spaces() {
    let raw = Some(b"/usr/bin/app\0--flag\0value\0".to_vec());
    assert_eq!(clean_cmdline(&raw), b"/usr/bin/app --flag value".to_vec());
}

#[test]
fn cmdline_is_trimmed() {
    let raw = Some(b" /bin/sh\n".to_vec());
    assert_eq!(clean_cmdline(&raw), b"/bin/sh".to_vec());
}

#[test]
fn empty_cmdline_reads_unknown() {
    assert_eq!(clean_cmdline(&Some(Vec::new())), b"Unknown".to_vec());
    assert_eq!(clean_cmdline(&Some(vec![0, 0, 32])), b"Unknown".to_vec());
    assert_eq!(clean_cmdline(&None), b"Unknown".to_vec());
}

#[test]
fn unknown_token_spells_unknown() {
    assert_eq!(unknown_token(), b"Unknown".to_vec());
}

#[test]
fn process_name_is_trimmed_or_unknown() {
    assert_eq!(resolve_name_text(&Some(String::from("firefox\n"))), "firefox");
    assert_eq!(resolve_name_text(&None), "Unknown");
}

#[test]
fn kill_signal_is_sigkill_or_sigterm() {
    assert_eq!(kill_signal(true), 9);
    assert_eq!(kill_signal(false), 15);
}
