//! Tests for the exit-status check.

use restack::exec::format_i32;
use restack::exec::format_u64;
use restack::exec::ExitStatus;
use restack::exec::ExitStatusExt;

#[test]
fn test_exit_ok() {
    let status = ExitStatus { success: true, code: Some(0) };
    assert!(status.exit_ok().is_ok());
}

#[test]
fn test_exit_err() {
    let status = ExitStatus { success: false, code: Some(1) };
    let got_err = status.exit_ok().expect_err("expected error");

    assert_eq!(1, got_err.code);
    assert_eq!("exited with status code: 1", got_err.message());
}

#[test]
fn exit_err_without_code_reports_one() {
    let status = ExitStatus { success: false, code: None };
    let got_err = status.exit_ok().expect_err("expected error");
    assert_eq!(1, got_err.code);
}

#[test]
fn format_small_numbers() {
    assert_eq!("0", format_u64(0));
    assert_eq!("7", format_u64(7));
    assert_eq!("10", format_u64(10));
    assert_eq!("409", format_u64(409));
}

#[test]
fn format_signed_numbers() {
    assert_eq!("-12", format_i32(-12));
    assert_eq!("2147483647", format_i32(i32::MAX));
    assert_eq!("-2147483648", format_i32(i32::MIN));
}
