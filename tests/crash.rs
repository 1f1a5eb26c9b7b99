use angora_core::crash::{CrashInfo, Crashes};

const REPORT: &str = "noise before\n==1234==ERROR: AddressSanitizer: heap-buffer-overflow on address 0x1\nREAD of size 4\n    #0 0x4005 in foo /src/a.c:10\n    #1 0x4010 in main /src/a.c:20\r\nSUMMARY: AddressSanitizer: heap-buffer-overflow /src/a.c:10 in foo\n";

#[test]
fn error_kind_is_third_word() {
    let c = CrashInfo::from_output_string(REPORT);
    assert_eq!(c.error, b"heap-buffer-overflow".to_vec());
    assert_eq!(c.stack_hash.len(), 32);
}

#[test]
fn same_frames_same_hash() {
    let a = CrashInfo::from_output_string(REPORT);
    let other = REPORT.replace("noise before", "other noise");
    let b = CrashInfo::from_output_string(&other);
    assert_eq!(a, b);
}

#[test]
fn altered_frame_changes_hash() {
    let a = CrashInfo::from_output_string(REPORT);
    let changed = REPORT.replace("/src/a.c:20", "/src/a.c:21");
    let b = CrashInfo::from_output_string(&changed);
    assert_ne!(a.stack_hash, b.stack_hash);
    assert_eq!(a.error, b.error);
}

#[test]
fn frames_before_the_error_line_do_not_count() {
    let a = CrashInfo::from_output_string(REPORT);
    let with_early = format!("    #9 0x1 in early /x.c:1\n{}", REPORT);
    let b = CrashInfo::from_output_string(&with_early);
    assert_eq!(a, b);
}

#[test]
fn hash_of_empty_report() {
    // The digest of the empty string.
    let c = CrashInfo::from_output_string("");
    assert_eq!(c.stack_hash[0..4].to_vec(), vec![0xe3, 0xb0, 0xc4, 0x42]);
    assert!(c.error.is_empty());
}

#[test]
fn dedup_keeps_one_per_hash() {
    let mut crashes = Crashes::new();
    assert_eq!(crashes.dedup_crash(REPORT), (true, true, 1));
    assert_eq!(crashes.dedup_crash(REPORT), (false, false, 1));
    assert_eq!(crashes.len(), 1);
    let changed = REPORT.replace("foo /src/a.c:10\n", "bar /src/b.c:3\n");
    assert_eq!(crashes.dedup_crash(&changed), (true, true, 1));
    assert_eq!(crashes.len(), 2);
}
