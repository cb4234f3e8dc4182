use nix_query::cache::{
    cache_exists, clear_cache, ensure_cache, read_cache, write_cache, CacheFile, CacheIoError,
};
use nix_query::proc::{classify_command_output, CommandError};

#[test]
fn cache_round_trip_is_byte_identical() {
    let mut c = CacheFile { contents: None };
    let listing = "nixpkgs.gzip    gzip-1.10    GNU compression utility\n";
    write_cache(&mut c, listing).unwrap();
    assert!(cache_exists(&c));
    assert_eq!(listing, read_cache(&c).unwrap());
}

#[test]
fn clearing_an_absent_cache_succeeds() {
    let mut c = CacheFile { contents: None };
    assert!(clear_cache(&mut c).is_ok());
    assert!(!cache_exists(&c));
    write_cache(&mut c, "something").unwrap();
    assert!(clear_cache(&mut c).is_ok());
    assert!(!cache_exists(&c));
    assert!(read_cache(&c).is_err());
}

#[test]
fn ensure_cache_reads_through_on_hit() {
    let mut c = CacheFile { contents: Some("cached listing\n".to_string()) };
    let got = ensure_cache(
        &mut c,
        Err(CommandError::Stderr("must not be consulted".to_string())),
    )
    .unwrap();
    assert_eq!("cached listing\n", got);
    assert_eq!(Some("cached listing\n".to_string()), c.contents);
}

#[test]
fn ensure_cache_populates_on_miss() {
    let mut c = CacheFile { contents: None };
    let got = ensure_cache(&mut c, Ok("fresh listing\n".to_string())).unwrap();
    assert_eq!("fresh listing\n", got);
    assert_eq!(Some("fresh listing\n".to_string()), c.contents);
}

#[test]
fn ensure_cache_propagates_command_failure() {
    let mut c = CacheFile { contents: None };
    let r = ensure_cache(&mut c, Err(CommandError::Encoding));
    assert_eq!(Err(CacheIoError::Command(CommandError::Encoding)), r);
    assert!(c.contents.is_none());
}

#[test]
fn classifier_exit_status_wins() {
    let r = classify_command_output(
        false,
        Some(2),
        false,
        Some("noise".to_string()),
        Some("out".to_string()),
    );
    assert_eq!(Err(CommandError::ExitStatus(Some(2))), r);
}

#[test]
fn classifier_stderr_fails_even_with_zero_status() {
    let r = classify_command_output(
        true,
        Some(0),
        false,
        Some("warning: things".to_string()),
        Some("out".to_string()),
    );
    assert_eq!(Err(CommandError::Stderr("warning: things".to_string())), r);
}

#[test]
fn classifier_encoding_failures() {
    let r = classify_command_output(true, Some(0), false, None, Some("out".to_string()));
    assert_eq!(Err(CommandError::Encoding), r);
    let r2 = classify_command_output(true, Some(0), true, None, None);
    assert_eq!(Err(CommandError::Encoding), r2);
}

#[test]
fn classifier_success_hands_stdout_back() {
    let r = classify_command_output(true, Some(0), true, None, Some("the output".to_string()));
    assert_eq!(Ok("the output".to_string()), r);
}
