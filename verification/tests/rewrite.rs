use nix_query::rewrite::{
    combine_listings, field_delimiter, first_field, rewrite_attr_line, rewrite_attr_lines,
    split_into_lines,
};

#[test]
fn test_rewrite_attr_lines() {
    let input = format!(
        "{}\n{}\n{}\n",
        "nixpkgs.all-cabal-hashes                                     10e6ea0c54a4aa41de51d1d7e2314115bb2e172a.tar.gz",
        "nixpkgs.all-cabal-hashes._unpacked                           something private",
        "unstable.all-cabal-hashes                                    10e6ea0c54a4aa41de51d1d7e2314115bb2e172a.tar.gz",
    );
    assert_eq!(
        format!(
            "{}\n{}\n",
            "nixpkgs.all-cabal-hashes    10e6ea0c54a4aa41de51d1d7e2314115bb2e172a.tar.gz",
            "unstable.all-cabal-hashes    10e6ea0c54a4aa41de51d1d7e2314115bb2e172a.tar.gz",
        ),
        rewrite_attr_lines(input)
    );
}

#[test]
fn gzip_line_scenario() {
    let line = "nixpkgs.gzip                                                               gzip-1.10                                                                      GNU compression utility";
    assert_eq!(
        "nixpkgs.gzip    gzip-1.10    GNU compression utility",
        rewrite_attr_line(line)
    );
}

#[test]
fn delimiter_is_four_spaces() {
    assert_eq!("    ", field_delimiter());
}

#[test]
fn rewriting_is_idempotent() {
    let input = format!(
        "{}\n{}\n{}\n",
        "nixpkgs.gzip                gzip-1.10      GNU compression utility   ",
        "nixpkgs.internal._private   1.0            hidden",
        "nixpkgs.hello               hello-2.10     A program that produces a familiar, friendly greeting",
    );
    let once = rewrite_attr_lines(input);
    let twice = rewrite_attr_lines(once.clone());
    assert_eq!(once, twice);
}

#[test]
fn private_lines_dropped_others_kept_in_order() {
    let input = "b.second  x\na._private  y\na.first  z\n".to_string();
    let out = rewrite_attr_lines(input);
    assert_eq!("b.second    x\na.first    z\n", out);
}

#[test]
fn trailing_whitespace_trimmed() {
    let out = rewrite_attr_lines("pkg.a  1.0   \t \n".to_string());
    assert_eq!("pkg.a    1.0\n", out);
    // non-ASCII whitespace is trimmed too, as str::trim_end would
    let out2 = rewrite_attr_lines("pkg.b  2.0\u{a0}\u{2003}\n".to_string());
    assert_eq!("pkg.b    2.0\n", out2);
}

#[test]
fn single_spaces_are_kept() {
    let out = rewrite_attr_line("a b  c");
    assert_eq!("a b    c", out);
}

#[test]
fn combine_listings_in_invocation_order() {
    let parts = vec![
        "first.one   1.0   a\n".to_string(),
        "second.one        2.0        b\nsecond._hidden  2.1  c\n".to_string(),
    ];
    assert_eq!(
        "first.one    1.0    a\nsecond.one    2.0    b\n",
        combine_listings(&parts)
    );
}

#[test]
fn first_field_takes_text_before_first_space() {
    assert_eq!(Some("nixpkgs.gzip"), first_field("nixpkgs.gzip    gzip-1.10"));
    assert_eq!(Some("whole-line"), first_field("whole-line"));
    assert_eq!(Some(""), first_field(" leading"));
}

#[test]
fn empty_and_blank_listings() {
    assert_eq!("", rewrite_attr_lines(String::new()));
    assert_eq!("\n", rewrite_attr_lines("\n".to_string()));
}

#[test]
fn private_marker_outside_attr_column_is_kept() {
    // the `._` sits in the description column, not in the attribute path
    let out = rewrite_attr_lines("a  b._c\n".to_string());
    assert_eq!("a    b._c\n", out);
    // spelled out: attribute path `pkg.thing`, description mentioning `._`
    let out2 = rewrite_attr_lines("pkg.thing    1.0    uses the ._ convention\n".to_string());
    assert_eq!("pkg.thing    1.0    uses the ._ convention\n", out2);
    // but a `._` in the attribute path itself still drops the line
    assert_eq!("", rewrite_attr_lines("pkg._thing    1.0    hidden\n".to_string()));
}

#[test]
fn split_into_lines_strips_crlf_terminators() {
    assert_eq!(vec!["a".to_string(), "b".to_string()], split_into_lines("a\r\nb\n"));
    assert_eq!(vec!["a".to_string(), "b".to_string()], split_into_lines("a\nb"));
    // a final unterminated segment keeps its text as it is
    assert_eq!(vec!["x\r".to_string()], split_into_lines("x\r"));
    assert_eq!(Vec::<String>::new(), split_into_lines(""));
}
