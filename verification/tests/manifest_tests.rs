use lfstage::manifest::{is_comment, parse_dl, parse_manifest, split_lines, strip_comment_part};
use lfstage::manifest::{Descriptor, ParseError};

fn parse_one(line: &str) -> Descriptor {
    match parse_dl(line) {
        Ok(d) => d,
        Err(ParseError::InvalidDescriptor(l)) => panic!("unexpected parse failure on {l}"),
    }
}

#[test]
fn derived_destination() {
    let d = parse_one("https://x.org/a/b-1.0.tar.gz");
    assert_eq!(d.url, "https://x.org/a/b-1.0.tar.gz");
    assert_eq!(d.dest, "b-1.0.tar.gz");
}

#[test]
fn explicit_destination() {
    let d = parse_one("https://x.org/patch -> renamed.patch");
    assert_eq!(d.url, "https://x.org/patch");
    assert_eq!(d.dest, "renamed.patch");
}

#[test]
fn comments_and_blanks_yield_nothing() {
    let manifest = "# comment\n; comment\n// comment\n\n   \n\t\n";
    let dls = parse_manifest(manifest).expect("comments and blanks must parse");
    assert!(dls.is_empty());
    assert!(is_comment("# comment"));
    assert!(is_comment("; comment"));
    assert!(is_comment("// comment"));
    assert!(is_comment(""));
    assert!(is_comment("   "));
    assert!(is_comment("  # indented comment"));
}

#[test]
fn whitespace_is_unicode() {
    // Leading whitespace before a comment opener covers the whole Unicode
    // White_Space set, not just the blank and the tab.
    assert!(is_comment("\u{000B}# x"));
    assert!(is_comment("\u{00A0}; x"));
    assert!(is_comment("\u{2003}// x"));
    assert!(is_comment("\u{3000}"));
    // The right-trim after an inline-comment cut strips Unicode whitespace
    // too.
    assert_eq!(strip_comment_part("a\u{00A0} # x"), "a");
    assert_eq!(strip_comment_part("a\u{2009}\u{000B} ; x"), "a");
}

#[test]
fn marker_needs_the_space() {
    // Without the space these are not comment lines; without a slash they
    // are invalid descriptors.
    assert!(!is_comment("#comment"));
    assert!(!is_comment(";comment"));
    assert!(!is_comment("//comment"));
    assert!(parse_dl("#comment").is_err());
}

#[test]
fn inline_comment_stripped() {
    let dls = parse_manifest("https://x.org/a.gz # note").expect("must parse");
    assert_eq!(dls.len(), 1);
    assert_eq!(dls[0].url, "https://x.org/a.gz");
    assert_eq!(dls[0].dest, "a.gz");

    assert_eq!(strip_comment_part("https://x.org/a.gz # note"), "https://x.org/a.gz");
    assert_eq!(strip_comment_part("https://x.org/a.gz // note"), "https://x.org/a.gz");
    assert_eq!(strip_comment_part("https://x.org/a.gz ; note"), "https://x.org/a.gz");
    assert_eq!(strip_comment_part("no comment here"), "no comment here");
}

#[test]
fn earliest_marker_wins() {
    assert_eq!(strip_comment_part("a ; b # c"), "a");
    assert_eq!(strip_comment_part("a # b ; c"), "a");
    assert_eq!(strip_comment_part("a // b # c"), "a");
    // Right-trim applies only after a cut.
    assert_eq!(strip_comment_part("a   # b"), "a");
    assert_eq!(strip_comment_part("a   "), "a   ");
}

#[test]
fn invalid_lines_rejected() {
    assert!(matches!(
        parse_dl("no-slash-anywhere"),
        Err(ParseError::InvalidDescriptor(l)) if l == "no-slash-anywhere"
    ));
    // A trailing slash derives an empty destination.
    assert!(parse_dl("https://x.org/").is_err());
    // An explicit empty destination is rejected too.
    assert!(parse_dl("https://x.org/a -> ").is_err());
    // The first invalid line rejects the whole manifest.
    assert!(matches!(
        parse_manifest("https://x.org/ok.gz\nbadline\nhttps://x.org/more.gz"),
        Err(ParseError::InvalidDescriptor(l)) if l == "badline"
    ));
}

#[test]
fn mixed_manifest_in_order() {
    let manifest = "\
# sources for the stage\n\
https://ftp.gnu.org/gnu/bash/bash-5.2.37.tar.gz\n\
; a patched yajl\n\
https://github.com/lloyd/yajl/commit/6fe59ca5.patch -> yajl-cmake-compat.patch ; why\n\
\n\
https://x.org/a/b.tar.xz # tail note\n";
    let dls = parse_manifest(manifest).expect("must parse");
    assert_eq!(dls.len(), 3);
    assert_eq!(dls[0].dest, "bash-5.2.37.tar.gz");
    assert_eq!(dls[1].url, "https://github.com/lloyd/yajl/commit/6fe59ca5.patch");
    assert_eq!(dls[1].dest, "yajl-cmake-compat.patch");
    assert_eq!(dls[2].url, "https://x.org/a/b.tar.xz");
    assert_eq!(dls[2].dest, "b.tar.xz");
}

#[test]
fn line_splitting() {
    let lines = split_lines("a\nb\r\nc");
    assert_eq!(lines, vec!["a", "b", "c"]);
    // A final line ending adds no empty line; inner empty lines stay.
    assert_eq!(split_lines("a\n"), vec!["a"]);
    assert_eq!(split_lines("a\n\nb"), vec!["a", "", "b"]);
    assert_eq!(split_lines(""), Vec::<String>::new());
    // A carriage return is dropped only before a line feed.
    assert_eq!(split_lines("a\r"), vec!["a\r"]);
}
