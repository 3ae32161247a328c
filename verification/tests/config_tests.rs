use lfstage::config::{get_max_log_size, Config, FALLBACK_MAX_LOG_SIZE};
use lfstage::logtrim::trim_keep_from;

#[test]
fn default_config_values() {
    let c = Config::default();
    assert!(c.jobs >= 1);
    assert_eq!(c.default_profile, "x86_64-glibc-tox-stage2");
    assert_eq!(c.log_level, "trace");
    assert_eq!(c.log_max_size, "10 MB");
    assert!(c.strip);
}

fn config_with_cap(cap: &str) -> Config {
    let mut c = Config::default();
    c.log_max_size = cap.to_string();
    c
}

#[test]
fn configured_log_cap_wins() {
    assert_eq!(get_max_log_size(&config_with_cap("1 KB")), 1000);
    assert_eq!(get_max_log_size(&config_with_cap("1 KiB")), 1024);
    assert_eq!(get_max_log_size(&config_with_cap("3 MB")), 3_000_000);
    assert_eq!(get_max_log_size(&config_with_cap("2048")), 2048);
}

#[test]
fn non_ascii_log_cap_falls_back_to_default() {
    // A multi-byte character in the cap must not reach the size parser (it
    // could panic on it); the cap falls back to the default.
    assert_eq!(get_max_log_size(&config_with_cap("10 \u{b5}B")), 10_000_000);
    assert_eq!(get_max_log_size(&config_with_cap("\u{b5}")), 10_000_000);
}

#[test]
fn unparseable_log_cap_falls_back_to_default() {
    // The default configuration's "10 MB" parses, so the last fallback
    // constant is never reached.
    assert_eq!(get_max_log_size(&config_with_cap("not a size")), 10_000_000);
    assert_eq!(get_max_log_size(&Config::default()), 10_000_000);
    assert_eq!(FALLBACK_MAX_LOG_SIZE, 10 * 1024 * 1024);
}

#[test]
fn trim_keeps_the_longest_fitting_tail() {
    // Sizes with the newline: 3, 4, 3.
    let lines: Vec<String> = vec!["aa".to_string(), "bbb".to_string(), "cc".to_string()];
    assert_eq!(trim_keep_from(&lines, 100), 0);
    assert_eq!(trim_keep_from(&lines, 10), 0);
    assert_eq!(trim_keep_from(&lines, 9), 1);
    assert_eq!(trim_keep_from(&lines, 7), 1);
    assert_eq!(trim_keep_from(&lines, 6), 2);
    assert_eq!(trim_keep_from(&lines, 3), 2);
    assert_eq!(trim_keep_from(&lines, 2), 3);
    assert_eq!(trim_keep_from(&lines, 0), 3);
}

#[test]
fn trim_mirrors_a_log_under_pressure() {
    // The shape of a trimmed log: a long preamble is dropped, the tail
    // survives intact and under the cap.
    let mut lines: Vec<String> = Vec::new();
    lines.push("Reasons why this layout is the best:".to_string());
    for i in 0..256 {
        lines.push(format!("{i}. It simply is."));
    }
    lines.push("The evidence is truly irrefutable.".to_string());
    let max_size: u64 = 1000;
    let k = trim_keep_from(&lines, max_size);
    assert!(k > 0);
    let kept: u64 = lines[k..].iter().map(|l| l.len() as u64 + 1).sum();
    assert!(kept <= max_size);
    let with_one_more: u64 = lines[k - 1..].iter().map(|l| l.len() as u64 + 1).sum();
    assert!(with_one_more > max_size);
    assert_eq!(lines.last().unwrap(), "The evidence is truly irrefutable.");
}
