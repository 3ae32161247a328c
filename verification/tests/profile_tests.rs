use lfstage::manifest::parse_manifest;
use lfstage::profile::{
    registered_destinations, select_build_scripts, select_registered, Profile,
};

fn strings(v: &[&str]) -> Vec<String> {
    v.iter().map(|s| s.to_string()).collect()
}

#[test]
fn profile_paths() {
    let p = Profile::new("testing".to_string());
    assert_eq!(p.tmp_dir(), "/tmp/lfstage/testing");
    assert_eq!(p.stagefilename_file(), "/tmp/lfstage/testing/stagefilename");
    assert_eq!(p.timestamp_file(), "/tmp/lfstage/testing/timestamp");
    assert_eq!(p.profile_lib_dir(), "/var/lib/lfstage/profiles/testing");
    assert_eq!(p.profile_cache_dir(), "/var/cache/lfstage/profiles/testing");
    assert_eq!(p.envs_dir(), "/var/lib/lfstage/profiles/testing/envs");
    assert_eq!(p.scripts_dir(), "/var/lib/lfstage/profiles/testing/scripts");
    assert_eq!(p.stages_dir(), "/var/cache/lfstage/profiles/testing/stages");
    assert_eq!(p.sources_dir(), "/var/cache/lfstage/profiles/testing/sources");
    assert_eq!(p.sources_file(), "/var/lib/lfstage/profiles/testing/sources");
}

#[test]
fn destinations_of_a_manifest() {
    let dls = parse_manifest(
        "https://x.org/a.gz\nhttps://x.org/p.patch -> renamed.patch\n",
    )
    .expect("must parse");
    let dests = registered_destinations(&dls);
    assert_eq!(dests, vec!["a.gz", "renamed.patch"]);
}

#[test]
fn only_registered_sources_selected() {
    let found = strings(&["a.gz", "stray.txt", "renamed.patch", "a.gz.part"]);
    let registered = strings(&["renamed.patch", "a.gz"]);
    let picked = select_registered(&found, &registered);
    assert_eq!(picked, vec!["a.gz", "renamed.patch"]);
}

#[test]
fn build_scripts_filtered_and_ordered() {
    let entries = strings(&[
        "10-kernel.sh",
        "02-toolchain.sh",
        "readme.txt",
        "9-userland.sh",
        "123sum",
        "5",
        "x1-no.sh",
    ]);
    let scripts = select_build_scripts(&entries);
    // A script name opens with two digits ("9-userland.sh" does not and is
    // dropped, like "readme.txt"; the short "5" passes); a name without a
    // numeric `<n>-` prefix has no key and sorts first; the rest run in
    // numeric order, not lexicographic.
    assert_eq!(scripts, vec!["123sum", "5", "02-toolchain.sh", "10-kernel.sh"]);
}

#[test]
fn script_keys_parse_like_numbers() {
    // "007-c.sh" has leading zeros and still means 7; "9999999999-a.sh"
    // overflows 32 bits and so has no key, sorting first; "12x3-b.sh" opens
    // with digits but its prefix before `-` is no number, so it is keyless
    // too.
    let entries = strings(&["007-c.sh", "12x3-b.sh", "9999999999-a.sh"]);
    let scripts = select_build_scripts(&entries);
    assert_eq!(scripts.len(), 3);
    assert_eq!(scripts[2], "007-c.sh");
    assert!(scripts[..2].contains(&"9999999999-a.sh".to_string()));
    assert!(scripts[..2].contains(&"12x3-b.sh".to_string()));
}

#[test]
fn equal_keys_both_kept() {
    // The sort is stable: equal keys keep their given order.
    let entries = strings(&["01-b.sh", "20-z.sh", "1-x", "01-a.sh", "01-b.sh"]);
    let scripts = select_build_scripts(&entries);
    assert_eq!(scripts, vec!["01-b.sh", "01-a.sh", "01-b.sh", "20-z.sh"]);
}
