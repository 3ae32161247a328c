use lfstage::cmd::{base_env_file, plain_command, profile_command};
use lfstage::profile::Profile;

fn command_for(profile: &str, script: &str) -> String {
    let p = Profile::new(profile.to_string());
    let envs_dir = p.envs_dir();
    let rcfile = base_env_file(&envs_dir);
    profile_command(&envs_dir, "-j4", profile, "3.0.0", &rcfile, script)
}

#[test]
fn exec_no_profile() {
    let cmd = plain_command("/usr/lib/lfstage/scripts/testing.sh");
    assert_eq!(
        cmd,
        "BASH_ENV=/usr/lib/lfstage/envs/internal.env bash --noprofile --norc /usr/lib/lfstage/scripts/testing.sh"
    );
}

#[test]
fn exec_pass_reqs() {
    let cmd = command_for("testing", "/usr/lib/lfstage/scripts/reqs.sh");
    assert!(cmd.contains("export ENVS=/var/lib/lfstage/profiles/testing/envs"));
    assert!(cmd.contains("export LFSTAGE_PROFILE=testing"));
    assert!(cmd.contains("source /var/lib/lfstage/profiles/testing/envs/base.env || exit 2"));
    assert!(cmd.ends_with(
        "BASH_ENV=/tmp/lfstage/bashenv bash --noprofile --norc /usr/lib/lfstage/scripts/reqs.sh\n            "
    ));
}

#[test]
fn exec_ensure_shell_options() {
    // Both command forms run bash with --noprofile --norc, so no profile or
    // rc file of the invoking user leaks into a build script.
    let with_profile = command_for("testing", "/usr/lib/lfstage/scripts/testing.sh");
    assert!(with_profile
        .contains("bash --noprofile --norc /usr/lib/lfstage/scripts/testing.sh"));
    let without = plain_command("/usr/lib/lfstage/scripts/testing.sh");
    assert!(without.contains("bash --noprofile --norc /usr/lib/lfstage/scripts/testing.sh"));
}

#[test]
fn profile_command_text_exact() {
    let cmd = command_for("p", "/s.sh");
    let expected = "\n                cp -f /usr/lib/lfstage/envs/internal.env /tmp/lfstage/bashenv\n                cat << EOF >> /tmp/lfstage/bashenv\nexport ENVS=/var/lib/lfstage/profiles/p/envs\nexport MAKEFLAGS=-j4\nexport LFSTAGE_PROFILE=p\nexport LFSTAGE_VERSION=3.0.0\nsource /var/lib/lfstage/profiles/p/envs/base.env || exit 2\nEOF\n                BASH_ENV=/tmp/lfstage/bashenv bash --noprofile --norc /s.sh\n            ";
    assert_eq!(cmd, expected);
}
