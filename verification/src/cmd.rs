//! Construction of the shell commands that run build scripts.
//!
//! A build script never runs bare: it runs under `bash --noprofile --norc`
//! with a controlled environment. With a profile, the command first copies
//! the internal environment aside, appends the profile's variables and
//! sources its base environment, and only then runs the script; without one,
//! the internal environment is handed to bash directly. Spawning the shell
//! and streaming its output is the caller's work — here the command text is
//! pinned down exactly.

use vstd::prelude::*;

verus! {

/// The command that runs `script` without a profile, under the internal
/// environment alone.
pub fn plain_command(script: &str) -> (r: String)
    ensures
        r@ == "BASH_ENV=/usr/lib/lfstage/envs/internal.env bash --noprofile --norc "@ + script@,
{
    let mut r = "BASH_ENV=/usr/lib/lfstage/envs/internal.env bash --noprofile --norc ".to_owned();
    r.append(script);
    r
}

/// The base environment file of a profile's environment directory; a profile
/// command refuses to run without it.
pub fn base_env_file(envs_dir: &str) -> (r: String)
    ensures
        r@ == envs_dir@ + "/base.env"@,
{
    let mut r = envs_dir.to_owned();
    r.append("/base.env");
    r
}

/// The command that runs `script` under a profile: it assembles the build
/// environment in `/tmp/lfstage/bashenv` — the internal environment, the
/// profile's variables, and its sourced base environment `rcfile` — and runs
/// the script with it.
pub fn profile_command(
    envs_dir: &str,
    makeflags: &str,
    profile: &str,
    version: &str,
    rcfile: &str,
    script: &str,
) -> (r: String)
    ensures
        r@ == "\n                cp -f /usr/lib/lfstage/envs/internal.env /tmp/lfstage/bashenv\n                cat << EOF >> /tmp/lfstage/bashenv\nexport ENVS="@
            + envs_dir@ + "\nexport MAKEFLAGS="@ + makeflags@ + "\nexport LFSTAGE_PROFILE="@
            + profile@ + "\nexport LFSTAGE_VERSION="@ + version@ + "\nsource "@ + rcfile@
            + " || exit 2\nEOF\n                BASH_ENV=/tmp/lfstage/bashenv bash --noprofile --norc "@
            + script@ + "\n            "@,
{
    let mut r =
        "\n                cp -f /usr/lib/lfstage/envs/internal.env /tmp/lfstage/bashenv\n                cat << EOF >> /tmp/lfstage/bashenv\nexport ENVS=".to_owned();
    r.append(envs_dir);
    r.append("\nexport MAKEFLAGS=");
    r.append(makeflags);
    r.append("\nexport LFSTAGE_PROFILE=");
    r.append(profile);
    r.append("\nexport LFSTAGE_VERSION=");
    r.append(version);
    r.append("\nsource ");
    r.append(rcfile);
    r.append(" || exit 2\nEOF\n                BASH_ENV=/tmp/lfstage/bashenv bash --noprofile --norc ");
    r.append(script);
    r.append("\n            ");
    r
}

} // verus!
