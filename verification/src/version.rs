//! Build metadata and the text that `--version` prints.

use vstd::prelude::*;

verus! {

/// What a build of the program is: package, source revision, and where and
/// how it was built.
#[derive(Debug, Clone, Copy)]
pub struct VersionInfo<'a> {
    pub package_name: &'a str,
    pub package_version: &'a str,
    pub git_describe: &'a str,
    pub git_commit: &'a str,
    pub git_commit_date: &'a str,
    pub build_date: &'a str,
    pub build_host: &'a str,
    pub build_target: &'a str,
    pub build_profile: &'a str,
}

/// The long version text: the package version followed by the build
/// metadata, without the package name.
pub open spec fn long_version_text(info: VersionInfo) -> Seq<char> {
    info.package_version@ + " (git "@ + info.git_describe@ + "; commit "@ + info.git_commit@
        + "; commit date "@ + info.git_commit_date@ + "; built "@ + info.build_date@ + "; "@
        + info.build_profile@ + ") on "@ + info.build_target@ + " (host "@ + info.build_host@ + ")"@
}

/// The full version line: package name, version and build metadata, and a
/// line break.
pub open spec fn rendered_text(info: VersionInfo) -> Seq<char> {
    info.package_name@ + " "@ + info.package_version@ + " (git "@ + info.git_describe@ + "; commit "@
        + info.git_commit@ + "; commit date "@ + info.git_commit_date@ + "; built "@ + info.build_date@
        + "; "@ + info.build_profile@ + ") on "@ + info.build_target@ + " (host "@ + info.build_host@
        + ")\n"@
}

/// The version line that `--version` prints.
pub fn render(info: &VersionInfo) -> (r: String)
    ensures
        r@ == rendered_text(*info),
{
    let mut r = info.package_name.to_owned();
    r.append(" ");
    r.append(info.package_version);
    r.append(" (git ");
    r.append(info.git_describe);
    r.append("; commit ");
    r.append(info.git_commit);
    r.append("; commit date ");
    r.append(info.git_commit_date);
    r.append("; built ");
    r.append(info.build_date);
    r.append("; ");
    r.append(info.build_profile);
    r.append(") on ");
    r.append(info.build_target);
    r.append(" (host ");
    r.append(info.build_host);
    r.append(")\n");
    r
}

/// The long version text, which is the version line without the package
/// name in front and the line break behind.
pub fn long_version(info: &VersionInfo) -> (r: String)
    ensures
        r@ == long_version_text(*info),
{
    let mut r = info.package_version.to_owned();
    r.append(" (git ");
    r.append(info.git_describe);
    r.append("; commit ");
    r.append(info.git_commit);
    r.append("; commit date ");
    r.append(info.git_commit_date);
    r.append("; built ");
    r.append(info.build_date);
    r.append("; ");
    r.append(info.build_profile);
    r.append(") on ");
    r.append(info.build_target);
    r.append(" (host ");
    r.append(info.build_host);
    r.append(")");
    r
}

/// The version line is the package name, a space, the long version text
/// and a line break.
pub proof fn lemma_render_is_name_and_long_version(info: VersionInfo)
    ensures
        rendered_text(info) == info.package_name@ + " "@ + long_version_text(info) + "\n"@,
{
    reveal_strlit(")\n");
    reveal_strlit(")");
    reveal_strlit("\n");
    assert(rendered_text(info) =~= info.package_name@ + " "@ + long_version_text(info) + "\n"@);
}

} // verus!
