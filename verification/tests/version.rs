use wifiqr::version::{long_version, render, VersionInfo};

fn sample_info() -> VersionInfo<'static> {
    VersionInfo {
        package_name: "wifiqr",
        package_version: "0.1.0",
        git_describe: "v0.1.0-1-gabc123",
        git_commit: "abc123",
        git_commit_date: "2026-04-25T00:00:00+09:00",
        build_date: "2026-04-25T01:00:00Z",
        build_host: "aarch64-apple-darwin",
        build_target: "x86_64-unknown-linux-gnu",
        build_profile: "release",
    }
}

#[test]
fn renders_build_metadata() {
    let rendered = render(&sample_info());

    assert_eq!(
        rendered,
        "wifiqr 0.1.0 (git v0.1.0-1-gabc123; commit abc123; commit date 2026-04-25T00:00:00+09:00; built 2026-04-25T01:00:00Z; release) on x86_64-unknown-linux-gnu (host aarch64-apple-darwin)\n"
    );
}

#[test]
fn long_version_matches_current_render_without_binary_name() {
    let info = sample_info();
    let rendered = render(&info);
    let long = rendered
        .strip_prefix("wifiqr ")
        .expect("rendered version should start with package name");

    assert_eq!(long_version(&info), long.trim_end());
}
