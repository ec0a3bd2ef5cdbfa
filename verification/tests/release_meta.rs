use luna_installer::chars::chars_vec;
use luna_installer::types::{Release, ReleaseVersion, pick_latest_version, select_release};
use luna_installer::ui_models::{sanitize_login, sanitize_profile_url};
use luna_installer::updater::{current_installer_version, parse_tag_version, update_available};
use luna_installer::version::parse_app_dir_version;

fn release(name: &str, versions: &[(&str, &str)]) -> Release {
    Release {
        id: name.to_string(),
        name: name.to_string(),
        github_url: None,
        versions: versions
            .iter()
            .map(|(v, d)| ReleaseVersion { version: v.to_string(), download: d.to_string() })
            .collect(),
    }
}

#[test]
fn select_release_prefers_requested_channel() {
    let releases = vec![release("stable", &[]), release("beta", &[])];
    let i = select_release(&releases, &Some("beta".to_string())).unwrap();
    assert_eq!(releases[i].name, "beta");
    assert!(select_release(&releases, &Some("nightly".to_string())).is_none());
}

#[test]
fn select_release_falls_back_stable_beta_alpha() {
    let all = vec![release("alpha", &[]), release("beta", &[]), release("stable", &[])];
    let i = select_release(&all, &None).unwrap();
    assert_eq!(all[i].name, "stable");

    let no_stable = vec![release("alpha", &[]), release("beta", &[])];
    let j = select_release(&no_stable, &None).unwrap();
    assert_eq!(no_stable[j].name, "beta");

    let only_alpha = vec![release("alpha", &[])];
    let k = select_release(&only_alpha, &None).unwrap();
    assert_eq!(only_alpha[k].name, "alpha");

    assert!(select_release(&vec![release("exotic", &[])], &None).is_none());
}

#[test]
fn pick_latest_version_orders_numerically() {
    let r = release(
        "stable",
        &[("1.2.0", "a"), ("1.10.0", "b"), ("1.9.9", "c")],
    );
    let i = pick_latest_version(&r.versions).unwrap();
    assert_eq!(r.versions[i].version, "1.10.0");
}

#[test]
fn pick_latest_version_treats_prerelease_as_lower() {
    let r = release("stable", &[("2.0.0-rc.1", "a"), ("2.0.0", "b")]);
    let i = pick_latest_version(&r.versions).unwrap();
    assert_eq!(r.versions[i].version, "2.0.0");
    assert!(pick_latest_version(&Vec::new()).is_none());
}

#[test]
fn pick_latest_version_ranks_unparsable_as_zero() {
    let r = release("stable", &[("not-a-version", "a"), ("0.0.1", "b")]);
    let i = pick_latest_version(&r.versions).unwrap();
    assert_eq!(r.versions[i].version, "0.0.1");
}

#[test]
fn parse_app_dir_version_reads_the_suffix() {
    let v = parse_app_dir_version(&chars_vec("app-5.30.2")).unwrap();
    assert_eq!((v.major, v.minor, v.patch), (5, 30, 2));
    assert!(v.pre.is_empty());
    assert!(parse_app_dir_version(&chars_vec("app-")).is_none());
    assert!(parse_app_dir_version(&chars_vec("tool-1.0.0")).is_none());
    let pre = parse_app_dir_version(&chars_vec("app-1.0.0-beta.2")).unwrap();
    assert_eq!(pre.pre, "beta.2");
}

#[test]
fn version_precedence_is_strict() {
    let a = parse_app_dir_version(&chars_vec("app-1.2.3")).unwrap();
    let b = parse_app_dir_version(&chars_vec("app-1.3.0")).unwrap();
    assert!(a.precedes(&b));
    assert!(!b.precedes(&a));
    assert!(!a.precedes(&a));
}

#[test]
fn sanitize_login_trims_and_validates() {
    assert_eq!(sanitize_login("  octo-cat1 "), Some("octo-cat1".to_string()));
    assert_eq!(sanitize_login("   "), None);
    assert_eq!(sanitize_login("bad name"), None);
    assert_eq!(sanitize_login("tabs\tinside"), None);
    let long = "a".repeat(40);
    assert_eq!(sanitize_login(&long), None);
    let max = "a".repeat(39);
    assert_eq!(sanitize_login(&max), Some(max.clone()));
}

#[test]
fn sanitize_login_trims_every_whitespace_kind() {
    assert_eq!(sanitize_login("abc\u{000C}"), Some("abc".to_string()));
    assert_eq!(sanitize_login("\u{000B}abc"), Some("abc".to_string()));
    assert_eq!(sanitize_login("\u{00A0}abc\u{2028}"), Some("abc".to_string()));
    assert_eq!(sanitize_login("\u{3000}abc\u{205F}"), Some("abc".to_string()));
    assert_eq!(sanitize_login("abc\u{1680}"), Some("abc".to_string()));
    assert_eq!(sanitize_login("ab\u{00A0}c"), None);
    assert_eq!(sanitize_login("a b".trim()), None);
}

#[test]
fn sanitize_profile_url_falls_back_on_suspect_input() {
    assert_eq!(
        sanitize_profile_url("https://github.com/octocat", "octocat"),
        "https://github.com/octocat"
    );
    assert_eq!(
        sanitize_profile_url(" https://github.com/octocat ", "octocat"),
        "https://github.com/octocat"
    );
    assert_eq!(
        sanitize_profile_url("https://evil.example/", "octocat"),
        "https://github.com/octocat"
    );
    assert_eq!(
        sanitize_profile_url("https://github.com/a\u{7f}b", "octocat"),
        "https://github.com/octocat"
    );
    assert_eq!(
        sanitize_profile_url("https://github.com/x\u{000C}", "octocat"),
        "https://github.com/x"
    );
    assert_eq!(
        sanitize_profile_url("\u{2000}https://github.com/x\u{00A0}", "octocat"),
        "https://github.com/x"
    );
}

#[test]
fn updater_compares_tags_numerically() {
    assert!(update_available("0.1.0", "v0.2.0"));
    assert!(!update_available("0.2.0", "v0.2.0"));
    assert!(!update_available("0.3.0", "v0.2.9"));
    assert!(!update_available("0.1.0", "not-a-tag"));
    let v = parse_tag_version("vv1.4.7").unwrap();
    assert_eq!((v.major, v.minor, v.patch), (1, 4, 7));
    assert_eq!(current_installer_version(), "0.1.0");
}
