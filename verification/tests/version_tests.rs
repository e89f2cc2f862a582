// Tests of the version model: parsing, rendering, ordering and bumps.

use parity_publish::version::{parse_version, prerelease_ok, SemVer};

#[test]
fn parse_full_release() {
    let v = parse_version("1.2.3").unwrap();
    assert_eq!(v.major, 1);
    assert_eq!(v.minor, 2);
    assert_eq!(v.patch, 3);
    assert_eq!(v.pre, "");
}

#[test]
fn parse_prerelease_and_build() {
    let v = parse_version("1.2.3-alpha.1+build5").unwrap();
    assert_eq!(v.major, 1);
    assert_eq!(v.minor, 2);
    assert_eq!(v.patch, 3);
    // build metadata is dropped, the prerelease identifier kept
    assert_eq!(v.pre, "alpha.1");
}

#[test]
fn parse_rejects_junk() {
    assert!(parse_version("1.q.r").is_none());
    assert!(parse_version("").is_none());
    assert!(parse_version("1.2").is_none());
}

#[test]
fn prerelease_identifiers() {
    assert!(prerelease_ok("alpha.1"));
    assert!(prerelease_ok("rc-2"));
    assert!(!prerelease_ok("!!"));
    assert!(!prerelease_ok("a..b"));
}

#[test]
fn render_canonical() {
    assert_eq!(SemVer::release(1, 23, 456).render(), "1.23.456");
    assert_eq!(SemVer::release(0, 0, 0).render(), "0.0.0");
    let v = SemVer {
        major: 1,
        minor: 0,
        patch: 0,
        pre: "rc.1".to_string(),
    };
    assert_eq!(v.render(), "1.0.0-rc.1");
}

#[test]
fn zero_x_bump_rule() {
    // a breaking change on 0.3.2 moves the minor component, not the major
    assert_eq!(SemVer::release(0, 3, 2).bump_breaking().render(), "0.4.0");
    // a breaking change on 1.2.3 moves the major component
    assert_eq!(SemVer::release(1, 2, 3).bump_breaking().render(), "2.0.0");
}

#[test]
fn compatible_bumps() {
    // 0.x treats the minor component as breaking, so a compatible change
    // only moves the patch
    assert_eq!(SemVer::release(0, 3, 2).bump_minor().render(), "0.3.3");
    assert_eq!(SemVer::release(1, 2, 3).bump_minor().render(), "1.3.0");
    assert_eq!(SemVer::release(1, 2, 3).bump_patch().render(), "1.2.4");
}

#[test]
fn ordering() {
    let a = SemVer::release(1, 2, 3);
    let b = SemVer::release(1, 3, 0);
    assert!(a.lt(&b));
    assert!(!b.lt(&a));
    let pre = SemVer {
        major: 1,
        minor: 2,
        patch: 3,
        pre: "alpha".to_string(),
    };
    // a prerelease precedes the full release with the same components
    assert!(pre.lt(&a));
    assert!(a.le(&a));
    assert!(!a.lt(&a));
}

#[test]
fn strip_and_match() {
    let pre = SemVer {
        major: 2,
        minor: 1,
        patch: 0,
        pre: "beta".to_string(),
    };
    assert_eq!(pre.strip_pre().render(), "2.1.0");
    assert!(parity_publish::status::versions_match(
        &pre,
        &SemVer::release(2, 1, 0)
    ));
    assert!(!parity_publish::status::versions_match(
        &pre,
        &SemVer::release(2, 1, 1)
    ));
}
