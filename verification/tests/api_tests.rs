use lifecycle::api::buildpack::{self, verify_buildpack_api, BuildpackApiError};
use lifecycle::api::platform::{self, verify_platform_api, PlatformApiError};
use lifecycle::api::Version;

#[test]
fn test_buildpack_api_verification() {
    assert!(verify_buildpack_api("my-bp", "0.12").is_ok());
    assert!(verify_buildpack_api("my-bp", "0.7").is_ok());
    assert!(verify_buildpack_api("my-bp", "0.6").is_err());
}

#[test]
fn test_platform_api_verification() {
    assert!(verify_platform_api("0.15").is_ok());
    assert!(verify_platform_api("0.7").is_ok());
    assert_eq!(verify_platform_api("0.6"), Err(PlatformApiError::Incompatible("0.6".to_string())));
    assert_eq!(verify_platform_api("bad-api"), Err(PlatformApiError::Invalid("bad-api".to_string())));
    assert_eq!(verify_platform_api(""), Err(PlatformApiError::Empty));
}

#[test]
fn version_parse_forms() {
    assert_eq!(Version::parse("0.12"), Ok(Version { major: 0, minor: 12 }));
    assert_eq!(Version::parse("v1.2"), Ok(Version { major: 1, minor: 2 }));
    assert_eq!(Version::parse("3"), Ok(Version { major: 3, minor: 0 }));
    assert_eq!(Version::parse("3."), Ok(Version { major: 3, minor: 0 }));
    assert_eq!(Version::parse("007.010"), Ok(Version { major: 7, minor: 10 }));
    assert_eq!(
        Version::parse("18446744073709551615.0"),
        Ok(Version { major: u64::MAX, minor: 0 })
    );
}

#[test]
fn version_parse_refusals() {
    for bad in ["", "v", ".5", "1.2.3", "bad-api", "1.x", "vv1", " 1.2", "18446744073709551616", "0.18446744073709551616"] {
        assert_eq!(
            Version::parse(bad),
            Err(format!("could not parse '{}' as version", bad)),
            "{:?}",
            bad
        );
    }
}

#[test]
fn version_superset() {
    let v0_7 = Version { major: 0, minor: 7 };
    let v0_8 = Version { major: 0, minor: 8 };
    let v1_2 = Version { major: 1, minor: 2 };
    let v1_3 = Version { major: 1, minor: 3 };
    let v2_0 = Version { major: 2, minor: 0 };
    assert!(v0_7.is_superset_of(&v0_7));
    assert!(!v0_8.is_superset_of(&v0_7));
    assert!(!v0_7.is_superset_of(&v0_8));
    assert!(v1_3.is_superset_of(&v1_2));
    assert!(v1_3.is_superset_of(&v1_3));
    assert!(!v1_2.is_superset_of(&v1_3));
    assert!(!v2_0.is_superset_of(&v1_2));
}

#[test]
fn buildpack_supported_range() {
    for minor in 0..20u64 {
        let v = Version { major: 0, minor };
        assert_eq!(buildpack::is_supported(&v), (7..=12).contains(&minor), "0.{}", minor);
        assert!(!buildpack::is_deprecated(&v));
    }
    assert!(!buildpack::is_supported(&Version { major: 1, minor: 7 }));
}

#[test]
fn platform_supported_range() {
    for minor in 0..20u64 {
        let v = Version { major: 0, minor };
        assert_eq!(platform::is_supported(&v), (7..=15).contains(&minor), "0.{}", minor);
        assert!(!platform::is_deprecated(&v));
    }
    assert!(!platform::is_supported(&Version { major: 1, minor: 15 }));
}

#[test]
fn buildpack_api_errors() {
    assert_eq!(verify_buildpack_api("my-bp", " 0.9\n"), Ok(Version { major: 0, minor: 9 }));
    let incompatible = verify_buildpack_api("my-bp", " 0.6 ").unwrap_err();
    assert_eq!(
        incompatible,
        BuildpackApiError::Incompatible { bp_id: "my-bp".to_string(), version: "0.6".to_string() }
    );
    assert_eq!(
        incompatible.to_string(),
        "buildpack API version '0.6' is incompatible with the lifecycle for buildpack 'my-bp'"
    );
    let parse = verify_buildpack_api("my-bp", "\tx.1 ").unwrap_err();
    assert_eq!(
        parse,
        BuildpackApiError::Parse {
            bp_id: "my-bp".to_string(),
            version: "x.1".to_string(),
            error: "could not parse 'x.1' as version".to_string(),
        }
    );
    assert_eq!(
        parse.to_string(),
        "Parse buildpack API 'x.1' for buildpack 'my-bp': could not parse 'x.1' as version"
    );
}

#[test]
fn platform_api_errors() {
    assert_eq!(verify_platform_api(" \t\n"), Err(PlatformApiError::Empty));
    assert_eq!(verify_platform_api("\u{3000}0.15\u{a0}"), Ok(Version { major: 0, minor: 15 }));
    assert_eq!(verify_platform_api("  0.16 "), Err(PlatformApiError::Incompatible("0.16".to_string())));
    assert_eq!(PlatformApiError::Empty.to_string(), "Platform API version is empty");
    assert_eq!(PlatformApiError::Invalid("x".to_string()).to_string(), "parse platform API 'x'");
    assert_eq!(
        PlatformApiError::Incompatible("0.6".to_string()).to_string(),
        "platform API version '0.6' is incompatible with the lifecycle"
    );
}

#[test]
fn version_from_str() {
    let v: Version = "v0.14".parse().unwrap();
    assert_eq!(v, Version { major: 0, minor: 14 });
    assert!("0.x".parse::<Version>().is_err());
}

#[test]
fn supported_lists() {
    assert_eq!(buildpack::supported_buildpack_apis(), vec!["0.7", "0.8", "0.9", "0.10", "0.11", "0.12"]);
    assert!(buildpack::deprecated_buildpack_apis().is_empty());
    assert_eq!(
        platform::supported_platform_apis(),
        vec!["0.7", "0.8", "0.9", "0.10", "0.11", "0.12", "0.13", "0.14", "0.15"]
    );
    assert!(platform::deprecated_platform_apis().is_empty());
}
