use orca::cache::{artifacts_from_paths, walk_step, Cache, Error, Package, WalkAction};
use orca::identifier::{Identifier, ParsingError};

#[test]
fn test_identifier_empty_is_error() {
    let r = Identifier::try_from(String::new());
    assert!(matches!(r, Err(ParsingError::ZeroLength)));
}

#[test]
fn test_identifier_digit_start_must_be_version() {
    let r = Identifier::try_from("1abc".to_string());
    assert!(matches!(r, Err(ParsingError::InvalidVersion)));
}

#[test]
fn test_identifier_version() {
    match Identifier::try_from("11.2.4".to_string()) {
        Ok(Identifier::Version(v)) => assert_eq!(v, "11.2.4"),
        _ => panic!("expected a version identifier"),
    }
}

#[test]
fn test_identifier_name() {
    match Identifier::try_from("base".to_string()) {
        Ok(Identifier::Name(n)) => assert_eq!(n, "base"),
        _ => panic!("expected a name identifier"),
    }
}

#[test]
fn test_walk_step_descends_on_name() {
    let package_name = vec!["tools".to_string()];
    let dir = "cache/tools".to_string();
    match walk_step(&package_name, "hammer".to_string(), &dir) {
        Ok(WalkAction::Descend(ext)) => {
            assert_eq!(ext, vec!["tools".to_string(), "hammer".to_string()]);
        }
        _ => panic!("expected a descent"),
    }
}

#[test]
fn test_walk_step_records_version_under_name() {
    let package_name = vec!["tools".to_string(), "hammer".to_string()];
    let dir = "cache/tools/hammer".to_string();
    match walk_step(&package_name, "1.2.3".to_string(), &dir) {
        Ok(WalkAction::Record(v)) => assert_eq!(v, "1.2.3"),
        _ => panic!("expected a recorded version"),
    }
}

#[test]
fn test_walk_step_rejects_unnamed_version() {
    let package_name: Vec<String> = Vec::new();
    let dir = "cache".to_string();
    match walk_step(&package_name, "1.2.3".to_string(), &dir) {
        Err(Error::UnnamedPackage(p)) => assert_eq!(p, "cache"),
        _ => panic!("expected an unnamed-package error"),
    }
}

#[test]
fn test_walk_step_propagates_identifier_errors() {
    let package_name = vec!["tools".to_string()];
    let dir = "cache/tools".to_string();
    let r = walk_step(&package_name, String::new(), &dir);
    assert!(matches!(r, Err(Error::Identifier(ParsingError::ZeroLength))));
    let r = walk_step(&package_name, "9broken".to_string(), &dir);
    assert!(matches!(r, Err(Error::Identifier(ParsingError::InvalidVersion))));
}

#[test]
fn test_artifacts_from_paths_keeps_order() {
    let paths = vec!["cache/a/1.0.0/lib.rlib".to_string(), "cache/a/1.0.0/notes".to_string()];
    let artifacts = artifacts_from_paths(&paths);
    assert_eq!(artifacts.len(), 2);
    assert_eq!(artifacts[0].path, "cache/a/1.0.0/lib.rlib");
    assert_eq!(artifacts[1].path, "cache/a/1.0.0/notes");
}

#[test]
fn test_cache_handle_keeps_path() {
    let cache = Cache::new(".orca/cache".to_string()).unwrap();
    assert_eq!(cache.path(), ".orca/cache");
}

#[test]
fn test_cache_index_is_unimplemented() {
    let name = match Identifier::try_from("base".to_string()) {
        Ok(id) => id,
        Err(_) => panic!("expected a name identifier"),
    };
    assert!(Cache::get(name, "1.0.0".to_string()).is_none());
    let name = match Identifier::try_from("base".to_string()) {
        Ok(id) => id,
        Err(_) => panic!("expected a name identifier"),
    };
    assert!(Cache::find(name, ">=1.0.0".to_string()).is_none());
    let name = match Identifier::try_from("base".to_string()) {
        Ok(id) => id,
        Err(_) => panic!("expected a name identifier"),
    };
    assert!(Cache::list_versions(name).is_empty());
    Cache::put(Package {
        name: vec!["base".to_string()],
        version: "1.0.0".to_string(),
        artifacts: Vec::new(),
    });
}
