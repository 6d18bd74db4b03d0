use headlamp::project::classify::FileKind;
use headlamp::project::ts_js_manifest::TsJsManifest;
use headlamp::test_model::JsonValue;

fn st(s: &str) -> JsonValue {
    JsonValue::Str(s.to_string())
}

fn obj(members: Vec<(&str, JsonValue)>) -> JsonValue {
    JsonValue::Object(members.into_iter().map(|(k, v)| (k.to_string(), v)).collect())
}

#[test]
fn package_without_jest_settings_gives_none() {
    assert!(TsJsManifest::from_package_json("/p", &obj(vec![("name", st("x"))])).is_none());
    assert!(TsJsManifest::from_package_json("/p", &obj(vec![("jest", obj(vec![("verbose", JsonValue::Bool(true))]))])).is_none());
    assert!(TsJsManifest::from_package_json("/p", &JsonValue::Null).is_none());
    let only_bad_regex = obj(vec![("jest", obj(vec![("testRegex", st("("))]))]);
    assert!(TsJsManifest::from_package_json("/p", &only_bad_regex).is_none());
}

#[test]
fn settings_classify_files() {
    let package = obj(vec![(
        "jest",
        obj(vec![
            ("testMatch", JsonValue::Array(vec![st("**/__tests__/**/*.ts"), st("  "), JsonValue::Number("3".to_string())])),
            ("testRegex", st("\\.spec\\.ts$")),
            ("testPathIgnorePatterns", JsonValue::Array(vec![st("fixtures/"), st("(")])),
        ]),
    )]);
    let m = TsJsManifest::from_package_json("/p", &package).expect("configured");
    assert_eq!(m.test_match, Some(vec!["**/__tests__/**/*.ts".to_string()]));
    assert_eq!(m.test_regex, vec!["\\.spec\\.ts$".to_string()]);
    assert_eq!(m.ignore_regex, vec!["fixtures/".to_string()]);
    assert_eq!(m.classify("/p/src/__tests__/a.ts"), Some(FileKind::Test));
    assert_eq!(m.classify("/p/src/b.spec.ts"), Some(FileKind::Test));
    assert_eq!(m.classify("/p/fixtures/c.spec.ts"), Some(FileKind::Production));
    assert_eq!(m.classify("/p/src/d.ts"), None);
    assert_eq!(m.classify("/elsewhere/x.spec.ts"), None);
}
