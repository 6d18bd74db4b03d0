use headlamp::format::paths::{editor_href_with, EditorEnv};
use headlamp::jest_ownership::normalize_abs_posix_with;
use headlamp::project::rust_manifest::canonical_or_inputs;

#[test]
fn normalized_path_takes_the_disk_answer() {
    assert_eq!(normalize_abs_posix_with("/a\\b.ts", Some("/real/a/b.ts".to_string())), "/real/a/b.ts");
    assert_eq!(normalize_abs_posix_with("/a\\b.ts", Some("C:\\real\\b.ts".to_string())), "C:/real/b.ts");
    assert_eq!(normalize_abs_posix_with("/a\\b.ts", None), "/a/b.ts");
}

#[test]
fn canonical_forms_replace_inputs_where_given() {
    let paths = vec!["x".to_string(), "y".to_string(), "z".to_string()];
    let answers = vec![Some("/r/x".to_string()), None, Some("/r/z".to_string())];
    assert_eq!(canonical_or_inputs(&paths, &answers), vec!["/r/x".to_string(), "y".to_string(), "/r/z".to_string()]);
}

#[test]
fn editor_link_uses_the_canonical_path() {
    let env = EditorEnv { coverage_editor: None, term_program: None, vscode_ipc_hook: false };
    assert_eq!(
        editor_href_with("/a/b.ts", Some("/real/b.ts".to_string()), Some(3), Some("vscode"), &env),
        "vscode://file//real/b.ts:3"
    );
    assert_eq!(editor_href_with("/a/b.ts", None, Some(7), Some("vim"), &env), "file:///a/b.ts#L7");
}
