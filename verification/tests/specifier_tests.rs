use js_bootstrap::specifier::global_specifier;
use js_bootstrap::specifier::is_source_file;
use js_bootstrap::specifier::nested_specifier;
use js_bootstrap::BootstrapError;

#[test]
fn nested_specifier_strips_directories() {
    assert_eq!(
        nested_specifier("node/buffer.js").unwrap().as_str(),
        "jsmodule_buffer"
    );
    assert_eq!(nested_specifier("buffer.js").unwrap().as_str(), "jsmodule_buffer");
    assert_eq!(nested_specifier("a/b/x.js").unwrap().as_str(), "jsmodule_x");
}

#[test]
fn nested_specifier_rejects_non_sources() {
    assert_eq!(nested_specifier("readme.md"), Err(BootstrapError::UnsupportedPath));
    assert_eq!(nested_specifier("dir/.js"), Err(BootstrapError::UnsupportedPath));
    assert_eq!(nested_specifier(""), Err(BootstrapError::UnsupportedPath));
    assert_eq!(nested_specifier("x.jsx"), Err(BootstrapError::UnsupportedPath));
    assert_eq!(nested_specifier("js"), Err(BootstrapError::UnsupportedPath));
}

#[test]
fn global_specifier_replaces_separators() {
    assert_eq!(global_specifier("timers.js").unwrap().as_str(), "timers");
    assert_eq!(global_specifier("node/buffer.js").unwrap().as_str(), "node:buffer");
    assert_eq!(global_specifier("a/b/c.js").unwrap().as_str(), "a:b:c");
}

#[test]
fn global_specifier_requires_suffix() {
    assert_eq!(global_specifier("x.txt"), Err(BootstrapError::MissingSuffix));
    assert_eq!(global_specifier("xjs"), Err(BootstrapError::MissingSuffix));
    assert_eq!(global_specifier(""), Err(BootstrapError::MissingSuffix));
    // A bare extension still carries the suffix; the remainder is empty.
    assert_eq!(global_specifier(".js").unwrap().as_str(), "");
}

#[test]
fn source_detection_matches_extension_rule() {
    assert!(is_source_file("a.js"));
    assert!(is_source_file("deep/path/to/thing.js"));
    assert!(is_source_file("a.tar.js"));
    assert!(is_source_file("..js"));
    assert!(!is_source_file(".js"));
    assert!(!is_source_file("a.JS"));
    assert!(!is_source_file("a.js.txt"));
    assert!(!is_source_file("nodir/"));
}

#[test]
fn unicode_paths_are_handled_per_character() {
    assert_eq!(
        nested_specifier("útil/módulo.js").unwrap().as_str(),
        "jsmodule_módulo"
    );
    assert_eq!(
        global_specifier("útil/módulo.js").unwrap().as_str(),
        "útil:módulo"
    );
}
