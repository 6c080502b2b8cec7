use tetherscript::browserctl::{is_mutating, scope_for_action};

#[test]
fn forward_is_a_mutating_navigation_action() {
    assert_eq!(scope_for_action("forward"), Some("browser.navigate".to_string()));
    assert!(is_mutating("forward"));
    assert!(!is_mutating("tabs"));
}

#[test]
fn action_scopes_and_mutation() {
    assert_eq!(scope_for_action("fill"), Some("browser.interact".to_string()));
    assert_eq!(scope_for_action("eval"), Some("browser.inspect.dom".to_string()));
    assert_eq!(scope_for_action("diagnose"), Some("browser.inspect.network".to_string()));
    assert_eq!(scope_for_action("xhr"), Some("browser.replay.network".to_string()));
    assert_eq!(scope_for_action("screenshot"), Some("browser.screenshot".to_string()));
    assert_eq!(scope_for_action("detect"), Some("browser.inspect.dom".to_string()));
    assert_eq!(scope_for_action("set_viewport"), None);
    assert!(is_mutating("replay"));
    assert!(is_mutating("click"));
    assert!(!is_mutating("screenshot"));
    assert!(!is_mutating("unknown"));
}
