use rush::prompt::display_path;

#[test]
fn home_prefix_becomes_a_tilde() {
    assert_eq!(
        display_path("/home/someone/src/project", "/home/someone"),
        "~/src/project".to_string()
    );
}

#[test]
fn home_itself_is_just_the_tilde() {
    assert_eq!(display_path("/home/someone", "/home/someone"), "~".to_string());
}

#[test]
fn unrelated_path_is_unchanged() {
    assert_eq!(display_path("/var/log", "/home/someone"), "/var/log".to_string());
}

#[test]
fn shorter_path_than_home_is_unchanged() {
    assert_eq!(display_path("/home", "/home/someone"), "/home".to_string());
}

#[test]
fn empty_home_prefixes_a_tilde() {
    assert_eq!(display_path("/tmp", ""), "~/tmp".to_string());
}

#[test]
fn partial_component_match_still_abbreviates() {
    assert_eq!(
        display_path("/home/someone2", "/home/someone"),
        "~2".to_string()
    );
}
