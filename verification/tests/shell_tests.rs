use ilonhro::shell::{choose_shell, shell_candidates, shell_name_from_path};

#[test]
fn shell_name_is_the_last_component() {
    assert_eq!(shell_name_from_path("/bin/bash"), "bash");
    assert_eq!(shell_name_from_path("/usr/bin/sh"), "sh");
    assert_eq!(shell_name_from_path("zsh"), "zsh");
}

#[test]
fn shell_name_ignores_trailing_slashes() {
    assert_eq!(shell_name_from_path("/bin/bash/"), "bash");
    assert_eq!(shell_name_from_path("a//"), "a");
}

#[test]
fn shell_name_ignores_trailing_dot_components() {
    assert_eq!(shell_name_from_path("foo/."), "foo");
    assert_eq!(shell_name_from_path("foo/.//"), "foo");
    assert_eq!(shell_name_from_path("a/././"), "a");
    assert_eq!(shell_name_from_path("bash."), "bash.");
}

#[test]
fn degenerate_paths_fall_back_to_shell() {
    assert_eq!(shell_name_from_path(""), "shell");
    assert_eq!(shell_name_from_path("/"), "shell");
    assert_eq!(shell_name_from_path("."), "shell");
    assert_eq!(shell_name_from_path("./"), "shell");
    assert_eq!(shell_name_from_path(".."), "shell");
    assert_eq!(shell_name_from_path("a/.."), "shell");
    assert_eq!(shell_name_from_path("a/../"), "shell");
}

#[test]
fn candidate_list_is_fixed() {
    let c = shell_candidates();
    assert_eq!(c, vec!["/bin/bash", "/usr/bin/bash", "/bin/sh", "/usr/bin/sh"]);
}

#[test]
fn configured_override_wins() {
    let r = choose_shell(Some("/opt/fish".to_string()), &vec![true, true, true, true]);
    assert_eq!(r, "/opt/fish");
}

#[test]
fn first_existing_candidate_wins() {
    assert_eq!(choose_shell(None, &vec![false, true, true, false]), "/usr/bin/bash");
    assert_eq!(choose_shell(None, &vec![false, false, false, true]), "/usr/bin/sh");
}

#[test]
fn no_candidate_falls_back_to_bare_name() {
    assert_eq!(choose_shell(None, &vec![false, false, false, false]), "bash");
}
