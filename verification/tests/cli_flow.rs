use ssh_permit_a38::cli_flow::{
    answer_or_default, default_private_key_file, given_or_default, letter_answer, yes_no_answer,
};

#[test]
fn yes_and_no_are_single_letters() {
    assert_eq!(yes_no_answer("y"), Some(true));
    assert_eq!(yes_no_answer("n"), Some(false));
    assert_eq!(yes_no_answer("y\n"), Some(true));
    assert_eq!(yes_no_answer("  n \r\n"), Some(false));
    for other in ["", "\n", "yes", "no", "Y", "N", "y n", "yy", "j"] {
        assert_eq!(yes_no_answer(other), None, "{:?}", other);
    }
}

#[test]
fn an_empty_answer_takes_the_default() {
    assert_eq!(answer_or_default("\n", "root"), "root");
    assert_eq!(answer_or_default("", "root"), "root");
    assert_eq!(answer_or_default("  \t", "root"), "root");
    assert_eq!(answer_or_default(" admin \n", "root"), "admin");
    assert_eq!(answer_or_default("\n", ""), "");
    assert_eq!(answer_or_default(" /srv/keys\n", ""), "/srv/keys");
}

#[test]
fn the_private_key_is_looked_for_below_the_home_directory() {
    assert_eq!(default_private_key_file(Some("/home/op")), "/home/op/.ssh/id_rsa");
    assert_eq!(default_private_key_file(Some("/home/op/")), "/home/op/.ssh/id_rsa");
    assert_eq!(default_private_key_file(Some("/")), "/.ssh/id_rsa");
    assert_eq!(default_private_key_file(Some("")), ".ssh/id_rsa");
    assert_eq!(default_private_key_file(None), "");
    for home in ["/home/op", "/home/op/", "/", "", "relative/dir"] {
        let expected = std::path::Path::new(home).join(".ssh").join("id_rsa");
        assert_eq!(default_private_key_file(Some(home)), expected.to_str().unwrap());
    }
}

#[test]
fn trimmed_answers_are_taken_as_they_are() {
    assert_eq!(letter_answer("y"), Some(true));
    assert_eq!(letter_answer("n"), Some(false));
    assert_eq!(letter_answer(" y"), None);
    assert_eq!(letter_answer(""), None);
    assert_eq!(given_or_default("".to_string(), "root"), "root");
    assert_eq!(given_or_default("me".to_string(), "root"), "me");
    assert_eq!(given_or_default(" ".to_string(), "root"), " ");
    assert_eq!(given_or_default("".to_string(), ""), "");
}
