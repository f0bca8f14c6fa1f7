use cracked_shell::{shell_name, shell_version};

#[test]
fn test_shell_name() {
    assert_eq!(shell_name(), "Cracked Shell");
}

#[test]
fn test_shell_version() {
    assert_eq!(shell_version(), "0.1.0");
}
