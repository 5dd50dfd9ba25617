use kube_cel::escaping::{escape_field_name, is_reserved_word};

#[test]
fn field_names_as_documented() {
    assert_eq!(escape_field_name("namespace"), "__namespace__");
    assert_eq!(escape_field_name("foo-bar"), "foo__dash__bar");
    assert_eq!(escape_field_name("a.b"), "a__dot__b");
    assert_eq!(escape_field_name("x/y"), "x__slash__y");
    assert_eq!(escape_field_name("my_field"), "my__field");
}

#[test]
fn plain_names_unchanged() {
    assert_eq!(escape_field_name("replicas"), "replicas");
    assert_eq!(escape_field_name(""), "");
}

#[test]
fn reserved_words() {
    for w in ["true", "false", "null", "in", "as", "break", "const", "continue", "else", "for", "function", "if",
        "import", "let", "loop", "package", "namespace", "return", "var", "void", "while"] {
        assert!(is_reserved_word(w), "{w}");
        assert_eq!(escape_field_name(w), format!("__{w}__"));
    }
    assert!(!is_reserved_word("name"));
    assert!(!is_reserved_word("Namespace"));
}

#[test]
fn several_specials_in_one_name() {
    assert_eq!(escape_field_name("app.kubernetes.io/name"), "app__dot__kubernetes__dot__io__slash__name");
    assert_eq!(escape_field_name("a_-b"), "a____dash__b");
}
