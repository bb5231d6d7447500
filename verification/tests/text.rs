use crucible::text::{chars_of, lex_less, str_eq, words};

#[test]
fn ordering_and_equality() {
    let a = chars_of("eth0");
    let b = chars_of("eth1");
    let c = chars_of("eth");
    assert!(lex_less(&a, &b));
    assert!(!lex_less(&b, &a));
    assert!(lex_less(&c, &a));
    assert!(!lex_less(&a, &a));
    assert!(lex_less(&chars_of("Z"), &chars_of("a")));
    assert!(lex_less(&chars_of("a"), &chars_of("é")));
    assert!(str_eq("x", "x") && !str_eq("x", "y"));
}

#[test]
fn splitting_words() {
    let w = words(&chars_of("  a bb\t c \n"));
    let w: Vec<String> = w.iter().map(|v| v.iter().collect()).collect();
    assert_eq!(w, vec!["a", "bb", "c"]);
}
