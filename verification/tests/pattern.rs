use text_align::replace_matches;
use text_align::try_replace_matches;
use text_align::TextAlign;

#[test]
fn test_replace_matches() {
    assert_eq!(
        replace_matches(&"Hello      Sir", "[' ']{1,}", " "),
        "Hello Sir"
    )
}

#[test]
fn replace_every_match() {
    assert_eq!(replace_matches("a1b22c333", "[0-9]+", "-"), "a-b-c-");
    assert_eq!(replace_matches("abc", "x", "y"), "abc");
    assert_eq!(replace_matches("", "x", "y"), "");
}

#[test]
fn replace_with_a_capture_group() {
    assert_eq!(replace_matches("deep fried", r"(\w+) (\w+)", "$2 $1"), "fried deep");
}

#[test]
fn try_replace_with_a_good_pattern() {
    assert_eq!(
        try_replace_matches("Hello      Sir", " {2,}", " "),
        Some(String::from("Hello Sir"))
    );
    assert_eq!(try_replace_matches("abc", "b", ""), Some(String::from("ac")));
}

#[test]
fn try_replace_with_a_bad_pattern() {
    assert_eq!(try_replace_matches("abc", "foo(bar", "x"), None);
    assert_eq!(try_replace_matches("abc", "[", "x"), None);
}

#[test]
fn patterns_give_the_spacing_of_dejustify() {
    let line = "Hi!    Hey?    Hello.    Bud.";
    let single = replace_matches(line, " {2,}", " ");
    assert_eq!(single, line.dejustify(1));
    let after_stop = replace_matches(&single, r"\. ", ".  ");
    let after_mark = replace_matches(&after_stop, r"\? ", "?  ");
    let after_bang = replace_matches(&after_mark, "! ", "!  ");
    assert_eq!(after_bang, line.dejustify(2));
}
