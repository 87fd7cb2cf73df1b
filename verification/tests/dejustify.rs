use text_align::TextAlign;

#[test]
fn test_dejustify() {
    // Non-newline tests
    assert_eq!(
        "Hi    bud.    How    are    you?".dejustify(1),
        "Hi bud. How are you?"
    );
    assert_eq!(
        "Hi    bud.    How    are    you?".dejustify(2),
        "Hi bud.  How are you?"
    );
    assert_eq!(
        "Hi!    Hey?    Hello.    Bud.".dejustify(2),
        "Hi!  Hey?  Hello.  Bud."
    );
    assert_eq!(
        "Hi!    Hey?\nHello.    Bud.".dejustify(1),
        "Hi! Hey?\nHello. Bud."
    );

    // Newline tests
    assert_eq!(
        "Hi    bud.    How    are    you?\n".dejustify(1),
        "Hi bud. How are you?\n"
    );
    assert_eq!(
        "Hi    bud.    How    are    you?\n".dejustify(2),
        "Hi bud.  How are you?\n"
    );
    assert_eq!(
        "Hi!    Hey?    Hello.    Bud.\n".dejustify(2),
        "Hi!  Hey?  Hello.  Bud.\n"
    );
    assert_eq!(
        "Hi!    Hey?\nHello.    Bud.\n".dejustify(1),
        "Hi! Hey?\nHello. Bud.\n"
    );
}

#[test]
fn dejustify_a_justified_sentence() {
    assert_eq!(
        "Hello          my          dearest         friend!".dejustify(2),
        "Hello my dearest friend!"
    );
}

#[test]
fn dejustify_with_no_spaces_asked_for_only_collapses() {
    assert_eq!("Hi.   You?  Me!".dejustify(0), "Hi. You? Me!");
    assert_eq!("Hi.   You?  Me!".dejustify(1), "Hi. You? Me!");
    assert_eq!("Hi.   You?  Me!".dejustify(3), "Hi.   You?   Me!");
}

#[test]
fn dejustify_keeps_single_spaces_and_other_white_space() {
    assert_eq!("".dejustify(2), "");
    assert_eq!(" ".dejustify(2), " ");
    assert_eq!("   ".dejustify(2), " ");
    assert_eq!("a\t\tb".dejustify(2), "a\t\tb");
    assert_eq!("a.\tb".dejustify(2), "a.\tb");
    assert_eq!("a..  b".dejustify(2), "a..  b");
    assert_eq!("a.b".dejustify(4), "a.b");
    assert_eq!(". a".dejustify(2), ".  a");
    assert_eq!(" .a".dejustify(2), " .a");
    assert_eq!("it's  'so'".dejustify(2), "it's 'so'");
}

#[test]
fn dejustify_twice_is_dejustify_once() {
    let lines = [
        "Hi    bud.    How    are    you?",
        "Hi!    Hey?    Hello.    Bud.\n",
        "  . ?  !   a.  b  ",
        "no  sentence   here",
        "",
        ".",
        ". . . ",
    ];
    for line in lines {
        for n in 0..5usize {
            let once = line.dejustify(n);
            assert_eq!(once.dejustify(n), once);
        }
    }
}

#[test]
fn dejustify_does_not_always_undo_justify() {
    let line = "Wait.  What now";
    let wide = line.justify(20);
    assert_eq!(wide, "Wait.    What    now");
    assert_eq!(wide.dejustify(1), "Wait. What now");
    assert_eq!(wide.dejustify(2), "Wait.  What now");
}
