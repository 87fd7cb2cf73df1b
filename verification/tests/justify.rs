use text_align::TextAlign;

#[test]
fn test_justify_sentence() {
    // Non-newline tests
    assert_eq!("Good dog".justify(1), "Good dog");
    assert_eq!("Good dog".justify(8), "Good dog");
    assert_eq!("Good dog".justify(9), "Good  dog");
    assert_eq!("Good dog".justify(10), "Good   dog");
    assert_eq!("Really good dog".justify(16), "Really good  dog");
    assert_eq!("Really good dog".justify(17), "Really  good  dog");
    assert_eq!("Really good dog".justify(18), "Really  good   dog");

    // Newline tests
    assert_eq!("Good dog\n".justify(1), "Good dog\n");
    assert_eq!("Good dog\n".justify(8), "Good dog\n");
    assert_eq!("Good dog\n".justify(9), "Good  dog\n");
    assert_eq!("Good dog\n".justify(10), "Good   dog\n");
    assert_eq!("Really good dog\n".justify(16), "Really good  dog\n");
    assert_eq!("Really good dog\n".justify(17), "Really  good  dog\n");
    assert_eq!("Really good dog\n".justify(18), "Really  good   dog\n");
}

#[test]
fn justify_a_sentence_to_fifty() {
    assert_eq!(
        "Hello my dearest friend!".justify(50),
        "Hello          my          dearest         friend!"
    );
}

#[test]
fn justify_leaves_a_line_without_gaps_as_it_is() {
    assert_eq!("".justify(5), "");
    assert_eq!("\n".justify(5), "\n");
    assert_eq!("   ".justify(9), "   ");
    assert_eq!("word".justify(9), "word");
    assert_eq!("  word \n".justify(20), "  word \n");
}

#[test]
fn justify_leaves_a_long_line_as_it_is() {
    assert_eq!("a    b".justify(4), "a    b");
    assert_eq!("a    b".justify(6), "a    b");
    assert_eq!("a    b".justify(7), "a     b");
    assert_eq!("a b\n".justify(3), "a b\n");
    assert_eq!("a b\n".justify(4), "a  b\n");
}

#[test]
fn justify_splits_on_any_ascii_white_space() {
    // 3 letters, 5 spaces, 2 gaps: two each, and the odd one to gap 1
    assert_eq!("a\tb \r c".justify(8), "a  b   c");
    assert_eq!("  a b  ".justify(9), "a       b");
    assert_eq!("a\nb\n".justify(5), "a   b\n");
}

#[test]
fn justify_reaches_the_width_with_even_gaps() {
    let line = "the quick brown fox jumps over the lazy dog";
    let letters: usize = line.split_ascii_whitespace().map(|w| w.len()).sum();
    let gaps = line.split_ascii_whitespace().count() - 1;
    for width in (line.len() + 1)..120usize {
        let out = line.justify(width);
        assert_eq!(out.len(), width);
        let words: Vec<&str> = out.split_ascii_whitespace().collect();
        let expected: Vec<&str> = line.split_ascii_whitespace().collect();
        assert_eq!(words, expected);
        let budget = width - letters;
        let mut runs: Vec<usize> = Vec::new();
        let mut run = 0usize;
        for c in out.chars() {
            if c == ' ' {
                run += 1;
            } else if run > 0 {
                runs.push(run);
                run = 0;
            }
        }
        assert_eq!(runs.len(), gaps);
        assert_eq!(runs.iter().sum::<usize>(), budget);
        let wide = runs.iter().filter(|r| **r == budget / gaps + 1).count();
        assert_eq!(wide, budget % gaps);
        for r in &runs {
            assert!(*r >= 1);
            assert!(*r == budget / gaps || *r == budget / gaps + 1);
        }
    }
}

#[test]
fn justify_spreads_the_wide_gaps() {
    // 9 letters and 8 gaps; 11 spaces: one each, and three more at gaps 1, 3 and 6
    assert_eq!("a b c d e f g h i".justify(20), "a b  c d  e f g  h i");
}

#[test]
fn justify_counts_characters() {
    assert_eq!("\u{e9} \u{e9}".justify(5), "\u{e9}   \u{e9}");
}
