use text_align::text::{ascii_whitespace, chars_of, string_of, whitespace};
use text_align::words::split_words;

#[test]
fn white_space_is_what_the_standard_library_calls_so() {
    for code in 0..=0x10ffffu32 {
        if let Some(c) = char::from_u32(code) {
            assert_eq!(whitespace(c), c.is_whitespace());
            assert_eq!(ascii_whitespace(c), c.is_ascii_whitespace());
        }
    }
}

#[test]
fn characters_go_in_and_out_of_strings() {
    let chars = chars_of("h\u{e9}llo\n");
    assert_eq!(chars, vec!['h', '\u{e9}', 'l', 'l', 'o', '\n']);
    assert_eq!(string_of(&chars), "h\u{e9}llo\n");
    assert_eq!(string_of(&Vec::new()), "");
}

#[test]
fn words_are_runs_without_white_space() {
    let line = chars_of("  the quick\t\tbrown\nfox ");
    let words: Vec<String> = split_words(&line, 0, line.len()).iter().map(string_of).collect();
    assert_eq!(words, vec!["the", "quick", "brown", "fox"]);
    let part: Vec<String> = split_words(&line, 3, 9).iter().map(string_of).collect();
    assert_eq!(part, vec!["he", "qui"]);
    assert!(split_words(&line, 0, 2).is_empty());
    assert!(split_words(&line, 5, 5).is_empty());
}
