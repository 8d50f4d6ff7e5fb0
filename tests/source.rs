use ftl::string::String as Source;

fn make(raw: &str) -> Source {
    Source::from_str(raw)
}

/// Checks the current character, line and in-line position of a source.
fn assert_source(s: &Source, ch: Option<char>, line: usize, pos: usize) {
    assert_eq!(s.curr_char(), ch, "Expected different character (right is expected one)");
    assert_eq!(s.curr_ptr().line(), line, "Wrong line number (right is expected one)");
    assert_eq!(s.curr_ptr().position(), pos, "Wrong in line position (right is expected one)");
}

fn string_source_from_empty_str() {
    let s = make("");
    assert_source(&s, None, 1, 1);
}

fn reading_past_empty_source_1() {
    let mut s = make("");
    s.next_char();
    assert_source(&s, None, 1, 1);
}

fn reading_past_empty_source_2() {
    let mut s = make("");
    s.next_char();
    s.next_char();
    s.next_char();
    assert_source(&s, None, 1, 1);
}

fn reading_1st_character_from_source() {
    let s = make("abcde");
    assert_source(&s, Some('a'), 1, 1);
}

fn reading_all_characters_from_source() {
    let raw = "abcde";
    let mut s = make(raw);
    for (i, ch) in raw.chars().enumerate() {
        assert_source(&s, Some(ch), 1, i + 1);
        s.next_char();
    }
    s.next_char();
    assert_source(&s, None, 1, raw.len());
}

fn reading_new_line() {
    let mut s = make("a\nc");
    s.next_char();
    assert_source(&s, Some('\n'), 1, 2);
}

fn reading_past_line() {
    let mut s = make("a\nc");
    s.next_char();
    s.next_char();
    assert_source(&s, Some('c'), 2, 1);
}

fn new_line_at_the_end_of_source() {
    let mut s = make("a\n");
    s.next_char();
    assert_source(&s, Some('\n'), 1, 2);
    s.next_char();
    assert_source(&s, None, 2, 0);
}

fn reading_white_spaces() {
    let mut s = make("a b");
    s.next_char();
    assert_source(&s, Some(' '), 1, 2);
}

fn reading_multiple_times_past_the_end_of_file() {
    let raw = "\n        asdas\n        asdas\n        fdsfsdfds\n        ";
    let mut s = make(raw);
    for _ in raw.chars() {
        s.next_char();
    }
    s.next_char();
    s.next_char();
    s.next_char();
    assert_source(&s, None, raw.lines().count(), raw.lines().last().unwrap().len());
}

const FRAGMENT_RAW: &str = "\n        asdas\n        gtrhdrthytj ydtj ukf \n        ey ste e \n        a";

fn getting_all_source_with_two_ptr() {
    let mut s = make(FRAGMENT_RAW);
    let beg = s.curr_ptr();
    for _ in FRAGMENT_RAW.chars() {
        s.next_char();
    }
    let end = s.curr_ptr();
    assert_eq!(s.source_between(&beg, &end), FRAGMENT_RAW);
}

fn getting_source_fragment_with_two_ptr() {
    let mut s = make(FRAGMENT_RAW);
    for _ in FRAGMENT_RAW.chars().take(10) {
        s.next_char();
    }
    let beg = s.curr_ptr();
    for _ in FRAGMENT_RAW.chars().skip(10).take(10) {
        s.next_char();
    }
    let end = s.curr_ptr();
    assert_eq!(
        s.source_between(&beg, &end),
        FRAGMENT_RAW.chars().skip(10).take(10).collect::<String>()
    );
}

/// The generic checks every source has to pass.
fn source_tests() {
    string_source_from_empty_str();
    reading_1st_character_from_source();
    reading_past_empty_source_1();
    reading_past_empty_source_2();
    reading_all_characters_from_source();
    reading_new_line();
    reading_past_line();
    new_line_at_the_end_of_source();
    reading_white_spaces();
    reading_multiple_times_past_the_end_of_file();
    getting_all_source_with_two_ptr();
    getting_source_fragment_with_two_ptr();
}

#[test]
fn string_string_source_from_empty_str() {
    let s = Source::from_str("");
    assert_source(&s, None, 1, 1);
}

#[test]
fn string_string_source_from_empty_string() {
    let string = String::new();
    let s = Source::from_string(string);
    assert_source(&s, None, 1, 1);
}

#[test]
fn string_source_tests_for_string_source() {
    source_tests();
}

#[test]
fn source_with_span_gives_the_covered_text() {
    let mut s = make("def f: 1");
    let beg = s.curr_ptr();
    s.next_char();
    s.next_char();
    s.next_char();
    let end = s.curr_ptr();
    let span = ftl::source::Span { beg, end };
    assert_eq!(s.source_with_span(&span), "def");
    assert_eq!(s.text_len(), 8);
}
