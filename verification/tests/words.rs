use rust_socket_chat::first_word;

#[test]
fn first_word_stops_at_the_first_space() {
    assert_eq!(first_word("hello world"), "hello");
    assert_eq!(first_word("one two three"), "one");
}

#[test]
fn first_word_of_spaceless_text_is_the_whole_text() {
    assert_eq!(first_word("hello"), "hello");
}

#[test]
fn first_word_edge_cases() {
    assert_eq!(first_word(""), "");
    assert_eq!(first_word(" leading"), "");
    assert_eq!(first_word("trailing "), "trailing");
}

#[test]
fn first_word_handles_wide_characters() {
    assert_eq!(first_word("héllo wörld"), "héllo");
}
