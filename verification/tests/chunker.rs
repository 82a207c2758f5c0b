use qa_gen::split;
use qa_gen::split_lines;
use qa_gen::split_text_into_chunks;
use qa_gen::word_count;

#[test]
fn word_count_basic() {
    assert_eq!(word_count(""), 0);
    assert_eq!(word_count("   "), 0);
    assert_eq!(word_count("one"), 1);
    assert_eq!(word_count("one two three"), 3);
    assert_eq!(word_count("  spaced\tout \twords  "), 3);
}

#[test]
fn split_lines_conventions() {
    assert_eq!(split_lines(""), Vec::<String>::new());
    assert_eq!(split_lines("a\nb"), vec!["a".to_string(), "b".to_string()]);
    assert_eq!(split_lines("a\r\nb\r\n"), vec!["a".to_string(), "b".to_string()]);
    assert_eq!(split_lines("a\nb\n"), vec!["a".to_string(), "b".to_string()]);
    assert_eq!(split_lines("\n\n"), vec!["".to_string(), "".to_string()]);
}

#[test]
fn budget_within_yields_at_most_one_chunk() {
    // Total word count (3) stays within the budget: the default
    // behaviour emits nothing (the open chunk is dropped), and flushing
    // the tail emits exactly one chunk.
    let text = "one two\nthree";
    assert_eq!(split(text, 10, false), Vec::<String>::new());
    assert_eq!(split(text, 10, true), vec!["one twothree".to_string()]);
}

#[test]
fn budget_split_current_behaviour_drops_tail() {
    // Every line counts two words against a budget of two: each next
    // line closes the open chunk, and the final chunk stays unflushed.
    let text = "a b\nc d\ne f";
    let chunks = split(text, 2, false);
    assert_eq!(chunks, vec!["a b".to_string(), "c d".to_string()]);
}

#[test]
fn budget_split_flushed_behaviour_keeps_all_lines() {
    let text = "a b\nc d\ne f";
    let chunks = split(text, 2, true);
    assert_eq!(chunks, vec!["a b".to_string(), "c d".to_string(), "e f".to_string()]);
    // Joined back together, the chunks carry every line in order.
    assert_eq!(chunks.concat(), "a bc de f");
}

#[test]
fn budget_split_oversized_line_forms_own_chunk() {
    let text = "one\ntwo three four five\nsix";
    let chunks = split(text, 2, true);
    assert_eq!(
        chunks,
        vec!["one".to_string(), "two three four five".to_string(), "six".to_string()]
    );
}

#[test]
fn paragraph_split_cuts_at_blank_lines() {
    let text = "first line\nsecond line\n\nnext section\n\n";
    let chunks = split_text_into_chunks(text);
    assert_eq!(
        chunks,
        vec!["first line\nsecond line\n\n".to_string(), "next section\n\n".to_string()]
    );
}

#[test]
fn paragraph_split_drops_unterminated_tail() {
    // The final stretch is not closed by a blank line and is dropped.
    let text = "kept section\n\ndangling rest";
    let chunks = split_text_into_chunks(text);
    assert_eq!(chunks, vec!["kept section\n\n".to_string()]);
}

#[test]
fn paragraph_split_empty_input() {
    assert_eq!(split_text_into_chunks(""), Vec::<String>::new());
}
