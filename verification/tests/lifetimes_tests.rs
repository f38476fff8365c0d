use rust_ownership::lifetimes::{
    apply, explicit, first_of, first_sentence, first_word, longest, store, store_forever,
    use_long_return_short, word_count, Excerpt,
};

#[test]
fn lifetime_longest_returns_longer_string() {
    assert_eq!(longest("long string", "short"), "long string");
    assert_eq!(longest("a", "bb"), "bb");
    assert_eq!(longest("eq", "eq"), "eq");
}

#[test]
fn lifetime_excerpt_holds_reference_to_source() {
    let novel = String::from("Hello. World.");
    let first = novel.split('.').next().unwrap();
    let excerpt = Excerpt { part: first };
    assert_eq!(excerpt.part, "Hello");
}

#[test]
fn lifetime_elision_first_word_extracts_correctly() {
    assert_eq!(first_word("hello world"), "hello");
    assert_eq!(first_word("single"), "single");
    assert_eq!(first_word(""), "");
}

#[test]
fn lifetime_static_str_coerces_to_shorter_lifetime() {
    let s: &'static str = "static";
    let shorter: &str = s;
    assert_eq!(shorter, "static");
}

#[test]
fn lifetime_multiple_independent_params_allow_short_second_arg() {
    let s1 = String::from("first");
    let result;
    {
        let s2 = String::from("second");
        result = first_of(s1.as_str(), s2.as_str());
    }
    assert_eq!(result, "first");
}

#[test]
fn lifetime_hrtb_apply_works_with_closures_and_fn_pointers() {
    assert_eq!(apply(|s| s.len(), "hello"), 5);
    assert_eq!(apply(str::len, "rust"), 4);
}

#[test]
fn longest_counts_bytes_and_prefers_the_first_on_a_tie() {
    // "é" takes two bytes, so it ties with "ab" and wins against "a".
    assert_eq!(longest("é", "ab"), "é");
    assert_eq!(longest("ab", "é"), "ab");
    assert_eq!(longest("a", "é"), "é");
    assert_eq!(longest("", ""), "");
}

#[test]
fn first_word_skips_leading_whitespace() {
    assert_eq!(first_word("  hi there"), "hi");
    assert_eq!(first_word("\tword\nnext"), "word");
    assert_eq!(first_word("\u{3000}wide\u{2003}space"), "wide");
}

#[test]
fn first_word_of_blank_text_is_the_text_itself() {
    assert_eq!(first_word("   "), "   ");
    assert_eq!(first_word("\n\t"), "\n\t");
}

#[test]
fn whitespace_set_matches_std() {
    for u in 0u32..0x3100 {
        if let Some(c) = char::from_u32(u) {
            let s = format!("a{}b", c);
            assert_eq!(word_count(&s) == 2, c.is_whitespace(), "U+{:04X}", u);
        }
    }
}

#[test]
fn first_word_twice_is_first_word_once() {
    for s in ["  hello world", "", " \t ", "one", "a b c"] {
        let once = first_word(s);
        assert_eq!(first_word(once), once);
    }
}

#[test]
fn word_count_counts_whitespace_separated_words() {
    assert_eq!(word_count("hello world rust"), 3);
    assert_eq!(word_count(""), 0);
    assert_eq!(word_count("  a  b "), 2);
    assert_eq!(word_count("x\u{a0}y"), 2);
    assert_eq!(apply(word_count, "hello world rust"), 3);
}

#[test]
fn no_words_exactly_when_all_whitespace() {
    for s in ["", " ", "\t\n ", "a", " b ", "\u{85}"] {
        let blank = s.chars().all(char::is_whitespace);
        assert_eq!(word_count(s) == 0, blank);
        if blank {
            assert_eq!(first_word(s), s);
        }
    }
}

#[test]
fn first_sentence_stops_before_the_first_dot() {
    assert_eq!(first_sentence("Call me Ishmael. Some years ago..."), "Call me Ishmael");
    assert_eq!(first_sentence("Hello. World."), "Hello");
    assert_eq!(first_sentence("no dot here"), "no dot here");
    assert_eq!(first_sentence(".starts with a dot"), "");
    assert_eq!(first_sentence(""), "");
    let excerpt = Excerpt { part: first_sentence("Über. alles") };
    assert_eq!(excerpt.part, "Über");
    assert_eq!(excerpt.part(), "Über");
}

#[test]
fn returning_functions_give_back_the_chosen_argument() {
    assert_eq!(explicit("first", "second"), "first");
    assert_eq!(use_long_return_short("short", "I live long"), "short");
}

#[test]
fn store_moves_values_onto_the_heap() {
    let boxed = store(String::from("owned"));
    assert_eq!(*boxed, "owned");
    let b = store_forever(vec![1, 2, 3]);
    assert_eq!(*b, vec![1, 2, 3]);
}
