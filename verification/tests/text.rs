use q3_client::text::{chars_of, find_char, split_spans, string_of};

#[test]
fn chars_of_gives_characters_in_order() {
    assert_eq!(chars_of(""), Vec::<char>::new());
    assert_eq!(chars_of("abc"), vec!['a', 'b', 'c']);
    assert_eq!(chars_of("ü☺"), vec!['ü', '☺']);
}

#[test]
fn string_of_takes_a_part() {
    let chars = chars_of("hello ☺ world");
    assert_eq!(string_of(&chars, 0, chars.len()), "hello ☺ world");
    assert_eq!(string_of(&chars, 6, 7), "☺");
    assert_eq!(string_of(&chars, 3, 3), "");
}

#[test]
fn find_char_gives_first_position() {
    let chars = chars_of("a,b,c");
    assert_eq!(find_char(&chars, 0, 5, ','), 1);
    assert_eq!(find_char(&chars, 1, 5, ','), 1);
    assert_eq!(find_char(&chars, 2, 5, ','), 3);
    assert_eq!(find_char(&chars, 4, 5, ','), 5);
    assert_eq!(find_char(&chars, 0, 1, ','), 1);
    assert_eq!(find_char(&chars, 2, 2, ','), 2);
}

fn cut(text: &str, at: char) -> Vec<String> {
    let chars = chars_of(text);
    split_spans(&chars, 0, chars.len(), at)
        .into_iter()
        .map(|(from, to)| string_of(&chars, from, to))
        .collect()
}

#[test]
fn split_spans_cuts_at_each_occurrence() {
    assert_eq!(cut("", ','), vec![""]);
    assert_eq!(cut("abc", ','), vec!["abc"]);
    assert_eq!(cut("a,b,c", ','), vec!["a", "b", "c"]);
    assert_eq!(cut(",a,,b,", ','), vec!["", "a", "", "b", ""]);
    assert_eq!(cut(",", ','), vec!["", ""]);
}

#[test]
fn split_spans_agrees_with_std() {
    for text in ["", "\n", "a\nb", "a\n\nb\n", "\n\n\n", "statusResponse\n\\k\\v\n"] {
        let expected: Vec<String> = text.split('\n').map(|s| s.to_string()).collect();
        assert_eq!(cut(text, '\n'), expected);
    }
}

#[test]
fn split_spans_of_a_part() {
    let chars = chars_of("ab,cd,ef");
    assert_eq!(split_spans(&chars, 1, 7, ','), vec![(1, 2), (3, 5), (6, 7)]);
    assert_eq!(split_spans(&chars, 3, 5, ','), vec![(3, 5)]);
    assert_eq!(split_spans(&chars, 2, 3, ','), vec![(2, 2), (3, 3)]);
}
