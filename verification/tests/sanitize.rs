use q3_client::string_utils::sanitize_string;

#[test]
fn test_sanitize_string() {
    let player_name = "^1Player^7Name";
    let expected = "PlayerName";

    assert_eq!(sanitize_string(player_name), expected);
}

#[test]
fn test_sanitize_string_with_double_caret() {
    let player_name = "^1Player^^7Name";
    let expected = "Player^Name";

    assert_eq!(sanitize_string(player_name), expected);
}

#[test]
fn test_sanitize_string_with_no_caret() {
    let player_name = "PlayerName";
    let expected = "PlayerName";

    assert_eq!(sanitize_string(player_name), expected);
}

#[test]
fn test_sanitize_string_with_triple_caret() {
    let player_name = "^1Player^^^7Name";
    let expected = "Player^^Name";

    assert_eq!(sanitize_string(player_name), expected);
}

#[test]
fn sanitize_empty_name() {
    assert_eq!(sanitize_string(""), "");
}

#[test]
fn sanitize_drops_caret_at_the_end() {
    assert_eq!(sanitize_string("Name^"), "Name");
    assert_eq!(sanitize_string("^"), "");
}

#[test]
fn sanitize_drops_code_at_the_end() {
    assert_eq!(sanitize_string("Name^7"), "Name");
    assert_eq!(sanitize_string("^7"), "");
}

#[test]
fn sanitize_two_carets_alone() {
    // The first caret is kept, the second stands at the end and is dropped.
    assert_eq!(sanitize_string("^^"), "^");
    assert_eq!(sanitize_string("^^^"), "^^");
    assert_eq!(sanitize_string("a^^"), "a^");
}

#[test]
fn sanitize_reads_characters_not_bytes() {
    assert_eq!(sanitize_string("^1Jürgen^7 ☺"), "Jürgen ☺");
    // The code character itself may take several bytes.
    assert_eq!(sanitize_string("a^éb"), "ab");
    assert_eq!(sanitize_string("^☺"), "");
}

#[test]
fn sanitize_keeps_names_without_caret() {
    for name in ["", "a", "Player Name", "1234", "\\\"\n", "ünïcödé"] {
        assert_eq!(sanitize_string(name), name);
    }
}

#[test]
fn sanitize_never_lengthens() {
    for name in ["", "^", "^^", "^^^", "^^^^", "^1^2^3", "a^^b^^c", "^^7", "x^", "^x^^y^"] {
        let cleaned = sanitize_string(name);
        assert!(cleaned.chars().count() <= name.chars().count());
        assert!(cleaned.len() <= name.len());
    }
}

#[test]
fn sanitize_leaves_a_caret_only_for_two_in_a_row() {
    for name in ["^1a", "a^1b^2c", "^", "a^", "^a^b^c^"] {
        assert!(!sanitize_string(name).contains('^'));
    }
    assert!(sanitize_string("a^^b").contains('^'));
}

#[test]
fn sanitize_twice_may_differ() {
    // "^^1" gives "^" and the code is gone with it; read again, "^" gives nothing.
    let once = sanitize_string("^^1x");
    assert_eq!(once, "^x");
    assert_eq!(sanitize_string(&once), "");
}

#[test]
fn sanitize_consecutive_codes() {
    assert_eq!(sanitize_string("^1^2^3abc"), "abc");
    assert_eq!(sanitize_string("^1a^2b^3c"), "abc");
}
