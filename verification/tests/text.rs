use text_shaping::text::{all_blank, byte_len, char_at_byte, char_end, str_eq, substr};

#[test]
fn reads_characters_by_byte_offset() {
    let text = "aλ🜚b";
    assert_eq!(byte_len(text), 8);
    assert_eq!(char_at_byte(text, 0), 'a');
    assert_eq!(char_at_byte(text, 1), 'λ');
    assert_eq!(char_at_byte(text, 3), '🜚');
    assert_eq!(char_at_byte(text, 7), 'b');
    assert_eq!(char_end(text, 0), 1);
    assert_eq!(char_end(text, 1), 3);
    assert_eq!(char_end(text, 3), 7);
    assert_eq!(char_end(text, 7), 8);
    assert_eq!(char_end("語", 0), 3);
}

#[test]
fn cuts_text_between_boundaries() {
    let text = "aλ🜚b";
    assert_eq!(substr(text, 1, 7), "λ🜚");
    assert_eq!(substr(text, 0, 8), text);
    assert_eq!(substr(text, 3, 3), "");
    assert_eq!(substr(text, 8, 8), "");
}

#[test]
fn tells_blank_text() {
    assert!(all_blank(""));
    assert!(all_blank("\n\t\t\n"));
    assert!(!all_blank("\n \n"));
    assert!(!all_blank("\r\n"));
    assert!(!all_blank("a"));
}

#[test]
fn compares_text() {
    assert!(str_eq("", ""));
    assert!(str_eq("λx", "λx"));
    assert!(!str_eq("λx", "λy"));
    assert!(!str_eq("ab", "abc"));
    assert!(!str_eq("abc", "ab"));
}
