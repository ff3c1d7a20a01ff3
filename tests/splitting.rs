use water_news::chunker::{find_floor_char_boundary, split_message, MessageSplitIterator, MESSAGE_MAX_SIZE};
use water_news::delivery::{outgoing_texts, TelegramParseMode, TRANSPORT_MAX_SIZE};

fn repeat(c: char, n: usize) -> String {
    std::iter::repeat(c).take(n).collect()
}

#[test]
fn short_body_is_one_whole_segment() {
    let msg = repeat('a', 3999);
    let segs = split_message(&msg);
    assert_eq!(segs.len(), 1);
    assert_eq!(segs[0].text, msg);
    assert!(!segs[0].is_partial);
    let texts = outgoing_texts(&msg);
    assert_eq!(texts, vec![msg.clone()]);
}

#[test]
fn exactly_the_limit_is_one_segment() {
    let msg = repeat('x', 4000);
    let segs = split_message(&msg);
    assert_eq!(segs.len(), 1);
    assert!(!segs[0].is_partial);
}

#[test]
fn newline_within_window_is_the_break() {
    let mut msg = repeat('a', 3500);
    msg.push('\n');
    msg.push_str(&repeat('b', 5499));
    assert_eq!(msg.len(), 9000);
    let segs = split_message(&msg);
    assert_eq!(segs.len(), 3);
    assert_eq!(segs[0].text, repeat('a', 3500));
    assert!(segs[0].is_partial);
    assert_eq!(segs[1].text, repeat('b', 4000));
    assert!(segs[1].is_partial);
    assert_eq!(segs[2].text, repeat('b', 1499));
    assert!(!segs[2].is_partial);
    let texts = outgoing_texts(&msg);
    assert_eq!(texts[0], format!("{} […]", repeat('a', 3500)));
    assert_eq!(texts[2], repeat('b', 1499));
}

#[test]
fn newline_first_then_rightmost_space() {
    let mut msg = String::from("one\ntwo three ");
    msg.push_str(&repeat('c', 4100));
    let segs = split_message(&msg);
    assert_eq!(segs.len(), 4);
    assert_eq!(segs[0].text, "one");
    assert!(segs[0].is_partial);
    assert_eq!(segs[1].text, "two three");
    assert!(segs[1].is_partial);
    assert_eq!(segs[2].text, repeat('c', 4000));
    assert!(segs[2].is_partial);
    assert_eq!(segs[3].text, repeat('c', 100));
    assert!(!segs[3].is_partial);
}

#[test]
fn newline_preferred_to_a_later_space() {
    let mut msg = repeat('a', 100);
    msg.push('\n');
    msg.push_str(&repeat('b', 100));
    msg.push(' ');
    msg.push_str(&repeat('c', 4000));
    let segs = split_message(&msg);
    assert_eq!(segs[0].text, repeat('a', 100));
    assert!(segs[0].is_partial);
    assert_eq!(segs[1].text, repeat('b', 100));
    assert!(segs[1].is_partial);
    assert_eq!(segs[2].text, repeat('c', 4000));
    assert!(!segs[2].is_partial);
}

#[test]
fn space_break_when_no_newline() {
    let mut msg = repeat('a', 3000);
    msg.push_str("   ");
    msg.push_str(&repeat('b', 3000));
    let segs = split_message(&msg);
    assert_eq!(segs.len(), 2);
    assert_eq!(segs[0].text, repeat('a', 3000));
    assert!(segs[0].is_partial);
    assert_eq!(segs[1].text, repeat('b', 3000));
    assert!(!segs[1].is_partial);
}

#[test]
fn multibyte_characters_are_never_cut() {
    let mut msg = String::from("a");
    msg.push_str(&repeat('é', 2500));
    let segs = split_message(&msg);
    assert_eq!(segs.len(), 2);
    assert_eq!(segs[0].text.len(), 3999);
    assert!(segs[0].is_partial);
    assert_eq!(format!("{}{}", segs[0].text, segs[1].text), msg);
    for s in &segs {
        assert!(s.text.len() <= MESSAGE_MAX_SIZE);
    }
}

#[test]
fn surrounding_whitespace_is_trimmed() {
    let segs = split_message("  \n hello world \t\n");
    assert_eq!(segs.len(), 1);
    assert_eq!(segs[0].text, "hello world");
}

#[test]
fn empty_and_blank_messages_give_nothing() {
    assert_eq!(split_message("").len(), 0);
    assert_eq!(split_message(" \n\t ").len(), 0);
    assert_eq!(outgoing_texts("   ").len(), 0);
}

#[test]
fn segments_rejoin_to_the_message() {
    let mut msg = String::new();
    for i in 0..800 {
        msg.push_str(&format!("word{} ", i));
        if i % 97 == 0 {
            msg.push('\n');
        }
    }
    let trimmed = msg.trim().to_string();
    let segs = split_message(&msg);
    let mut rebuilt = String::new();
    let mut rest = trimmed.as_str();
    for s in &segs {
        let at = rest.find(s.text.as_str()).unwrap();
        assert!(rest[..at].chars().all(char::is_whitespace));
        rebuilt.push_str(&s.text);
        rest = &rest[at + s.text.len()..];
    }
    assert!(rest.chars().all(char::is_whitespace));
    let squeezed: String = trimmed.split_whitespace().collect();
    let joined: String = rebuilt.split_whitespace().collect();
    assert_eq!(squeezed, joined);
}

#[test]
fn every_outgoing_text_fits_the_transport() {
    let mut msg = String::new();
    for _ in 0..3000 {
        msg.push_str("ação ");
    }
    for t in outgoing_texts(&msg) {
        assert!(t.len() <= TRANSPORT_MAX_SIZE);
    }
}

#[test]
fn iterator_hands_out_segments_in_order() {
    let mut msg = repeat('a', 3500);
    msg.push('\n');
    msg.push_str(&repeat('b', 1000));
    let mut it = MessageSplitIterator::new(&msg);
    assert_eq!(it.next(), Some((&msg[..3500], true)));
    assert_eq!(it.next(), Some((&msg[3501..], false)));
    assert_eq!(it.next(), None);
}

#[test]
fn floor_boundary_counts_whole_characters() {
    let chars: Vec<char> = "aéb".chars().collect();
    assert_eq!(find_floor_char_boundary(&chars, 0), 0);
    assert_eq!(find_floor_char_boundary(&chars, 1), 1);
    assert_eq!(find_floor_char_boundary(&chars, 2), 1);
    assert_eq!(find_floor_char_boundary(&chars, 3), 2);
    assert_eq!(find_floor_char_boundary(&chars, 100), 3);
}

#[test]
fn parse_mode_values() {
    assert_eq!(TelegramParseMode::Markdown.get_value(), Some("Markdown".to_string()));
    assert_eq!(TelegramParseMode::PlainText.get_value(), None);
}
