use water_news::date::{parse_date, Date};
use water_news::error::Error;
use water_news::news_post::{encode_to_hex, is_truncated_excerpt, sha1_digest, NewsPost};

fn post(title: &str, content: &str, date: Option<Date>) -> NewsPost {
    NewsPost::new(title.to_string(), "https://example.com/n/1".to_string(), content.to_string(), date)
}

#[test]
fn hex_is_upper_case_two_digits_per_byte() {
    assert_eq!(encode_to_hex(&[0x00, 0x0f, 0xab, 0xff]), "000FABFF");
    assert_eq!(encode_to_hex(&[]), "");
}

#[test]
fn identity_is_sha1_of_the_body() {
    assert_eq!(sha1_digest(&"abc".to_string()), "A9993E364706816ABA3E25717850C26C9CD0D89D");
    let p = post("t", "abc", None);
    assert_eq!(p.id(), "A9993E364706816ABA3E25717850C26C9CD0D89D");
    assert_eq!(p.id().len(), 40);
}

#[test]
fn identity_is_stable_and_ignores_metadata() {
    let a = post("Old title", "Same body", Date::new(2023, 1, 2));
    let b = post("New title", "Same body", None);
    assert_eq!(a.id(), b.id());
    assert_eq!(post("x", "Same body", None).id(), a.id());
    let c = post("Old title", "Other body", Date::new(2023, 1, 2));
    assert_ne!(a.id(), c.id());
}

#[test]
fn markdown_rendering_with_date() {
    let p = post("Title", "  first\r\n\n\r\nsecond\nthird  ", Date::new(2023, 5, 7));
    assert_eq!(
        p.as_markdown_string(),
        "[Title](https://example.com/n/1)\n\n_Data: 07/05/2023_\n\nfirst\n\nsecond\n\nthird"
    );
}

#[test]
fn markdown_rendering_without_date() {
    let p = post("T", "body", None);
    assert_eq!(p.as_markdown_string(), "[T](https://example.com/n/1)\n\n_Data: -_\n\nbody");
    assert_eq!(p.date(), &None);
}

#[test]
fn formatted_content_collapses_line_breaks() {
    let p = post("T", "\n a\r\nb\rc\n\n\nd \n", None);
    assert_eq!(p.formated_content(), "a\n\nb\rc\n\nd");
}

#[test]
fn dates_are_checked() {
    assert_eq!(Date::new(2024, 2, 29), Some(Date { year: 2024, month: 2, day: 29 }));
    assert_eq!(Date::new(2023, 2, 29), None);
    assert_eq!(Date::new(1900, 2, 29), None);
    assert_eq!(Date::new(2000, 2, 29).map(|d| d.day), Some(29));
    assert_eq!(Date::new(2023, 4, 31), None);
    assert_eq!(Date::new(2023, 13, 1), None);
    assert_eq!(Date::new(2023, 1, 0), None);
    assert_eq!(Date::new(0, 1, 1), None);
    assert_eq!(Date::new(2023, 12, 31).unwrap().format_dmy(), "31/12/2023");
    assert_eq!(Date::new(987, 3, 9).unwrap().format_dmy(), "09/03/0987");
}

#[test]
fn error_texts() {
    assert_eq!(
        Error::ElementNotFound(".card-title".to_string()).to_string(),
        "Element \".card-title\" not found while parsing website\n"
    );
    assert_eq!(
        Error::AttrNotFound("href".to_string()).to_string(),
        "Attribute \"href\" not found while parsing website\n"
    );
    assert_eq!(Error::ConnectionError("x".to_string()).to_string(), "Reqwest Connection Error: x\n");
    assert_eq!(Error::TelegramApiError("y".to_string()).to_string(), "Telegram API Connection Error: y\n");
    assert_eq!(Error::DatabaseConnectionError("z".to_string()).to_string(), "SQLite Connection Error: z\n");
}

#[test]
fn truncated_excerpts_end_in_three_dots() {
    assert!(is_truncated_excerpt("Leia mais..."));
    assert!(is_truncated_excerpt("..."));
    assert!(!is_truncated_excerpt(".."));
    assert!(!is_truncated_excerpt("Fim."));
    assert!(!is_truncated_excerpt("Fim…"));
    assert!(!is_truncated_excerpt(""));
}

#[test]
fn dates_written_with_de() {
    use_parse("7 de May de 2023", Some((2023, 5, 7)));
    use_parse(" 29 de february de 2024 ", Some((2024, 2, 29)));
    use_parse("1 de JAN de 2020", Some((2020, 1, 1)));
    use_parse("+3 de nov de 1999", Some((1999, 11, 3)));
    use_parse("3 de dec de 1999", None);
    use_parse("29 de feb de 2023", None);
    use_parse("10 de outubro de 2023", None);
    use_parse("10 de mayo de 2023", None);
    use_parse("10 de may", None);
    use_parse("x de may de 2023", None);
    use_parse("5 de sep de 2023 de resto", Some((2023, 9, 5)));
    use_parse("", None);
}

fn use_parse(text: &str, expected: Option<(i32, u32, u32)>) {
    let got = parse_date(text).map(|d| (d.year, d.month, d.day));
    assert_eq!(got, expected, "{}", text);
}
