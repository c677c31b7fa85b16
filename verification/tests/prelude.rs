use markup_pager::decimal::parse_size;
use markup_pager::text_types::{from_tokens, Color, StyledLine, TextStyle};
use markup_pager::tokenizer::{
    extract_attribute, extract_prelude, read_prelude, tokenize_string, Alignment,
    DisplayAttributes, InvalidAlignment, StringViewer, Token,
};

fn plain() -> TextStyle {
    TextStyle::default()
}

fn body_tokens(document: &str) -> (Vec<DisplayAttributes<'_>>, Vec<Token<'_>>) {
    let prelude = extract_prelude(document);
    let tokens = tokenize_string(prelude.string_viewer).output_values;
    (prelude.output_values, tokens)
}

#[test]
fn document_with_title_end_to_end() {
    let document = "-\ntitle: Demo\n-\n!title Hello$";
    let (attributes, tokens) = body_tokens(document);
    assert_eq!(attributes, vec![DisplayAttributes::Title("Demo")]);
    assert_eq!(
        tokens,
        vec![
            Token::Start("title"),
            Token::Whitespace(" "),
            Token::Text("Hello"),
            Token::End,
        ]
    );
    let lines = from_tokens("", &tokens).expect("the style is known");
    assert_eq!(
        lines,
        vec![StyledLine {
            text: "Hello",
            style: TextStyle { bold: true, italic: true, slow_blink: true, ..plain() },
        }]
    );
    assert_eq!(lines[0].style.foreground, None::<Color>);
    assert!(!lines[0].style.rapid_blink);
}

#[test]
fn document_without_header_is_all_body() {
    let (attributes, tokens) = body_tokens("!normal a-b$");
    assert_eq!(attributes, vec![]);
    assert_eq!(
        tokens,
        vec![
            Token::Start("normal"),
            Token::Whitespace(" "),
            Token::Text("a-b"),
            Token::End,
        ]
    );
}

#[test]
fn header_must_start_the_document() {
    let (attributes, tokens) = body_tokens(" -\ntitle: Demo\n-\n");
    assert_eq!(attributes, vec![]);
    assert_eq!(tokens[0], Token::Whitespace(" "));
    assert_eq!(tokens[1], Token::Text("-\ntitle: Demo\n-\n"));
}

#[test]
fn empty_document_has_no_header() {
    let (attributes, tokens) = body_tokens("");
    assert_eq!(attributes, vec![]);
    assert_eq!(tokens, vec![]);
}

#[test]
fn header_with_all_attributes() {
    let document = "- header\r\ntitle: Demo\r\ntext_size: 12\r\ntext_alignment: center\r\n-\r\nbody$";
    let (attributes, tokens) = body_tokens(document);
    assert_eq!(
        attributes,
        vec![
            DisplayAttributes::Title("Demo"),
            DisplayAttributes::TextSize(12),
            DisplayAttributes::Alignment(Alignment::Center),
        ]
    );
    assert_eq!(tokens, vec![Token::Text("body"), Token::End]);
}

#[test]
fn header_tolerates_blank_lines_and_spaces() {
    let document = "-\n\n   title:    Demo   \n\n \n  text_size:7\n-\nx";
    let (attributes, tokens) = body_tokens(document);
    assert_eq!(
        attributes,
        vec![DisplayAttributes::Title("Demo"), DisplayAttributes::TextSize(7)]
    );
    assert_eq!(tokens, vec![Token::Text("x")]);
}

#[test]
fn alignment_values() {
    let (attributes, _) = body_tokens(
        "-\ntext_alignment: left\ntext_alignment: center\ntext_alignment: right\n-\n",
    );
    assert_eq!(
        attributes,
        vec![
            DisplayAttributes::Alignment(Alignment::Left),
            DisplayAttributes::Alignment(Alignment::Center),
            DisplayAttributes::Alignment(Alignment::Right),
        ]
    );
}

#[test]
fn unknown_alignment_stands_for_left() {
    let (attributes, _) = body_tokens("-\ntext_alignment: middle\ntext_alignment: Center\n-\n");
    assert_eq!(
        attributes,
        vec![
            DisplayAttributes::Alignment(Alignment::Left),
            DisplayAttributes::Alignment(Alignment::Left),
        ]
    );
}

#[test]
fn text_size_that_is_no_number_is_dropped() {
    let (attributes, tokens) =
        body_tokens("-\ntext_size: big\ntitle: T\ntext_size: -3\ntext_size: 4\n-\nx$");
    assert_eq!(
        attributes,
        vec![DisplayAttributes::Title("T"), DisplayAttributes::TextSize(4)]
    );
    assert_eq!(tokens, vec![Token::Text("x"), Token::End]);
}

#[test]
fn unknown_keys_are_passed_over() {
    let (attributes, tokens) = body_tokens("-\nauthor: me\ntitle: T\nTitle: U\n-\nx$");
    assert_eq!(attributes, vec![DisplayAttributes::Title("T")]);
    assert_eq!(tokens, vec![Token::Text("x"), Token::End]);
}

#[test]
fn line_without_colon_is_passed_over() {
    let (attributes, tokens) = body_tokens("-\ntitle Demo\ntext_size: 3\n-\nx$");
    assert_eq!(attributes, vec![DisplayAttributes::TextSize(3)]);
    assert_eq!(tokens, vec![Token::Text("x"), Token::End]);
}

#[test]
fn value_ends_at_whitespace() {
    let (attributes, tokens) = body_tokens("-\ntitle: My Demo\n-\nx$");
    assert_eq!(attributes, vec![DisplayAttributes::Title("My")]);
    assert_eq!(tokens, vec![Token::Text("x"), Token::End]);
}

#[test]
fn empty_value_is_kept_for_title() {
    let (attributes, _) = body_tokens("-\ntitle:\ntext_size:\n-\n");
    assert_eq!(attributes, vec![DisplayAttributes::Title("")]);
}

#[test]
fn title_is_stored_as_written() {
    let (attributes, _) = body_tokens("-\ntitle: Ünï-cödé!$\n-\n");
    assert_eq!(attributes, vec![DisplayAttributes::Title("Ünï-cödé!$")]);
}

#[test]
fn unclosed_header_takes_the_whole_document() {
    let (attributes, tokens) = body_tokens("-\ntitle: Demo\n");
    assert_eq!(attributes, vec![DisplayAttributes::Title("Demo")]);
    assert_eq!(tokens, vec![]);

    let (attributes, tokens) = body_tokens("-");
    assert_eq!(attributes, vec![]);
    assert_eq!(tokens, vec![]);
}

#[test]
fn closing_line_is_consumed_with_its_line_end() {
    let (_, tokens) = body_tokens("-\n- end of header\r\n\n!normal a$");
    assert_eq!(
        tokens,
        vec![
            Token::Whitespace("\n"),
            Token::Start("normal"),
            Token::Whitespace(" "),
            Token::Text("a"),
            Token::End,
        ]
    );
}

#[test]
fn closing_line_without_line_end() {
    let (attributes, tokens) = body_tokens("-\ntitle: T\n-");
    assert_eq!(attributes, vec![DisplayAttributes::Title("T")]);
    assert_eq!(tokens, vec![]);
}

#[test]
fn header_is_read_from_the_cursor() {
    let mut viewer = StringViewer::new("x-\ntitle: T\n-\ny");
    assert_eq!(viewer.next(), Some("x"));
    let result = read_prelude(viewer);
    assert_eq!(result.extraction.output_values, vec![DisplayAttributes::Title("T")]);
    assert_eq!(result.extraction.string_viewer.peek(), Some("y"));
    assert_eq!(result.warnings, vec![]);
}

#[test]
fn header_over_given_clusters() {
    let clusters = vec!["-", "\n", "t", "i", "t", "l", "e", ":", " ", "D", "\n", "-", "\n", "b"];
    let viewer = StringViewer::with_clusters("-\ntitle: D\n-\nb", clusters).expect("tiles");
    let result = read_prelude(viewer).extraction;
    assert_eq!(result.output_values, vec![DisplayAttributes::Title("D")]);
    assert_eq!(result.string_viewer.peek(), Some("b"));
}

#[test]
fn attribute_of_key_and_value() {
    assert_eq!(
        DisplayAttributes::parse("title", "Demo"),
        Some(DisplayAttributes::Title("Demo"))
    );
    assert_eq!(
        DisplayAttributes::parse("text_size", "+42"),
        Some(DisplayAttributes::TextSize(42))
    );
    assert_eq!(DisplayAttributes::parse("text_size", "4 2"), None);
    assert_eq!(
        DisplayAttributes::parse("text_alignment", "right"),
        Some(DisplayAttributes::Alignment(Alignment::Right))
    );
    assert_eq!(
        DisplayAttributes::parse("text_alignment", ""),
        Some(DisplayAttributes::Alignment(Alignment::Left))
    );
    assert_eq!(DisplayAttributes::parse("size", "4"), None);
    assert_eq!(DisplayAttributes::parse("", ""), None);
}

#[test]
fn sizes_that_parse() {
    assert_eq!(parse_size("0"), Some(0));
    assert_eq!(parse_size("7"), Some(7));
    assert_eq!(parse_size("+7"), Some(7));
    assert_eq!(parse_size("007"), Some(7));
    assert_eq!(parse_size("1234567890"), Some(1234567890));
    assert_eq!(parse_size(&usize::MAX.to_string()), Some(usize::MAX));
}

#[test]
fn sizes_that_do_not_parse() {
    assert_eq!(parse_size(""), None);
    assert_eq!(parse_size("+"), None);
    assert_eq!(parse_size("-1"), None);
    assert_eq!(parse_size("++1"), None);
    assert_eq!(parse_size("1+"), None);
    assert_eq!(parse_size(" 1"), None);
    assert_eq!(parse_size("1 "), None);
    assert_eq!(parse_size("12a"), None);
    assert_eq!(parse_size("1.5"), None);
    assert_eq!(parse_size("１２"), None);
    assert_eq!(parse_size("٣"), None);
    assert_eq!(parse_size(&format!("{}0", usize::MAX)), None);
    assert_eq!(parse_size("340282366920938463463374607431768211456"), None);
}

#[test]
fn size_just_past_the_largest_does_not_parse() {
    let largest = usize::MAX.to_string();
    let (head, last) = largest.split_at(largest.len() - 1);
    let digit: u32 = last.parse().expect("a digit");
    if digit < 9 {
        assert_eq!(parse_size(&format!("{}{}", head, digit + 1)), None);
    }
    assert_eq!(parse_size(&format!("{}{}", head, digit)), Some(usize::MAX));
}

#[test]
fn sizes_agree_with_the_standard_parser() {
    let samples = ["0", "+0", "10", "+", "", "-0", "99999999999999999999999", "4x", "x4", "0004"];
    for sample in samples {
        assert_eq!(parse_size(sample), sample.parse::<usize>().ok());
    }
}

#[test]
fn closing_marker_is_no_attribute_and_is_not_consumed() {
    let mut viewer = StringViewer::new("-\n!title Hello$");
    let mut warnings = Vec::new();
    assert_eq!(extract_attribute(&mut viewer, &mut warnings), None);
    assert_eq!(viewer.peek(), Some("-"));
    assert_eq!(viewer.split_string((0, 1)), "-");
    assert_eq!(viewer.next(), Some("-"));
    assert_eq!(viewer.next(), Some("\n"));
    assert_eq!(warnings, vec![]);
}

#[test]
fn whitespace_before_the_closing_marker_is_consumed() {
    let mut viewer = StringViewer::new(" \n\r\n - rest");
    let mut warnings = Vec::new();
    assert_eq!(extract_attribute(&mut viewer, &mut warnings), None);
    assert_eq!(viewer.peek(), Some("-"));
    assert_eq!(extract_attribute(&mut viewer, &mut warnings), None);
    assert_eq!(viewer.peek(), Some("-"));
}

#[test]
fn whitespace_before_an_entry_is_passed_over() {
    let mut viewer = StringViewer::new("\n \r\n  title: Demo\n-\n");
    let mut warnings = Vec::new();
    assert_eq!(
        extract_attribute(&mut viewer, &mut warnings),
        Some(DisplayAttributes::Title("Demo"))
    );
    assert_eq!(viewer.peek(), Some("\n"));
    assert_eq!(extract_attribute(&mut viewer, &mut warnings), None);
    assert_eq!(viewer.peek(), Some("-"));
}

#[test]
fn no_attribute_at_the_end_of_the_text() {
    let mut warnings = Vec::new();
    let mut viewer = StringViewer::new("");
    assert_eq!(extract_attribute(&mut viewer, &mut warnings), None);
    assert_eq!(viewer.peek(), None);

    let mut viewer = StringViewer::new(" \n ");
    assert_eq!(extract_attribute(&mut viewer, &mut warnings), None);
    assert_eq!(viewer.peek(), None);
}

#[test]
fn entries_are_read_one_at_a_time() {
    let mut viewer = StringViewer::new("text_size: 3\nauthor: me\nno colon here\ntitle: T\n-");
    let mut warnings = Vec::new();
    assert_eq!(
        extract_attribute(&mut viewer, &mut warnings),
        Some(DisplayAttributes::TextSize(3))
    );
    assert_eq!(extract_attribute(&mut viewer, &mut warnings), None);
    assert_eq!(viewer.peek(), Some("\n"));
    assert_eq!(extract_attribute(&mut viewer, &mut warnings), None);
    assert_eq!(viewer.peek(), Some("\n"));
    assert_eq!(
        extract_attribute(&mut viewer, &mut warnings),
        Some(DisplayAttributes::Title("T"))
    );
    assert_eq!(extract_attribute(&mut viewer, &mut warnings), None);
    assert_eq!(viewer.peek(), Some("-"));
    assert_eq!(warnings, vec![]);
}

#[test]
fn entry_that_starts_with_a_colon_has_an_empty_key() {
    let mut viewer = StringViewer::new(": x\ntitle: T");
    let mut warnings = Vec::new();
    assert_eq!(extract_attribute(&mut viewer, &mut warnings), None);
    assert_eq!(viewer.peek(), Some("\n"));
    assert_eq!(
        extract_attribute(&mut viewer, &mut warnings),
        Some(DisplayAttributes::Title("T"))
    );
}

#[test]
fn unknown_alignment_is_warned_of() {
    let mut viewer = StringViewer::new("text_alignment: middle\ntext_alignment: left");
    let mut warnings = vec![InvalidAlignment { value: "earlier" }];
    assert_eq!(
        extract_attribute(&mut viewer, &mut warnings),
        Some(DisplayAttributes::Alignment(Alignment::Left))
    );
    assert_eq!(
        warnings,
        vec![InvalidAlignment { value: "earlier" }, InvalidAlignment { value: "middle" }]
    );
    assert_eq!(
        extract_attribute(&mut viewer, &mut warnings),
        Some(DisplayAttributes::Alignment(Alignment::Left))
    );
    assert_eq!(warnings.len(), 2);
}

#[test]
fn header_hands_back_its_warnings_in_order() {
    let document =
        "-\ntext_alignment: middle\ntitle: T\ntext_alignment: right\ntext_alignment:\ntext_size: x\ntext_alignment: Left\n-\nb$";
    let result = read_prelude(StringViewer::new(document));
    assert_eq!(
        result.extraction.output_values,
        vec![
            DisplayAttributes::Alignment(Alignment::Left),
            DisplayAttributes::Title("T"),
            DisplayAttributes::Alignment(Alignment::Right),
            DisplayAttributes::Alignment(Alignment::Left),
            DisplayAttributes::Alignment(Alignment::Left),
        ]
    );
    assert_eq!(
        result.warnings,
        vec![
            InvalidAlignment { value: "middle" },
            InvalidAlignment { value: "" },
            InvalidAlignment { value: "Left" },
        ]
    );
    assert_eq!(result.extraction.string_viewer.peek(), Some("b"));
}

#[test]
fn document_without_header_has_no_warnings() {
    let result = read_prelude(StringViewer::new("text_alignment: middle\n"));
    assert_eq!(result.warnings, vec![]);
    assert_eq!(result.extraction.output_values, vec![]);
    assert_eq!(result.extraction.string_viewer.peek(), Some("t"));
}

#[test]
fn alignment_names() {
    assert_eq!(Alignment::from_name("left"), Some(Alignment::Left));
    assert_eq!(Alignment::from_name("center"), Some(Alignment::Center));
    assert_eq!(Alignment::from_name("right"), Some(Alignment::Right));
    for value in ["", "Left", "LEFT", "centre", "middle", " left", "right ", "justify"] {
        assert_eq!(Alignment::from_name(value), None);
    }
}

#[test]
fn warning_of_key_and_value() {
    assert_eq!(
        DisplayAttributes::warning("text_alignment", "middle"),
        Some(InvalidAlignment { value: "middle" })
    );
    assert_eq!(DisplayAttributes::warning("text_alignment", "left"), None);
    assert_eq!(DisplayAttributes::warning("text_alignment", "center"), None);
    assert_eq!(DisplayAttributes::warning("text_alignment", "right"), None);
    assert_eq!(DisplayAttributes::warning("text_size", "big"), None);
    assert_eq!(DisplayAttributes::warning("title", "middle"), None);
    assert_eq!(DisplayAttributes::warning("alignment", "middle"), None);
}

#[test]
fn warning_in_words() {
    let warning = InvalidAlignment { value: "middle" };
    assert_eq!(warning.message(), "Invalid value for alignment");
}
