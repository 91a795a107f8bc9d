use mail_laser::email_parser::{select_body, EmailParser, ParseError};

fn no_prefixes() -> Vec<String> {
    Vec::new()
}

#[test]
fn email_parser_test_parse_simple_email() {
    let email = "From: sender@example.com\r\n\
                 To: recipient@example.com\r\n\
                 Subject: Test Email\r\n\
                 \r\n\
                 This is a test email.\r\n\
                 It has multiple lines.\r\n";
    let parsed = EmailParser::parse(email, &no_prefixes()).expect("Parsing failed for simple email");
    assert_eq!(parsed.subject, "Test Email");
    assert_eq!(parsed.body, "This is a test email.\r\nIt has multiple lines.");
    assert!(parsed.html_body.is_none(), "HTML body should be None for plain text email");
}

#[test]
fn test_parse_email_with_html_content_type() {
    let email = "From: sender@example.com\r\n\
                 To: recipient@example.com\r\n\
                 Subject: HTML Email\r\n\
                 Content-Type: text/html; charset=utf-8\r\n\
                 \r\n\
                 Plain text part that might be ignored by html2text if not in tags.\r\n\
                 <html><body>\r\n\
                 <p>HTML content that should be ignored.</p>\r\n\
                 </body></html>\r\n\
                 Another plain line.\r\n";
    let parsed = EmailParser::parse(email, &no_prefixes()).expect("Parsing failed for HTML email");
    assert_eq!(parsed.subject, "HTML Email");
    let text_body = parsed.body;
    assert!(text_body.contains("Plain text part that might be ignored by html2text if not in tags."), "Text body missing first plain part. Got: {}", text_body);
    assert!(text_body.contains("HTML content that should be ignored."), "Text body missing HTML content part. Got: {}", text_body);
    assert!(text_body.contains("Another plain line."), "Text body missing second plain part. Got: {}", text_body);
    assert!(parsed.html_body.is_some(), "HTML body should be Some for HTML email");
    let html_content = parsed.html_body.unwrap();
    assert!(html_content.contains("<html>"));
    assert!(html_content.contains("<p>HTML content that should be ignored.</p>"));
    assert!(html_content.contains("</html>"));
    assert!(html_content.contains("Plain text part that might be ignored"));
}

#[test]
fn test_parse_no_subject() {
    let email = "From: sender@example.com\r\n\
                 To: recipient@example.com\r\n\
                 \r\n\
                 Body only.\r\n";
    let parsed = EmailParser::parse(email, &no_prefixes()).expect("Parsing failed for no-subject email");
    assert!(parsed.subject.is_empty(), "Subject should be empty when not present");
    assert_eq!(parsed.body, "Body only.");
    assert!(parsed.html_body.is_none());
}

#[test]
fn test_parse_empty_body() {
    let email = "From: sender@example.com\r\n\
                 Subject: Empty Body Test\r\n\
                 \r\n";
    let parsed = EmailParser::parse(email, &no_prefixes()).expect("Parsing failed for empty-body email");
    assert_eq!(parsed.subject, "Empty Body Test");
    assert!(parsed.body.is_empty(), "Text body should be empty");
    assert!(parsed.html_body.is_none());
}

#[test]
fn email_parser_tests_test_parse_simple_email() {
    let email = "From: sender@example.com\r\n\
                 To: recipient@example.com\r\n\
                 Subject: Test Email\r\n\
                 \r\n\
                 This is a test email.\r\n\
                 It has multiple lines.\r\n";
    let parsed = EmailParser::parse(email, &no_prefixes()).expect("Email parsing failed");
    assert_eq!(parsed.subject, "Test Email");
    assert_eq!(parsed.body, "This is a test email.\r\nIt has multiple lines.");
}

#[test]
fn test_parse_email_no_subject() {
    let email = "From: sender@example.com\r\n\
                 To: recipient@example.com\r\n\
                 \r\n\
                 This is a test email with no subject.\r\n";
    let parsed = EmailParser::parse(email, &no_prefixes()).expect("Email parsing failed");
    assert_eq!(parsed.subject, "");
    assert_eq!(parsed.body, "This is a test email with no subject.");
}

#[test]
fn empty_message_is_a_parse_failure() {
    assert!(matches!(EmailParser::parse("", &no_prefixes()), Err(ParseError::Empty)));
}

#[test]
fn folded_subject_is_unfolded() {
    let email = "Subject: This is a very long subject\r\n that spans multiple lines\r\n\r\nBody.\r\n";
    let parsed = EmailParser::parse(email, &no_prefixes()).unwrap();
    assert_eq!(parsed.subject, "This is a very long subject that spans multiple lines");
    assert_eq!(parsed.body, "Body.");
}

#[test]
fn multipart_alternative_prefers_rendered_html() {
    let email = "Subject: Alt\r\n\
                 Content-Type: multipart/alternative; boundary=\"sep\"\r\n\
                 \r\n\
                 preamble\r\n\
                 --sep\r\n\
                 Content-Type: text/plain\r\n\
                 \r\n\
                 hello\r\n\
                 --sep\r\n\
                 Content-Type: text/html\r\n\
                 \r\n\
                 <p>hello</p>\r\n\
                 --sep--\r\n\
                 epilogue\r\n";
    let parsed = EmailParser::parse(email, &no_prefixes()).unwrap();
    assert_eq!(parsed.html_body.as_deref(), Some("<p>hello</p>"));
    assert!(parsed.body.contains("hello"));
    assert!(!parsed.body.contains("<p>"));
}

#[test]
fn nested_multipart_finds_leaves() {
    let email = "Content-Type: multipart/mixed; boundary=outer\r\n\
                 \r\n\
                 --outer\r\n\
                 Content-Type: multipart/alternative; boundary=inner\r\n\
                 \r\n\
                 --inner\r\n\
                 Content-Type: text/plain; charset=us-ascii\r\n\
                 \r\n\
                 plain words\r\n\
                 --inner--\r\n\
                 --outer\r\n\
                 Content-Type: application/pdf\r\n\
                 \r\n\
                 JVBERi0=\r\n\
                 --outer--\r\n";
    let parsed = EmailParser::parse(email, &no_prefixes()).unwrap();
    assert_eq!(parsed.body, "plain words");
    assert!(parsed.html_body.is_none());
}

#[test]
fn links_are_kept_as_references() {
    let email = "Content-Type: text/html\r\n\r\n<p>a <a href=\"http://example.com\">link</a>.</p>\r\n";
    let parsed = EmailParser::parse(email, &no_prefixes()).unwrap();
    assert!(parsed.body.contains("[link][1]"), "Got: {}", parsed.body);
    assert!(parsed.body.contains("[1]: http://example.com"), "Got: {}", parsed.body);
}

#[test]
fn sender_name_forms() {
    let with = |from: &str| {
        let email = format!("From: {}\r\n\r\nx\r\n", from);
        EmailParser::parse(&email, &no_prefixes()).unwrap().sender_name
    };
    assert_eq!(with("\"Jane Doe\" <jane@example.com>").as_deref(), Some("Jane Doe"));
    assert_eq!(with("Jane Doe <jane@example.com>").as_deref(), Some("Jane Doe"));
    assert_eq!(with("Friends: a@example.com, b@example.com;").as_deref(), Some("Friends"));
    assert_eq!(with("jane@example.com"), None);
    assert_eq!(with("<jane@example.com>"), None);
}

#[test]
fn no_from_header_means_no_sender_name() {
    let parsed = EmailParser::parse("Subject: s\r\n\r\nbody\r\n", &no_prefixes()).unwrap();
    assert!(parsed.sender_name.is_none());
}

#[test]
fn header_capture_by_prefix() {
    let email = "X-Custom-Foo: v1\r\nX-Custom-Bar: v2\r\nX-Other: nope\r\nSubject: s\r\n\r\nbody\r\n";
    let prefixes = vec!["x-custom".to_string()];
    let parsed = EmailParser::parse(email, &prefixes).unwrap();
    assert_eq!(
        parsed.headers,
        Some(vec![
            ("X-Custom-Foo".to_string(), "v1".to_string()),
            ("X-Custom-Bar".to_string(), "v2".to_string()),
        ])
    );
    let parsed = EmailParser::parse(email, &no_prefixes()).unwrap();
    assert!(parsed.headers.is_none());
    let parsed = EmailParser::parse(email, &vec!["X-None".to_string()]).unwrap();
    assert!(parsed.headers.is_none());
}

#[test]
fn body_selection_rules() {
    let s = |v: &str| Some(v.to_string());
    assert_eq!(select_body(s("p"), s("<b>h</b>"), s("h")), ("h".to_string(), s("<b>h</b>")));
    assert_eq!(select_body(s("p"), s("<b>h</b>"), None), ("p".to_string(), s("<b>h</b>")));
    assert_eq!(select_body(None, s("<b>h</b>"), None), ("<b>h</b>".to_string(), s("<b>h</b>")));
    assert_eq!(select_body(s("p"), None, None), ("p".to_string(), None));
    assert_eq!(select_body(None, None, None), (String::new(), None));
}

#[test]
fn quoted_printable_body_is_decoded() {
    let email = "Content-Type: text/plain; charset=utf-8\r\n\
                 Content-Transfer-Encoding: quoted-printable\r\n\
                 \r\n\
                 Caf=C3=A9 au lait, a very long line that was =\r\n\
                 softly broken.\r\n";
    let parsed = EmailParser::parse(email, &no_prefixes()).unwrap();
    assert_eq!(parsed.body, "Café au lait, a very long line that was softly broken.");
}

#[test]
fn base64_body_is_decoded() {
    let email = "Content-Type: text/plain\r\n\
                 Content-Transfer-Encoding: base64\r\n\
                 \r\n\
                 SGVsbG8sIHdv\r\n\
                 cmxkIQ==\r\n";
    let parsed = EmailParser::parse(email, &no_prefixes()).unwrap();
    assert_eq!(parsed.body, "Hello, world!");
}

#[test]
fn latin1_charset_is_honoured() {
    let email = "Content-Type: text/plain; charset=\"ISO-8859-1\"\r\n\
                 Content-Transfer-Encoding: quoted-printable\r\n\
                 \r\n\
                 Caf=E9\r\n";
    let parsed = EmailParser::parse(email, &no_prefixes()).unwrap();
    assert_eq!(parsed.body, "Café");
}

#[test]
fn invalid_utf8_becomes_replacement_character() {
    let email = "Content-Transfer-Encoding: quoted-printable\r\n\r\nA=FFB\r\n";
    let parsed = EmailParser::parse(email, &no_prefixes()).unwrap();
    assert_eq!(parsed.body, "A\u{FFFD}B");
}

#[test]
fn encoded_word_subject() {
    let email = "Subject: =?UTF-8?B?SGVsbG8=?= =?utf-8?Q?_w=C3=B6rld?= again\r\n\r\nx\r\n";
    let parsed = EmailParser::parse(email, &no_prefixes()).unwrap();
    assert_eq!(parsed.subject, "Hello wörld again");
}

#[test]
fn encoded_word_display_name_and_plain_text_kept() {
    let email = "From: =?iso-8859-1?Q?Andr=E9?= <andre@example.com>\r\nSubject: no =?bad words\r\n\r\nx\r\n";
    let parsed = EmailParser::parse(email, &no_prefixes()).unwrap();
    assert_eq!(parsed.sender_name.as_deref(), Some("André"));
    assert_eq!(parsed.subject, "no =?bad words");
}

#[test]
fn captured_header_values_are_decoded() {
    let email = "X-Tag: =?utf-8?B?w6k=?=\r\n\r\nx\r\n";
    let parsed = EmailParser::parse(email, &vec!["x-".to_string()]).unwrap();
    assert_eq!(parsed.headers, Some(vec![("X-Tag".to_string(), "é".to_string())]));
}
