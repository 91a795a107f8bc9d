use mail_laser::smtp_protocol::{SmtpCommandResult, SmtpProtocol, SmtpState};

fn create_test_protocol() -> SmtpProtocol {
    SmtpProtocol::new(false)
}

fn greeted() -> SmtpProtocol {
    let mut protocol = create_test_protocol();
    protocol.process_command("HELO example.com");
    protocol.take_output();
    protocol
}

fn after_mail_from() -> SmtpProtocol {
    let mut protocol = greeted();
    protocol.process_command("MAIL FROM:<sender@example.com>");
    protocol.take_output();
    protocol
}

fn after_rcpt_to() -> SmtpProtocol {
    let mut protocol = after_mail_from();
    let result = protocol.process_command("RCPT TO:<recipient@example.com>");
    assert!(matches!(result, SmtpCommandResult::RcptTo(_)));
    protocol.accept_recipient();
    protocol.take_output();
    protocol
}

fn in_data() -> SmtpProtocol {
    let mut protocol = after_rcpt_to();
    protocol.process_command("DATA");
    protocol.take_output();
    protocol
}

#[test]
fn test_initial_helo_sets_greeted() {
    let mut protocol = create_test_protocol();
    assert_eq!(protocol.get_state(), SmtpState::Initial);
    let result = protocol.process_command("HELO example.com");
    assert!(matches!(result, SmtpCommandResult::Continue));
    assert_eq!(protocol.get_state(), SmtpState::Greeted);
    assert_eq!(protocol.take_output(), "250 MailLaser\r\n");
}

#[test]
fn test_initial_ehlo_sets_greeted() {
    let mut protocol = create_test_protocol();
    assert_eq!(protocol.get_state(), SmtpState::Initial);
    let result = protocol.process_command("EHLO example.com");
    assert!(matches!(result, SmtpCommandResult::Continue));
    assert_eq!(protocol.get_state(), SmtpState::Greeted);
    assert_eq!(
        protocol.take_output(),
        "250-MailLaser greets example.com\r\n250 STARTTLS\r\n"
    );
}

#[test]
fn test_greeted_starttls_accepted() {
    let mut protocol = greeted();
    assert_eq!(protocol.get_state(), SmtpState::Greeted);
    let result = protocol.process_command("STARTTLS");
    assert!(matches!(result, SmtpCommandResult::StartTls), "Expected StartTls result, got {:?}", result);
    assert_eq!(protocol.get_state(), SmtpState::Greeted, "State should remain Greeted after STARTTLS command");
    assert_eq!(protocol.take_output(), "220 Go ahead\r\n");
}

#[test]
fn test_mailfrom_starttls_rejected() {
    let mut protocol = after_mail_from();
    assert_eq!(protocol.get_state(), SmtpState::MailFrom);
    let result = protocol.process_command("STARTTLS");
    assert!(matches!(result, SmtpCommandResult::Continue), "Expected Continue result for rejected STARTTLS, got {:?}", result);
    assert_eq!(protocol.get_state(), SmtpState::MailFrom, "State should remain MailFrom after rejected STARTTLS");
    assert_eq!(protocol.take_output(), "503 Bad sequence of commands\r\n");
}

#[test]
fn test_rcptto_starttls_rejected() {
    let mut protocol = after_rcpt_to();
    assert_eq!(protocol.get_state(), SmtpState::RcptTo);
    let result = protocol.process_command("STARTTLS");
    assert!(matches!(result, SmtpCommandResult::Continue), "Expected Continue result for rejected STARTTLS, got {:?}", result);
    assert_eq!(protocol.get_state(), SmtpState::RcptTo, "State should remain RcptTo after rejected STARTTLS");
}

#[test]
fn test_data_starttls_is_data() {
    let mut protocol = in_data();
    assert_eq!(protocol.get_state(), SmtpState::Data);
    let result = protocol.process_command("STARTTLS");
    assert!(matches!(result, SmtpCommandResult::DataLine(ref line) if line == "STARTTLS"), "Expected DataLine result, got {:?}", result);
    assert_eq!(protocol.get_state(), SmtpState::Data);
}

#[test]
fn test_greeted_quit() {
    let mut protocol = greeted();
    let result = protocol.process_command("QUIT");
    assert!(matches!(result, SmtpCommandResult::Quit));
    assert_eq!(protocol.get_state(), SmtpState::Greeted);
}

#[test]
fn test_smtp_protocol_mail_from() {
    let mut protocol = create_test_protocol();
    protocol.reset_state();
    assert_eq!(protocol.get_state(), SmtpState::Greeted);
    let line = protocol.read_line("MAIL FROM:<sender@example.com>\r\n");
    let result = protocol.process_command(&line);
    match result {
        SmtpCommandResult::MailFrom(email) => assert_eq!(email, "sender@example.com"),
        _ => panic!("Expected MailFrom, got {:?}", result),
    }
    assert_eq!(protocol.take_output(), "250 OK\r\n");
    assert_eq!(protocol.get_state(), SmtpState::MailFrom);
}

#[test]
fn test_smtp_protocol_quit() {
    let mut protocol = create_test_protocol();
    let line = protocol.read_line("QUIT\r\n");
    let result = protocol.process_command(&line);
    match result {
        SmtpCommandResult::Quit => {}
        _ => panic!("Expected Quit, got {:?}", result),
    }
    assert_eq!(protocol.take_output(), "221 Bye\r\n");
}

#[test]
fn greeting_line() {
    let mut protocol = create_test_protocol();
    protocol.send_greeting();
    assert_eq!(protocol.take_output(), "220 MailLaser SMTP Server Ready\r\n");
}

#[test]
fn read_line_trims_crlf_and_bare_lf() {
    let protocol = create_test_protocol();
    assert_eq!(protocol.read_line("HELO a\r\n"), "HELO a");
    assert_eq!(protocol.read_line("HELO a\n"), "HELO a");
    assert_eq!(protocol.read_line(""), "");
}

#[test]
fn verbs_are_case_insensitive() {
    let mut protocol = create_test_protocol();
    protocol.process_command("helo x");
    assert_eq!(protocol.get_state(), SmtpState::Greeted);
    let result = protocol.process_command("mail from:<a@b.c>");
    assert!(matches!(result, SmtpCommandResult::MailFrom(ref a) if a == "a@b.c"));
}

#[test]
fn initial_state_replies() {
    let mut protocol = create_test_protocol();
    protocol.process_command("MAIL FROM:<a@b.c>");
    assert_eq!(protocol.take_output(), "503 Bad sequence of commands\r\n");
    protocol.process_command("NOOP");
    assert_eq!(protocol.take_output(), "500 Command not recognized\r\n");
    protocol.process_command("STARTTLS");
    assert_eq!(protocol.take_output(), "503 Bad sequence of commands\r\n");
    assert_eq!(protocol.get_state(), SmtpState::Initial);
}

#[test]
fn ehlo_without_name_greets_client() {
    let mut protocol = create_test_protocol();
    protocol.process_command("EHLO");
    assert_eq!(protocol.take_output(), "250-MailLaser greets client\r\n250 STARTTLS\r\n");
}

#[test]
fn starttls_on_secure_connection_is_refused() {
    let mut protocol = SmtpProtocol::new(true);
    protocol.process_command("EHLO x");
    protocol.take_output();
    let result = protocol.process_command("STARTTLS");
    assert!(matches!(result, SmtpCommandResult::Continue));
    assert_eq!(protocol.take_output(), "503 STARTTLS already active\r\n");
}

#[test]
fn address_forms() {
    let mut protocol = greeted();
    let result = protocol.process_command("MAIL FROM:\"Name <inner>\" <outer@x.org>");
    assert!(matches!(result, SmtpCommandResult::MailFrom(ref a) if a == "outer@x.org"));
    let mut protocol = greeted();
    let result = protocol.process_command("MAIL FROM: bare@x.org SIZE=100");
    assert!(matches!(result, SmtpCommandResult::MailFrom(ref a) if a == "bare@x.org"));
    let mut protocol = greeted();
    let result = protocol.process_command("MAIL FROM:<>");
    assert!(matches!(result, SmtpCommandResult::Continue));
    assert_eq!(protocol.take_output(), "501 Syntax error in MAIL FROM parameters\r\n");
    assert_eq!(protocol.get_state(), SmtpState::Greeted);
}

#[test]
fn rcpt_syntax_error() {
    let mut protocol = after_mail_from();
    let result = protocol.process_command("RCPT TO:<unclosed@x.org");
    assert!(matches!(result, SmtpCommandResult::Continue));
    assert_eq!(protocol.take_output(), "501 Syntax error in RCPT TO parameters\r\n");
}

#[test]
fn data_phase_unstuffs_and_ends() {
    let mut protocol = in_data();
    let result = protocol.process_command("..leading dot");
    assert!(matches!(result, SmtpCommandResult::DataLine(ref l) if l == ".leading dot"));
    let result = protocol.process_command("");
    assert!(matches!(result, SmtpCommandResult::DataLine(ref l) if l.is_empty()));
    let result = protocol.process_command(".");
    assert!(matches!(result, SmtpCommandResult::DataEnd));
    assert_eq!(protocol.take_output(), "250 OK: Message accepted for delivery\r\n");
    assert_eq!(protocol.get_state(), SmtpState::Greeted);
}

#[test]
fn data_start_reply() {
    let mut protocol = after_rcpt_to();
    let result = protocol.process_command("DATA");
    assert!(matches!(result, SmtpCommandResult::DataStart));
    assert_eq!(protocol.take_output(), "354 Start mail input; end with <CRLF>.<CRLF>\r\n");
}

#[test]
fn data_in_mail_from_state_is_refused() {
    let mut protocol = after_mail_from();
    let result = protocol.process_command("DATA");
    assert!(matches!(result, SmtpCommandResult::Continue));
    assert_eq!(protocol.take_output(), "503 Bad sequence of commands\r\n");
    assert_eq!(protocol.get_state(), SmtpState::MailFrom);
}

#[test]
fn reject_recipient_reply() {
    let mut protocol = after_mail_from();
    protocol.process_command("RCPT TO:<nobody@x.org>");
    protocol.reject_recipient();
    assert_eq!(protocol.take_output(), "550 No such user here\r\n");
    assert_eq!(protocol.get_state(), SmtpState::MailFrom);
}
