//! The SMTP command state machine of one connection: it classifies each
//! received line, answers it, and moves between the states of the conversation.
//! Replies are queued in an outbox that the connection's owner writes out.

use vstd::prelude::*;
use crate::codec::{is_terminator, strip_line, strip_line_end, unstuff, unstuff_line, wire, wire_text};
use crate::text::{
    chars_of, concat, has_prefix_ci, is_blank, is_space, owned, slice, starts_with_ci,
    string_of, trim, trimmed,
};

verus! {

/// The states of an SMTP conversation.
#[derive(Debug, PartialEq, Eq, Structural, Clone, Copy)]
pub enum SmtpState {
    /// Connected; the client has not introduced itself yet.
    Initial,
    /// After HELO or EHLO; a mail transaction may start.
    Greeted,
    /// After an accepted MAIL FROM; recipients are expected.
    MailFrom,
    /// After at least one recipient that passed the allow-list.
    RcptTo,
    /// Receiving the message text.
    Data,
}

/// The command a line starts with, up to ASCII case.
#[derive(Debug, PartialEq, Eq, Structural, Clone, Copy)]
pub enum Verb {
    Helo,
    Ehlo,
    StartTls,
    MailFrom,
    RcptTo,
    Data,
    Quit,
    Unknown,
}

/// What a processed line asks of the connection's owner.
#[derive(Debug, PartialEq, Eq, Structural, Clone, Copy)]
pub enum ResultKind {
    Continue,
    Quit,
    MailFrom,
    RcptTo,
    DataStart,
    DataLine,
    DataEnd,
    StartTls,
}

/// The outcome of processing one received line.
#[derive(Debug)]
pub enum SmtpCommandResult {
    /// Nothing more to do; read the next line.
    Continue,
    /// The client said QUIT; close the connection.
    Quit,
    /// MAIL FROM was accepted, with this reverse-path.
    MailFrom(String),
    /// RCPT TO names this forward-path; the allow-list decides.
    RcptTo(String),
    /// DATA was accepted; message lines follow.
    DataStart,
    /// One message line, dot-stuffing removed.
    DataLine(String),
    /// The terminating `.` line arrived.
    DataEnd,
    /// STARTTLS was accepted; the TLS handshake comes next.
    StartTls,
}

impl SmtpCommandResult {
    pub open spec fn kind(&self) -> ResultKind {
        match self {
            SmtpCommandResult::Continue => ResultKind::Continue,
            SmtpCommandResult::Quit => ResultKind::Quit,
            SmtpCommandResult::MailFrom(_) => ResultKind::MailFrom,
            SmtpCommandResult::RcptTo(_) => ResultKind::RcptTo,
            SmtpCommandResult::DataStart => ResultKind::DataStart,
            SmtpCommandResult::DataLine(_) => ResultKind::DataLine,
            SmtpCommandResult::DataEnd => ResultKind::DataEnd,
            SmtpCommandResult::StartTls => ResultKind::StartTls,
        }
    }

    /// The address or message line carried, empty for the other outcomes.
    pub open spec fn text(&self) -> Seq<char> {
        match self {
            SmtpCommandResult::MailFrom(s) => s@,
            SmtpCommandResult::RcptTo(s) => s@,
            SmtpCommandResult::DataLine(s) => s@,
            _ => Seq::empty(),
        }
    }
}

/// The command of a line.
pub open spec fn verb_of(line: Seq<char>) -> Verb {
    if starts_with_ci(line, "HELO"@) {
        Verb::Helo
    } else if starts_with_ci(line, "EHLO"@) {
        Verb::Ehlo
    } else if starts_with_ci(line, "STARTTLS"@) {
        Verb::StartTls
    } else if starts_with_ci(line, "MAIL FROM:"@) {
        Verb::MailFrom
    } else if starts_with_ci(line, "RCPT TO:"@) {
        Verb::RcptTo
    } else if starts_with_ci(line, "DATA"@) {
        Verb::Data
    } else if starts_with_ci(line, "QUIT"@) {
        Verb::Quit
    } else {
        Verb::Unknown
    }
}

/// Index of the first `<` at or after `i` that is outside a quoted string
/// (`quoted` tells whether `i` is inside one), or the length of `s`.
pub open spec fn open_angle(s: Seq<char>, i: int, quoted: bool) -> int
    decreases s.len() - i,
{
    if i < 0 || i >= s.len() {
        s.len() as int
    } else if s[i] == '"' {
        open_angle(s, i + 1, !quoted)
    } else if s[i] == '<' && !quoted {
        i
    } else {
        open_angle(s, i + 1, quoted)
    }
}

/// Index of the first `>` at or after `i`, or the length of `s`.
pub open spec fn close_angle(s: Seq<char>, i: int) -> int
    decreases s.len() - i,
{
    if i < 0 || i >= s.len() {
        s.len() as int
    } else if s[i] == '>' {
        i
    } else {
        close_angle(s, i + 1)
    }
}

/// Index of the first blank at or after `i`, or the length of `s`.
pub open spec fn next_blank(s: Seq<char>, i: int) -> int
    decreases s.len() - i,
{
    if i < 0 || i >= s.len() {
        s.len() as int
    } else if is_blank(s[i]) {
        i
    } else {
        next_blank(s, i + 1)
    }
}

/// A non-empty address without white space, brackets or quotes.
pub open spec fn is_mailbox(a: Seq<char>) -> bool {
    a.len() > 0 && forall|k: int|
        0 <= k < a.len() ==> !is_space(#[trigger] a[k]) && a[k] != '<' && a[k] != '>' && a[k]
            != '"'
}

/// The address that a MAIL FROM or RCPT TO parameter names: the text between
/// the first unquoted `<` and the next `>`, as in `"Name" <addr>` or `<addr>`;
/// without brackets, the first word, as in `addr`.
pub open spec fn address_in(param: Seq<char>) -> Option<Seq<char>> {
    let p = trim(param);
    let o = open_angle(p, 0, false);
    let a = if o < p.len() {
        let c = close_angle(p, o + 1);
        if c < p.len() {
            p.subrange(o + 1, c)
        } else {
            Seq::empty()
        }
    } else {
        p.subrange(0, next_blank(p, 0))
    };
    if is_mailbox(a) {
        Some(a)
    } else {
        None
    }
}

/// The address of a MAIL FROM line.
pub open spec fn mail_from_address(line: Seq<char>) -> Option<Seq<char>> {
    address_in(line.subrange(10, line.len() as int))
}

/// The address of a RCPT TO line.
pub open spec fn rcpt_to_address(line: Seq<char>) -> Option<Seq<char>> {
    address_in(line.subrange(8, line.len() as int))
}

/// The name a client gives in HELO or EHLO, or `client` when it gives none.
pub open spec fn client_name(line: Seq<char>) -> Seq<char> {
    let rest = trim(line.subrange(4, line.len() as int));
    if rest.len() == 0 {
        "client"@
    } else {
        rest
    }
}

/// The reply to HELO, or the multi-line reply to EHLO that advertises STARTTLS.
pub open spec fn greeting_replies(line: Seq<char>) -> Seq<Seq<char>> {
    if verb_of(line) == Verb::Ehlo {
        seq!["250-MailLaser greets "@ + client_name(line), "250 STARTTLS"@]
    } else {
        seq!["250 MailLaser"@]
    }
}

/// The reply to a command that is known but comes out of order.
pub open spec fn bad_sequence() -> Seq<Seq<char>> {
    seq!["503 Bad sequence of commands"@]
}

/// The reply to QUIT.
pub open spec fn bye() -> Seq<Seq<char>> {
    seq!["221 Bye"@]
}

/// The reply lines to `line` in `state`; `tls` tells whether the connection is
/// already encrypted.
pub open spec fn replies_to(state: SmtpState, tls: bool, line: Seq<char>) -> Seq<Seq<char>> {
    let v = verb_of(line);
    match state {
        SmtpState::Initial => match v {
            Verb::Helo | Verb::Ehlo => greeting_replies(line),
            Verb::Quit => bye(),
            Verb::Unknown => seq!["500 Command not recognized"@],
            _ => bad_sequence(),
        },
        SmtpState::Greeted => match v {
            Verb::Helo | Verb::Ehlo => greeting_replies(line),
            Verb::StartTls => if tls {
                seq!["503 STARTTLS already active"@]
            } else {
                seq!["220 Go ahead"@]
            },
            Verb::MailFrom => if mail_from_address(line) is Some {
                seq!["250 OK"@]
            } else {
                seq!["501 Syntax error in MAIL FROM parameters"@]
            },
            Verb::Quit => bye(),
            _ => bad_sequence(),
        },
        SmtpState::MailFrom => match v {
            Verb::Helo | Verb::Ehlo => greeting_replies(line),
            Verb::RcptTo => if rcpt_to_address(line) is Some {
                Seq::empty()
            } else {
                seq!["501 Syntax error in RCPT TO parameters"@]
            },
            Verb::Quit => bye(),
            _ => bad_sequence(),
        },
        SmtpState::RcptTo => match v {
            Verb::RcptTo => if rcpt_to_address(line) is Some {
                Seq::empty()
            } else {
                seq!["501 Syntax error in RCPT TO parameters"@]
            },
            Verb::Data => seq!["354 Start mail input; end with <CRLF>.<CRLF>"@],
            Verb::Quit => bye(),
            _ => bad_sequence(),
        },
        SmtpState::Data => if is_terminator(line) {
            seq!["250 OK: Message accepted for delivery"@]
        } else {
            Seq::empty()
        },
    }
}

/// The state after `line` in `state`.
pub open spec fn state_after(state: SmtpState, tls: bool, line: Seq<char>) -> SmtpState {
    let v = verb_of(line);
    match state {
        SmtpState::Initial => match v {
            Verb::Helo | Verb::Ehlo => SmtpState::Greeted,
            _ => SmtpState::Initial,
        },
        SmtpState::Greeted => match v {
            Verb::MailFrom => if mail_from_address(line) is Some {
                SmtpState::MailFrom
            } else {
                SmtpState::Greeted
            },
            _ => SmtpState::Greeted,
        },
        SmtpState::MailFrom => match v {
            Verb::Helo | Verb::Ehlo => SmtpState::Greeted,
            _ => SmtpState::MailFrom,
        },
        SmtpState::RcptTo => match v {
            Verb::Data => SmtpState::Data,
            _ => SmtpState::RcptTo,
        },
        SmtpState::Data => if is_terminator(line) {
            SmtpState::Greeted
        } else {
            SmtpState::Data
        },
    }
}

/// What processing `line` in `state` asks of the connection's owner.
pub open spec fn kind_after(state: SmtpState, tls: bool, line: Seq<char>) -> ResultKind {
    let v = verb_of(line);
    match state {
        SmtpState::Data => if is_terminator(line) {
            ResultKind::DataEnd
        } else {
            ResultKind::DataLine
        },
        _ => if v == Verb::Quit {
            ResultKind::Quit
        } else if state == SmtpState::Greeted && v == Verb::StartTls && !tls {
            ResultKind::StartTls
        } else if state == SmtpState::Greeted && v == Verb::MailFrom && mail_from_address(
            line,
        ) is Some {
            ResultKind::MailFrom
        } else if (state == SmtpState::MailFrom || state == SmtpState::RcptTo) && v
            == Verb::RcptTo && rcpt_to_address(line) is Some {
            ResultKind::RcptTo
        } else if state == SmtpState::RcptTo && v == Verb::Data {
            ResultKind::DataStart
        } else {
            ResultKind::Continue
        },
    }
}

/// The address or message line that the outcome carries.
pub open spec fn text_after(state: SmtpState, tls: bool, line: Seq<char>) -> Seq<char> {
    match kind_after(state, tls, line) {
        ResultKind::MailFrom => mail_from_address(line)->Some_0,
        ResultKind::RcptTo => rcpt_to_address(line)->Some_0,
        ResultKind::DataLine => unstuff(line),
        _ => Seq::empty(),
    }
}

/// The command state machine of one SMTP connection.
pub struct SmtpProtocol {
    state: SmtpState,
    tls_active: bool,
    outbox: Vec<String>,
}

impl SmtpProtocol {
    pub closed spec fn state(&self) -> SmtpState {
        self.state
    }

    /// Whether the connection under this machine is encrypted.
    pub closed spec fn tls(&self) -> bool {
        self.tls_active
    }

    /// The reply lines queued and not yet taken.
    pub closed spec fn outbox(&self) -> Seq<Seq<char>> {
        self.outbox@.map_values(|s: String| s@)
    }

    /// A machine in the initial state with an empty outbox; `tls_active` tells
    /// whether it runs on an encrypted connection.
    pub fn new(tls_active: bool) -> (r: Self)
        ensures
            r.state() == SmtpState::Initial,
            r.tls() == tls_active,
            r.outbox() == Seq::<Seq<char>>::empty(),
    {
        let r = SmtpProtocol { state: SmtpState::Initial, tls_active, outbox: Vec::new() };
        assert(r.outbox() =~= Seq::<Seq<char>>::empty());
        r
    }

    /// Queues the greeting that opens a connection.
    pub fn send_greeting(&mut self)
        ensures
            final(self).state() == old(self).state(),
            final(self).tls() == old(self).tls(),
            final(self).outbox() == old(self).outbox().push("220 MailLaser SMTP Server Ready"@),
    {
        self.write_line("220 MailLaser SMTP Server Ready");
    }

    /// Queues one reply line.
    pub fn write_line(&mut self, line: &str)
        ensures
            final(self).state() == old(self).state(),
            final(self).tls() == old(self).tls(),
            final(self).outbox() == old(self).outbox().push(line@),
    {
        let ghost before = self.outbox();
        self.outbox.push(owned(line));
        assert(self.outbox() =~= before.push(line@));
    }

    /// A received line without its line ending.
    pub fn read_line(&self, raw: &str) -> (r: String)
        ensures
            r@ == strip_line_end(raw@),
    {
        let chars = chars_of(raw);
        let line = strip_line(chars.as_slice());
        string_of(line.as_slice())
    }

    /// Hands out the queued replies in their wire form and empties the outbox.
    pub fn take_output(&mut self) -> (r: String)
        ensures
            r@ == wire(old(self).outbox()),
            final(self).outbox() == Seq::<Seq<char>>::empty(),
            final(self).state() == old(self).state(),
            final(self).tls() == old(self).tls(),
    {
        let r = wire_text(&self.outbox);
        self.outbox = Vec::new();
        assert(self.outbox() =~= Seq::<Seq<char>>::empty());
        r
    }

    pub fn get_state(&self) -> (r: SmtpState)
        ensures
            r == self.state(),
    {
        self.state
    }

    /// Ends the current transaction: back to `Greeted`.
    pub fn reset_state(&mut self)
        ensures
            final(self).state() == SmtpState::Greeted,
            final(self).tls() == old(self).tls(),
            final(self).outbox() == old(self).outbox(),
    {
        self.state = SmtpState::Greeted;
    }

    /// The recipient of the last RCPT TO passed the allow-list: reply 250 and
    /// expect more recipients or DATA.
    pub fn accept_recipient(&mut self)
        requires
            old(self).state() == SmtpState::MailFrom || old(self).state() == SmtpState::RcptTo,
        ensures
            final(self).state() == SmtpState::RcptTo,
            final(self).tls() == old(self).tls(),
            final(self).outbox() == old(self).outbox().push("250 OK"@),
    {
        self.write_line("250 OK");
        self.state = SmtpState::RcptTo;
    }

    /// The recipient of the last RCPT TO is not on the allow-list: reply 550;
    /// the transaction has no accepted recipient any more.
    pub fn reject_recipient(&mut self)
        requires
            old(self).state() == SmtpState::MailFrom || old(self).state() == SmtpState::RcptTo,
        ensures
            final(self).state() == SmtpState::MailFrom,
            final(self).tls() == old(self).tls(),
            final(self).outbox() == old(self).outbox().push("550 No such user here"@),
    {
        self.write_line("550 No such user here");
        self.state = SmtpState::MailFrom;
    }

    fn write_greeting(&mut self, line: &[char], verb: Verb)
        requires
            verb == verb_of(line@),
            verb == Verb::Helo || verb == Verb::Ehlo,
            line@.len() >= 4,
        ensures
            final(self).state() == old(self).state(),
            final(self).tls() == old(self).tls(),
            final(self).outbox() == old(self).outbox() + greeting_replies(line@),
    {
        let ghost before = self.outbox();
        if verb == Verb::Ehlo {
            let name = client_name_of(line);
            let head = concat(chars_of("250-MailLaser greets ").as_slice(), name.as_slice());
            let first = string_of(head.as_slice());
            self.write_line(first.as_str());
            self.write_line("250 STARTTLS");
            assert(self.outbox() =~= before + greeting_replies(line@));
        } else {
            self.write_line("250 MailLaser");
            assert(self.outbox() =~= before + greeting_replies(line@));
        }
    }

    /// Processes one received line (without its line ending): queues the
    /// replies, moves to the next state and says what the owner must do.
    pub fn process_command(&mut self, line: &str) -> (r: SmtpCommandResult)
        ensures
            final(self).state() == state_after(old(self).state(), old(self).tls(), line@),
            final(self).tls() == old(self).tls(),
            final(self).outbox() == old(self).outbox() + replies_to(
                old(self).state(),
                old(self).tls(),
                line@,
            ),
            r.kind() == kind_after(old(self).state(), old(self).tls(), line@),
            r.text() == text_after(old(self).state(), old(self).tls(), line@),
    {
        let chars = chars_of(line);
        let ghost before = self.outbox();
        let ghost l = line@;
        if self.state == SmtpState::Data {
            if chars.len() == 1 && chars[0] == '.' {
                assert(chars@ =~= seq!['.']);
                self.write_line("250 OK: Message accepted for delivery");
                self.state = SmtpState::Greeted;
                assert(self.outbox() =~= before + replies_to(SmtpState::Data, self.tls(), l));
                return SmtpCommandResult::DataEnd;
            } else {
                assert(!is_terminator(l));
                let text = unstuff_line(chars.as_slice());
                assert(self.outbox() =~= before + replies_to(SmtpState::Data, self.tls(), l));
                return SmtpCommandResult::DataLine(string_of(text.as_slice()));
            }
        }
        let verb = classify(chars.as_slice());
        if verb == Verb::Quit {
            self.write_line("221 Bye");
            assert(self.outbox() =~= before + bye());
            return SmtpCommandResult::Quit;
        }
        match self.state {
            SmtpState::Initial => {
                if verb == Verb::Helo || verb == Verb::Ehlo {
                    self.write_greeting(chars.as_slice(), verb);
                    self.state = SmtpState::Greeted;
                } else if verb == Verb::Unknown {
                    self.write_line("500 Command not recognized");
                    assert(self.outbox() =~= before + seq!["500 Command not recognized"@]);
                } else {
                    self.write_line("503 Bad sequence of commands");
                    assert(self.outbox() =~= before + bad_sequence());
                }
                SmtpCommandResult::Continue
            },
            SmtpState::Greeted => {
                if verb == Verb::Helo || verb == Verb::Ehlo {
                    self.write_greeting(chars.as_slice(), verb);
                    SmtpCommandResult::Continue
                } else if verb == Verb::StartTls {
                    if self.tls_active {
                        self.write_line("503 STARTTLS already active");
                        assert(self.outbox() =~= before + seq!["503 STARTTLS already active"@]);
                        SmtpCommandResult::Continue
                    } else {
                        self.write_line("220 Go ahead");
                        assert(self.outbox() =~= before + seq!["220 Go ahead"@]);
                        SmtpCommandResult::StartTls
                    }
                } else if verb == Verb::MailFrom {
                    match extract_email(chars.as_slice(), 10) {
                        Some(email) => {
                            self.write_line("250 OK");
                            assert(self.outbox() =~= before + seq!["250 OK"@]);
                            self.state = SmtpState::MailFrom;
                            SmtpCommandResult::MailFrom(string_of(email.as_slice()))
                        },
                        None => {
                            self.write_line("501 Syntax error in MAIL FROM parameters");
                            assert(self.outbox() =~= before
                                + seq!["501 Syntax error in MAIL FROM parameters"@]);
                            SmtpCommandResult::Continue
                        },
                    }
                } else {
                    self.write_line("503 Bad sequence of commands");
                    assert(self.outbox() =~= before + bad_sequence());
                    SmtpCommandResult::Continue
                }
            },
            _ => {
                if verb == Verb::RcptTo {
                    match extract_email(chars.as_slice(), 8) {
                        Some(email) => {
                            assert(self.outbox() =~= before + Seq::<Seq<char>>::empty());
                            SmtpCommandResult::RcptTo(string_of(email.as_slice()))
                        },
                        None => {
                            self.write_line("501 Syntax error in RCPT TO parameters");
                            assert(self.outbox() =~= before
                                + seq!["501 Syntax error in RCPT TO parameters"@]);
                            SmtpCommandResult::Continue
                        },
                    }
                } else if self.state == SmtpState::MailFrom && (verb == Verb::Helo || verb
                    == Verb::Ehlo) {
                    self.write_greeting(chars.as_slice(), verb);
                    self.state = SmtpState::Greeted;
                    SmtpCommandResult::Continue
                } else if self.state == SmtpState::RcptTo && verb == Verb::Data {
                    self.write_line("354 Start mail input; end with <CRLF>.<CRLF>");
                    assert(self.outbox() =~= before
                        + seq!["354 Start mail input; end with <CRLF>.<CRLF>"@]);
                    self.state = SmtpState::Data;
                    SmtpCommandResult::DataStart
                } else {
                    self.write_line("503 Bad sequence of commands");
                    assert(self.outbox() =~= before + bad_sequence());
                    SmtpCommandResult::Continue
                }
            },
        }
    }
}

/// The command of a line.
pub fn classify(line: &[char]) -> (r: Verb)
    ensures
        r == verb_of(line@),
        r == Verb::Helo || r == Verb::Ehlo ==> line@.len() >= 4,
        r == Verb::MailFrom ==> line@.len() >= 10,
        r == Verb::RcptTo ==> line@.len() >= 8,
{
    proof {
        reveal_strlit("HELO");
        reveal_strlit("EHLO");
        reveal_strlit("MAIL FROM:");
        reveal_strlit("RCPT TO:");
    }
    if has_prefix_ci(line, chars_of("HELO").as_slice()) {
        Verb::Helo
    } else if has_prefix_ci(line, chars_of("EHLO").as_slice()) {
        Verb::Ehlo
    } else if has_prefix_ci(line, chars_of("STARTTLS").as_slice()) {
        Verb::StartTls
    } else if has_prefix_ci(line, chars_of("MAIL FROM:").as_slice()) {
        Verb::MailFrom
    } else if has_prefix_ci(line, chars_of("RCPT TO:").as_slice()) {
        Verb::RcptTo
    } else if has_prefix_ci(line, chars_of("DATA").as_slice()) {
        Verb::Data
    } else if has_prefix_ci(line, chars_of("QUIT").as_slice()) {
        Verb::Quit
    } else {
        Verb::Unknown
    }
}

/// The name given after HELO or EHLO.
fn client_name_of(line: &[char]) -> (r: Vec<char>)
    requires
        line@.len() >= 4,
    ensures
        r@ == client_name(line@),
{
    let rest = slice(line, 4, line.len());
    let t = trimmed(rest.as_slice());
    if t.len() == 0 {
        chars_of("client")
    } else {
        t
    }
}

/// Index of the first unquoted `<` in `s`, or its length.
pub(crate) fn find_open_angle(s: &[char]) -> (r: usize)
    ensures
        r as int == open_angle(s@, 0, false),
        r <= s@.len(),
{
    let mut i: usize = 0;
    let mut quoted = false;
    while i < s.len()
        invariant
            i <= s@.len(),
            open_angle(s@, 0, false) == open_angle(s@, i as int, quoted),
        decreases s@.len() - i,
    {
        if s[i] == '"' {
            quoted = !quoted;
        } else if s[i] == '<' && !quoted {
            return i;
        }
        i += 1;
    }
    i
}

/// Index of the first `>` in `s` at or after `from`, or its length.
fn find_close_angle(s: &[char], from: usize) -> (r: usize)
    requires
        from <= s@.len(),
    ensures
        r as int == close_angle(s@, from as int),
        from <= r <= s@.len(),
{
    let mut i: usize = from;
    while i < s.len()
        invariant
            from <= i <= s@.len(),
            close_angle(s@, from as int) == close_angle(s@, i as int),
        decreases s@.len() - i,
    {
        if s[i] == '>' {
            return i;
        }
        i += 1;
    }
    i
}

/// Index of the first blank in `s`, or its length.
fn find_blank(s: &[char]) -> (r: usize)
    ensures
        r as int == next_blank(s@, 0),
        r <= s@.len(),
{
    let mut i: usize = 0;
    while i < s.len()
        invariant
            i <= s@.len(),
            next_blank(s@, 0) == next_blank(s@, i as int),
        decreases s@.len() - i,
    {
        if s[i] == ' ' || s[i] == '\t' {
            return i;
        }
        i += 1;
    }
    i
}

fn check_mailbox(a: &[char]) -> (r: bool)
    ensures
        r == is_mailbox(a@),
{
    if a.len() == 0 {
        return false;
    }
    let mut i: usize = 0;
    while i < a.len()
        invariant
            i <= a@.len(),
            forall|k: int|
                0 <= k < i ==> !is_space(#[trigger] a@[k]) && a@[k] != '<' && a@[k] != '>'
                    && a@[k] != '"',
        decreases a@.len() - i,
    {
        let c = a[i];
        if c == ' ' || c == '\t' || c == '\r' || c == '\n' || c == '<' || c == '>' || c == '"' {
            return false;
        }
        i += 1;
    }
    true
}

/// The address of a MAIL FROM (`skip` 10) or RCPT TO (`skip` 8) line.
fn extract_email(line: &[char], skip: usize) -> (r: Option<Vec<char>>)
    requires
        skip <= line@.len(),
    ensures
        match r {
            Some(a) => address_in(line@.subrange(skip as int, line@.len() as int)) == Some(a@),
            None => address_in(line@.subrange(skip as int, line@.len() as int)) is None,
        },
{
    let param = slice(line, skip, line.len());
    let p = trimmed(param.as_slice());
    let o = find_open_angle(p.as_slice());
    let a = if o < p.len() {
        let c = find_close_angle(p.as_slice(), o + 1);
        if c < p.len() {
            slice(p.as_slice(), o + 1, c)
        } else {
            Vec::new()
        }
    } else {
        let b = find_blank(p.as_slice());
        slice(p.as_slice(), 0, b)
    };
    if check_mailbox(a.as_slice()) {
        Some(a)
    } else {
        None
    }
}

} // verus!
