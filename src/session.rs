//! One SMTP connection: the command state machine together with the envelope
//! of the current transaction. The connection's owner hands in each received
//! line, performs the action that comes back (close, TLS upgrade, handing a
//! payload to the dispatcher), and then writes out the queued replies.

use vstd::prelude::*;
use crate::codec::{crlf, frame, is_terminator, wire};
use crate::email_parser::{extracted, opt_headers_view, opt_view, EmailParser};
use crate::smtp_protocol::{
    kind_after, replies_to, state_after, text_after, ResultKind, SmtpCommandResult, SmtpProtocol,
    SmtpState,
};
use crate::text::{append, chars_of, eq_ci, equal_ci, string_of, views};
use crate::webhook::EmailPayload;

verus! {

/// The most message text, in characters, that a session keeps for one message.
pub const MAX_MESSAGE_CHARS: usize = 10 * 1024 * 1024;

/// `a` matches an allow-listed address, up to ASCII case.
pub open spec fn allowed(targets: Seq<Seq<char>>, a: Seq<char>) -> bool {
    exists|i: int| 0 <= i < targets.len() && eq_ci(#[trigger] targets[i], a)
}

/// What the connection's owner must do after a line.
#[derive(Debug)]
pub enum SessionAction {
    /// Read the next line.
    Continue,
    /// Close the connection.
    Close,
    /// Perform the TLS handshake, then run a new session on the encrypted stream.
    StartTls,
    /// Hand this payload to the dispatcher.
    Deliver(EmailPayload),
    /// The message could not be parsed; nothing is delivered.
    Discard,
}

/// The state of one SMTP connection.
pub struct Session {
    protocol: SmtpProtocol,
    target_emails: Vec<String>,
    header_prefixes: Vec<String>,
    sender: String,
    recipient: Option<String>,
    data: Vec<char>,
    too_large: bool,
}

/// The state after a line: as the command machine says, except that the
/// allow-list decides where a RCPT TO leads.
pub open spec fn session_state_after(
    state: SmtpState,
    tls: bool,
    line: Seq<char>,
    targets: Seq<Seq<char>>,
    too_large: bool,
) -> SmtpState {
    if state == SmtpState::Data && too_large && is_terminator(line) {
        SmtpState::Greeted
    } else if kind_after(state, tls, line) == ResultKind::RcptTo {
        if allowed(targets, text_after(state, tls, line)) {
            SmtpState::RcptTo
        } else {
            SmtpState::MailFrom
        }
    } else {
        state_after(state, tls, line)
    }
}

/// The replies to a line: those of the command machine, then the allow-list's
/// verdict on a RCPT TO; a message that outgrew the size bound is refused at
/// its terminator.
pub open spec fn session_replies(
    state: SmtpState,
    tls: bool,
    line: Seq<char>,
    targets: Seq<Seq<char>>,
    too_large: bool,
) -> Seq<Seq<char>> {
    if state == SmtpState::Data && too_large && is_terminator(line) {
        seq!["552 Requested mail action aborted: exceeded storage allocation"@]
    } else {
        session_replies_in_bound(state, tls, line, targets)
    }
}

/// The replies to a line of a session within the size bound.
pub open spec fn session_replies_in_bound(
    state: SmtpState,
    tls: bool,
    line: Seq<char>,
    targets: Seq<Seq<char>>,
) -> Seq<Seq<char>> {
    replies_to(state, tls, line) + if kind_after(state, tls, line) == ResultKind::RcptTo {
        if allowed(targets, text_after(state, tls, line)) {
            seq!["250 OK"@]
        } else {
            seq!["550 No such user here"@]
        }
    } else {
        Seq::empty()
    }
}

/// `p` is the payload for a message `raw` from `sender` to `recipient`.
pub open spec fn payload_of(
    p: EmailPayload,
    sender: Seq<char>,
    recipient: Seq<char>,
    raw: Seq<char>,
    prefixes: Seq<Seq<char>>,
) -> bool {
    &&& p.sender@ == sender
    &&& p.recipient@ == recipient
    &&& extracted(
        p.subject@,
        opt_view(p.sender_name),
        p.body@,
        opt_view(p.html_body),
        opt_headers_view(p.headers),
        raw,
        prefixes,
    )
}

impl Session {
    pub closed spec fn state(&self) -> SmtpState {
        self.protocol.state()
    }

    pub closed spec fn tls(&self) -> bool {
        self.protocol.tls()
    }

    /// The replies queued and not yet taken.
    pub closed spec fn pending_replies(&self) -> Seq<Seq<char>> {
        self.protocol.outbox()
    }

    pub closed spec fn targets(&self) -> Seq<Seq<char>> {
        views(self.target_emails@)
    }

    pub closed spec fn prefixes(&self) -> Seq<Seq<char>> {
        views(self.header_prefixes@)
    }

    /// The reverse-path of the current transaction.
    pub closed spec fn sender(&self) -> Seq<char> {
        self.sender@
    }

    /// The accepted forward-path of the current transaction.
    pub closed spec fn recipient(&self) -> Option<Seq<char>> {
        opt_view(self.recipient)
    }

    /// The message text collected so far.
    pub closed spec fn data(&self) -> Seq<char> {
        self.data@
    }

    /// The message being received has outgrown the size bound.
    pub closed spec fn too_large(&self) -> bool {
        self.too_large
    }

    /// An accepted recipient is always on the allow-list, and a transaction
    /// reaches RcptTo or Data only with one; message text is collected only
    /// in Data.
    pub closed spec fn wf(&self) -> bool {
        &&& (self.recipient() matches Some(r) ==> allowed(self.targets(), r))
        &&& (self.state() == SmtpState::RcptTo || self.state() == SmtpState::Data)
            ==> self.recipient() is Some
        &&& self.state() != SmtpState::Data ==> self.data().len() == 0 && !self.too_large()
        &&& self.data().len() <= MAX_MESSAGE_CHARS
    }

    /// A session for a new connection, or for one just upgraded to TLS
    /// (`tls_active`), which gets no greeting.
    pub fn new(target_emails: Vec<String>, header_prefixes: Vec<String>, tls_active: bool) -> (r:
        Self)
        ensures
            r.wf(),
            r.state() == SmtpState::Initial,
            r.tls() == tls_active,
            r.targets() == views(target_emails@),
            r.prefixes() == views(header_prefixes@),
            r.recipient() is None,
            tls_active ==> r.pending_replies() == Seq::<Seq<char>>::empty(),
            !tls_active ==> r.pending_replies() == seq!["220 MailLaser SMTP Server Ready"@],
    {
        let mut protocol = SmtpProtocol::new(tls_active);
        if !tls_active {
            protocol.send_greeting();
            assert(protocol.outbox() =~= seq!["220 MailLaser SMTP Server Ready"@]);
        }
        Session {
            protocol,
            target_emails,
            header_prefixes,
            sender: String::new(),
            recipient: None,
            data: Vec::new(),
            too_large: false,
        }
    }

    /// A received line without its line ending.
    pub fn read_line(&self, raw: &str) -> (r: String)
        ensures
            r@ == crate::codec::strip_line_end(raw@),
    {
        self.protocol.read_line(raw)
    }

    pub fn get_state(&self) -> (r: SmtpState)
        ensures
            r == self.state(),
    {
        self.protocol.get_state()
    }

    /// Hands out the queued replies in their wire form.
    pub fn take_replies(&mut self) -> (r: String)
        ensures
            r@ == wire(old(self).pending_replies()),
            final(self).pending_replies() == Seq::<Seq<char>>::empty(),
            final(self).state() == old(self).state(),
            final(self).tls() == old(self).tls(),
            final(self).targets() == old(self).targets(),
            final(self).prefixes() == old(self).prefixes(),
            final(self).sender() == old(self).sender(),
            final(self).recipient() == old(self).recipient(),
            final(self).data() == old(self).data(),
            final(self).too_large() == old(self).too_large(),
            old(self).wf() ==> final(self).wf(),
    {
        self.protocol.take_output()
    }

    /// Processes one received line (without its line ending).
    pub fn handle_line(&mut self, line: &str) -> (r: SessionAction)
        requires
            old(self).wf(),
        ensures
            final(self).wf(),
            ({
                let st = old(self).state();
                let tls = old(self).tls();
                let kind = kind_after(st, tls, line@);
                let text = text_after(st, tls, line@);
                let big = old(self).too_large();
                &&& final(self).state() == session_state_after(
                    st,
                    tls,
                    line@,
                    old(self).targets(),
                    big,
                )
                &&& final(self).pending_replies() == old(self).pending_replies() + session_replies(
                    st,
                    tls,
                    line@,
                    old(self).targets(),
                    big,
                )
                &&& final(self).tls() == tls
                &&& final(self).targets() == old(self).targets()
                &&& final(self).prefixes() == old(self).prefixes()
                // what the owner must do
                &&& (kind == ResultKind::Quit <==> r is Close)
                &&& (kind == ResultKind::StartTls <==> r is StartTls)
                &&& (kind == ResultKind::DataEnd <==> (r is Deliver || r is Discard))
                &&& (r matches SessionAction::Deliver(p) ==> payload_of(
                    p,
                    old(self).sender(),
                    old(self).recipient()->Some_0,
                    old(self).data(),
                    old(self).prefixes(),
                ))
                &&& (r matches SessionAction::Deliver(p) ==> allowed(
                    old(self).targets(),
                    p.recipient@,
                ))
                &&& (r is Deliver ==> !big)
                &&& (r is Discard <==> kind == ResultKind::DataEnd && (big || old(self).data().len()
                    == 0))
                // the envelope
                &&& (kind == ResultKind::MailFrom ==> final(self).sender() == text
                    && final(self).recipient() is None)
                &&& (kind == ResultKind::RcptTo ==> final(self).recipient() == if allowed(
                    old(self).targets(),
                    text,
                ) {
                    Some(text)
                } else {
                    None
                })
                &&& (kind == ResultKind::DataStart ==> final(self).data().len() == 0
                    && !final(self).too_large())
                &&& (kind == ResultKind::DataLine ==> if !big && old(self).data().len() + frame(
                    text,
                ).len() <= MAX_MESSAGE_CHARS {
                    final(self).data() == old(self).data() + frame(text) && !final(self).too_large()
                } else {
                    final(self).data() == old(self).data() && final(self).too_large()
                })
                &&& (final(self).state() == SmtpState::Greeted || final(self).state()
                    == SmtpState::Initial) ==> final(self).recipient() is None
                    && final(self).data().len() == 0
            }),
    {
        let ghost st = self.state();
        let ghost before = self.pending_replies();
        if self.too_large && self.protocol.get_state() == SmtpState::Data {
            let chars = chars_of(line);
            if chars.len() == 1 && chars[0] == '.' {
                assert(line@ =~= seq!['.']);
                self.protocol.reset_state();
                self.protocol.write_line(
                    "552 Requested mail action aborted: exceeded storage allocation",
                );
                self.sender = String::new();
                self.recipient = None;
                self.data = Vec::new();
                self.too_large = false;
                assert(self.pending_replies() =~= before + seq![
                    "552 Requested mail action aborted: exceeded storage allocation"@,
                ]);
                return SessionAction::Discard;
            }
        }
        let result = self.protocol.process_command(line);
        let action = match result {
            SmtpCommandResult::Continue => SessionAction::Continue,
            SmtpCommandResult::Quit => SessionAction::Close,
            SmtpCommandResult::StartTls => SessionAction::StartTls,
            SmtpCommandResult::MailFrom(address) => {
                self.sender = address;
                self.recipient = None;
                SessionAction::Continue
            },
            SmtpCommandResult::RcptTo(address) => {
                let ghost mid = self.pending_replies();
                if is_allowed(&self.target_emails, &address) {
                    self.recipient = Some(address);
                    self.protocol.accept_recipient();
                    assert(self.pending_replies() =~= mid + seq!["250 OK"@]);
                } else {
                    self.recipient = None;
                    self.protocol.reject_recipient();
                    assert(self.pending_replies() =~= mid + seq!["550 No such user here"@]);
                }
                SessionAction::Continue
            },
            SmtpCommandResult::DataStart => {
                self.data = Vec::new();
                self.too_large = false;
                SessionAction::Continue
            },
            SmtpCommandResult::DataLine(text) => {
                let end: [char; 2] = ['\r', '\n'];
                assert(end@ =~= crlf());
                let t = chars_of(text.as_str());
                let room = MAX_MESSAGE_CHARS - self.data.len();
                if !self.too_large && t.len() <= room && room - t.len() >= 2 {
                    append(&mut self.data, t.as_slice());
                    append(&mut self.data, &end);
                } else {
                    self.too_large = true;
                }
                SessionAction::Continue
            },
            SmtpCommandResult::DataEnd => {
                let raw = string_of(self.data.as_slice());
                let action = match EmailParser::parse(raw.as_str(), &self.header_prefixes) {
                    Ok(parsed) => {
                        let recipient = match &self.recipient {
                            Some(r) => r.clone(),
                            None => String::new(),
                        };
                        SessionAction::Deliver(
                            EmailPayload {
                                sender: self.sender.clone(),
                                sender_name: parsed.sender_name,
                                recipient,
                                subject: parsed.subject,
                                body: parsed.body,
                                html_body: parsed.html_body,
                                headers: parsed.headers,
                            },
                        )
                    },
                    Err(_) => SessionAction::Discard,
                };
                action
            },
        };
        let now = self.protocol.get_state();
        if now == SmtpState::Greeted || now == SmtpState::Initial {
            self.sender = String::new();
            self.recipient = None;
            self.data = Vec::new();
            self.too_large = false;
        }
        proof {
            if kind_after(st, self.tls(), line@) != ResultKind::RcptTo {
                assert(self.pending_replies() =~= before + session_replies_in_bound(
                    st,
                    self.tls(),
                    line@,
                    self.targets(),
                ));
            }
        }
        action
    }
}

/// Whether `address` matches an allow-listed address, up to ASCII case.
pub fn is_allowed(targets: &Vec<String>, address: &String) -> (r: bool)
    ensures
        r == allowed(views(targets@), address@),
{
    let a = chars_of(address.as_str());
    let mut i: usize = 0;
    while i < targets.len()
        invariant
            i <= targets@.len(),
            a@ == address@,
            forall|k: int| 0 <= k < i ==> !eq_ci(#[trigger] views(targets@)[k], address@),
        decreases targets@.len() - i,
    {
        let t = chars_of(targets[i].as_str());
        if equal_ci(t.as_slice(), a.as_slice()) {
            assert(eq_ci(views(targets@)[i as int], address@));
            return true;
        }
        i += 1;
    }
    false
}

/// A transaction reaches RcptTo or Data only with an accepted recipient,
/// and an accepted recipient matches the allow-list.
pub proof fn lemma_data_needs_accepted_recipient(s: Session)
    requires
        s.wf(),
    ensures
        s.state() == SmtpState::RcptTo || s.state() == SmtpState::Data ==> (s.recipient() matches Some(
            r,
        ) && allowed(s.targets(), r)),
{
}

/// A RCPT TO whose address is not on the allow-list gets exactly the reply
/// `550 No such user here` and leaves the transaction without a recipient,
/// back in MailFrom.
pub proof fn lemma_unlisted_recipient_rejected(
    state: SmtpState,
    tls: bool,
    line: Seq<char>,
    targets: Seq<Seq<char>>,
)
    requires
        kind_after(state, tls, line) == ResultKind::RcptTo,
        !allowed(targets, text_after(state, tls, line)),
    ensures
        session_replies(state, tls, line, targets, false) == seq!["550 No such user here"@],
        session_state_after(state, tls, line, targets, false) == SmtpState::MailFrom,
{
    assert(replies_to(state, tls, line) =~= Seq::<Seq<char>>::empty());
    assert(session_replies(state, tls, line, targets, false) =~= seq!["550 No such user here"@]);
}

} // verus!
