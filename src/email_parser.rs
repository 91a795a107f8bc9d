//! Extraction of the webhook fields from a received message: the decoded
//! Subject, the display name of the From header, the first text/plain and the
//! first text/html part of the MIME tree, and the headers whose names begin
//! with one of the configured prefixes.
//!
//! A message is modelled as its lines (without line endings). An entity is a
//! run of lines: its header lines up to the first empty line, then its body.

use vstd::prelude::*;
use vstd::utf8::encode_utf8;
use crate::codec::{strip_line, strip_line_end};
use crate::encoding::{
    b64_decode, charset_text, decode_base64, decode_header_value, decode_quoted_printable,
    decoded_header, qp_decode, text_in_charset,
};
use crate::smtp_protocol::{find_open_angle, open_angle};
use crate::text::{
    append, chars_of, concat, eq_ci, equal_ci, find_char, has_prefix_ci, index_of, is_blank, lower_chars,
    lower_seq, matches_ci_at, slice, split_pieces, split_on, starts_with_ci, string_of, trim,
    trimmed, views,
};

verus! {

/// How deeply multipart entities may nest before the parser stops descending.
pub const MAX_NESTING: usize = 8;

/// A header: its name as written, and its unfolded value.
pub type Header = (Seq<char>, Seq<char>);

/// The lines of a text: split at LF, each without its CR, and without the
/// empty piece that a final line ending leaves.
pub open spec fn message_lines(raw: Seq<char>) -> Seq<Seq<char>> {
    let p = split_on(raw, '\n').map_values(|l: Seq<char>| strip_line_end(l));
    if p.len() > 0 && p.last().len() == 0 {
        p.drop_last()
    } else {
        p
    }
}

/// Index of the first empty line at or after `i`, or the number of lines.
pub open spec fn blank_from(lines: Seq<Seq<char>>, i: int) -> int
    decreases lines.len() - i,
{
    if i < 0 || i >= lines.len() {
        lines.len() as int
    } else if lines[i].len() == 0 {
        i
    } else {
        blank_from(lines, i + 1)
    }
}

/// The header lines of an entity.
pub open spec fn head_of(lines: Seq<Seq<char>>) -> Seq<Seq<char>> {
    lines.subrange(0, blank_from(lines, 0))
}

/// The body lines of an entity: those after the first empty line.
pub open spec fn body_of(lines: Seq<Seq<char>>) -> Seq<Seq<char>> {
    let b = blank_from(lines, 0);
    if b < lines.len() {
        lines.subrange(b + 1, lines.len() as int)
    } else {
        Seq::empty()
    }
}

/// The headers of a run of header lines. A line that starts with a blank
/// continues the previous header (unfolding); other lines without a colon are
/// skipped.
pub open spec fn parse_headers(lines: Seq<Seq<char>>) -> Seq<Header>
    decreases lines.len(),
{
    if lines.len() == 0 {
        Seq::empty()
    } else {
        let hs = parse_headers(lines.drop_last());
        let l = lines.last();
        if l.len() > 0 && is_blank(l[0]) {
            if hs.len() > 0 {
                hs.update(hs.len() - 1, (hs.last().0, hs.last().1 + seq![' '] + trim(l)))
            } else {
                hs
            }
        } else {
            let c = index_of(l, ':', 0);
            if c < l.len() {
                hs.push((trim(l.subrange(0, c)), trim(l.subrange(c + 1, l.len() as int))))
            } else {
                hs
            }
        }
    }
}

/// The value of the first header at or after `i` named `name`, up to ASCII case.
pub open spec fn header_from(hs: Seq<Header>, name: Seq<char>, i: int) -> Option<Seq<char>>
    decreases hs.len() - i,
{
    if i < 0 || i >= hs.len() {
        None
    } else if eq_ci(hs[i].0, name) {
        Some(hs[i].1)
    } else {
        header_from(hs, name, i + 1)
    }
}

/// The value of the first header named `name`.
pub open spec fn header_value(hs: Seq<Header>, name: Seq<char>) -> Option<Seq<char>> {
    header_from(hs, name, 0)
}

/// The media type of an entity, lower-cased; `text/plain` without Content-Type.
pub open spec fn media_type(hs: Seq<Header>) -> Seq<char> {
    match header_value(hs, "content-type"@) {
        Some(v) => lower_seq(trim(v.subrange(0, index_of(v, ';', 0)))),
        None => "text/plain"@,
    }
}

/// Index of the first `key` (up to case) at or after `i`, or the length.
pub open spec fn key_at(v: Seq<char>, key: Seq<char>, i: int) -> int
    decreases v.len() - i,
{
    if i < 0 || i >= v.len() {
        v.len() as int
    } else if starts_with_ci(v.subrange(i, v.len() as int), key) {
        i
    } else {
        key_at(v, key, i + 1)
    }
}

/// `s` without the double quotes around it, if it has them.
pub open spec fn unquote(s: Seq<char>) -> Seq<char> {
    if s.len() >= 2 && s[0] == '"' && s.last() == '"' {
        s.subrange(1, s.len() - 1)
    } else {
        s
    }
}

/// The parameter of a Content-Type value that follows `key` (such as
/// `boundary=`), unquoted, when it is not empty.
pub open spec fn param_in(v: Seq<char>, key: Seq<char>) -> Option<Seq<char>> {
    let k = key_at(v, key, 0);
    if k < v.len() {
        let rest = v.subrange(k + key.len(), v.len() as int);
        let b = unquote(trim(rest.subrange(0, index_of(rest, ';', 0))));
        if b.len() > 0 {
            Some(b)
        } else {
            None
        }
    } else {
        None
    }
}

/// The boundary of a multipart entity.
pub open spec fn boundary_of(hs: Seq<Header>) -> Option<Seq<char>> {
    match header_value(hs, "content-type"@) {
        Some(v) => param_in(v, "boundary="@),
        None => None,
    }
}

/// The charset of an entity; empty without one.
pub open spec fn charset_of(hs: Seq<Header>) -> Seq<char> {
    match header_value(hs, "content-type"@) {
        Some(v) => match param_in(v, "charset="@) {
            Some(c) => c,
            None => Seq::empty(),
        },
        None => Seq::empty(),
    }
}

/// The parts of a multipart body: the runs of lines after each `--boundary`
/// line, up to the next one or to the closing `--boundary--`; the preamble and
/// the epilogue are not parts. The second component tells whether a part is
/// open (1) or the closing line was seen (2).
pub open spec fn parts_state(lines: Seq<Seq<char>>, b: Seq<char>) -> (Seq<Seq<Seq<char>>>, int)
    decreases lines.len(),
{
    if lines.len() == 0 {
        (Seq::empty(), 0)
    } else {
        let (ps, phase) = parts_state(lines.drop_last(), b);
        let l = crate::text::trim_end(lines.last());
        if phase == 2 {
            (ps, 2)
        } else if l == "--"@ + b + "--"@ {
            (ps, 2)
        } else if l == "--"@ + b {
            (ps.push(Seq::empty()), 1)
        } else if phase == 1 {
            (ps.update(ps.len() - 1, ps.last().push(lines.last())), 1)
        } else {
            (ps, 0)
        }
    }
}

/// The parts of a multipart body with boundary `b`.
pub open spec fn parts_of(lines: Seq<Seq<char>>, b: Seq<char>) -> Seq<Seq<Seq<char>>> {
    parts_state(lines, b).0
}

/// Lines joined by CRLF, without a line ending after the last.
pub open spec fn join_crlf(lines: Seq<Seq<char>>) -> Seq<char>
    decreases lines.len(),
{
    if lines.len() == 0 {
        Seq::empty()
    } else if lines.len() == 1 {
        lines[0]
    } else {
        join_crlf(lines.drop_last()) + seq!['\r', '\n'] + lines.last()
    }
}

/// The Content-Transfer-Encoding of an entity, lower-cased; empty without one.
pub open spec fn transfer_encoding(hs: Seq<Header>) -> Seq<char> {
    match header_value(hs, "content-transfer-encoding"@) {
        Some(v) => lower_seq(trim(v)),
        None => Seq::empty(),
    }
}

/// The text of a leaf body once its transfer encoding is undone: the
/// decoded bytes of a quoted-printable or base64 body read in the part's
/// charset; any other body as it stands.
pub open spec fn decoded_body(hs: Seq<Header>, text: Seq<char>) -> Seq<char> {
    let te = transfer_encoding(hs);
    if te == "quoted-printable"@ {
        charset_text(charset_of(hs), qp_decode(encode_utf8(text), 0))
    } else if te == "base64"@ {
        charset_text(charset_of(hs), b64_decode(encode_utf8(text)))
    } else {
        text
    }
}

/// The media type sought: text/html or text/plain.
pub open spec fn wanted(html: bool) -> Seq<char> {
    if html {
        "text/html"@
    } else {
        "text/plain"@
    }
}

/// The body of the first leaf of the wanted type in the entity's part tree,
/// walked in order, descending at most `depth` multipart levels.
pub open spec fn leaf_text(lines: Seq<Seq<char>>, html: bool, depth: nat) -> Option<Seq<char>>
    decreases depth, 0nat, 0int,
{
    let hs = parse_headers(head_of(lines));
    let mt = media_type(hs);
    if starts_with_ci(mt, "multipart/"@) {
        match boundary_of(hs) {
            Some(b) => if depth > 0 {
                first_leaf(parts_of(body_of(lines), b), html, (depth - 1) as nat, 0)
            } else {
                None
            },
            None => None,
        }
    } else if mt == wanted(html) {
        Some(decoded_body(hs, join_crlf(body_of(lines))))
    } else {
        None
    }
}

/// The first wanted leaf among `parts[i..]`.
pub open spec fn first_leaf(parts: Seq<Seq<Seq<char>>>, html: bool, depth: nat, i: int) -> Option<
    Seq<char>,
>
    decreases depth, 1nat, parts.len() - i,
{
    if i < 0 || i >= parts.len() {
        None
    } else {
        match leaf_text(parts[i], html, depth) {
            Some(t) => Some(t),
            None => first_leaf(parts, html, depth, i + 1),
        }
    }
}

/// The display name of an address header value: the text before the first
/// unquoted `<` (`"Name" <addr>`), or before the colon of a group
/// (`Name: a@b, c@d;`), unquoted and with its encoded words decoded; none
/// for a bare address.
pub open spec fn display_name(v: Seq<char>) -> Option<Seq<char>> {
    let o = open_angle(v, 0, false);
    let k = if o < v.len() {
        o
    } else {
        index_of(v, ':', 0)
    };
    if k < v.len() && unquote(trim(v.subrange(0, k))).len() > 0 {
        Some(decoded_header(unquote(trim(v.subrange(0, k)))))
    } else {
        None
    }
}

/// The sender's display name from the From header.
pub open spec fn sender_name_of(hs: Seq<Header>) -> Option<Seq<char>> {
    match header_value(hs, "from"@) {
        Some(v) => display_name(v),
        None => None,
    }
}

/// The decoded Subject, or empty text when there is none.
pub open spec fn subject_of(hs: Seq<Header>) -> Seq<char> {
    match header_value(hs, "subject"@) {
        Some(v) => decoded_header(v),
        None => Seq::empty(),
    }
}

/// `name` begins, up to ASCII case, with one of the prefixes.
pub open spec fn matches_prefix(name: Seq<char>, prefixes: Seq<Seq<char>>) -> bool {
    exists|i: int| 0 <= i < prefixes.len() && starts_with_ci(name, #[trigger] prefixes[i])
}

/// The headers whose names begin with one of the prefixes, in order, with
/// their values decoded.
pub open spec fn captured(hs: Seq<Header>, prefixes: Seq<Seq<char>>) -> Seq<Header>
    decreases hs.len(),
{
    if hs.len() == 0 {
        Seq::empty()
    } else {
        let c = captured(hs.drop_last(), prefixes);
        if matches_prefix(hs.last().0, prefixes) {
            c.push((hs.last().0, decoded_header(hs.last().1)))
        } else {
            c
        }
    }
}

/// The text body: the rendering of the HTML part when there is one and it
/// rendered, else the plain part, else the raw HTML; without an HTML part, the
/// plain part or empty text.
pub open spec fn body_text(
    plain: Option<Seq<char>>,
    html: Option<Seq<char>>,
    rendered: Option<Seq<char>>,
) -> Seq<char> {
    match html {
        Some(h) => match rendered {
            Some(t) => t,
            None => match plain {
                Some(p) => p,
                None => h,
            },
        },
        None => match plain {
            Some(p) => p,
            None => Seq::empty(),
        },
    }
}

/// What html2text renders from an HTML text at 80 columns.
pub uninterp spec fn html_rendering(html: Seq<char>) -> Seq<char>;

pub open spec fn opt_view(o: Option<String>) -> Option<Seq<char>> {
    match o {
        Some(s) => Some(s@),
        None => None,
    }
}

pub open spec fn headers_view(v: Seq<(String, String)>) -> Seq<Header> {
    v.map_values(|h: (String, String)| (h.0@, h.1@))
}

pub open spec fn opt_headers_view(o: Option<Vec<(String, String)>>) -> Option<Seq<Header>> {
    match o {
        Some(v) => Some(headers_view(v@)),
        None => None,
    }
}

/// The fields that parsing `raw` yields, with `prefixes` selecting the
/// captured headers. The text body is either the one for an HTML part that
/// rendered or the one for an HTML part that did not; without an HTML part the
/// two coincide. Captured headers are absent when none matched.
pub open spec fn extracted(
    subject: Seq<char>,
    sender_name: Option<Seq<char>>,
    body: Seq<char>,
    html_body: Option<Seq<char>>,
    headers: Option<Seq<Header>>,
    raw: Seq<char>,
    prefixes: Seq<Seq<char>>,
) -> bool {
    let lines = message_lines(raw);
    let hs = parse_headers(head_of(lines));
    let plain = leaf_text(lines, false, MAX_NESTING as nat);
    let html = leaf_text(lines, true, MAX_NESTING as nat);
    let cap = captured(hs, prefixes);
    &&& subject == subject_of(hs)
    &&& sender_name == sender_name_of(hs)
    &&& html_body == html
    &&& (body == body_text(plain, html, None) || (html matches Some(h) && body == body_text(
        plain,
        html,
        Some(html_rendering(h)),
    )))
    &&& headers == (if cap.len() == 0 {
        None
    } else {
        Some(cap)
    })
}

pub open spec fn lines_view(v: Seq<Vec<char>>) -> Seq<Seq<char>> {
    v.map_values(|l: Vec<char>| l@)
}

pub open spec fn parts_view(v: Seq<Vec<Vec<char>>>) -> Seq<Seq<Seq<char>>> {
    v.map_values(|p: Vec<Vec<char>>| lines_view(p@))
}

pub open spec fn pairs_view(v: Seq<(Vec<char>, Vec<char>)>) -> Seq<Header> {
    v.map_values(|h: (Vec<char>, Vec<char>)| (h.0@, h.1@))
}

#[verifier::external_type_specification]
#[verifier::external_body]
pub struct ExHtmlError(html2text::Error);

/// Relies on `html2text::from_read` at 80 columns: when it succeeds, its text
/// depends on the HTML alone.
#[verifier::external_body]
fn render_html(html: &str) -> (r: Result<String, html2text::Error>)
    ensures
        r matches Ok(t) ==> t@ == html_rendering(html@),
{
    html2text::from_read(html.as_bytes(), 80)
}

/// The fields extracted from a message.
pub struct ParsedEmail {
    pub subject: String,
    pub sender_name: Option<String>,
    pub body: String,
    pub html_body: Option<String>,
    pub headers: Option<Vec<(String, String)>>,
}

/// Why a message could not be parsed.
#[derive(Debug, PartialEq, Eq, Structural, Clone, Copy)]
pub enum ParseError {
    /// The message text is empty.
    Empty,
}

/// The message parser.
pub struct EmailParser;

impl EmailParser {
    /// Parses a received message. It fails only on empty text. `header_prefixes`
    /// selects the headers to capture; without a match, `headers` is absent.
    pub fn parse(raw: &str, header_prefixes: &Vec<String>) -> (r: Result<ParsedEmail, ParseError>)
        ensures
            r is Err <==> raw@.len() == 0,
            r matches Ok(e) ==> extracted(
                e.subject@,
                opt_view(e.sender_name),
                e.body@,
                opt_view(e.html_body),
                opt_headers_view(e.headers),
                raw@,
                views(header_prefixes@),
            ),
    {
        let chars = chars_of(raw);
        if chars.len() == 0 {
            return Err(ParseError::Empty);
        }
        let lines = split_lines(chars.as_slice());
        let b = blank_index(&lines);
        let head = copy_lines(&lines, 0, b);
        let hs = parse_header_lines(&head);
        let subject = match lookup_header(&hs, chars_of("subject").as_slice()) {
            Some(v) => decode_header_value(v.as_slice()),
            None => Vec::new(),
        };
        let sender_name = match lookup_header(&hs, chars_of("from").as_slice()) {
            Some(v) => display_name_of(v.as_slice()),
            None => None,
        };
        let plain = find_leaf(&lines, false, MAX_NESTING);
        let html = find_leaf(&lines, true, MAX_NESTING);
        let plain_s = match plain {
            Some(p) => Some(string_of(p.as_slice())),
            None => None,
        };
        let html_s = match html {
            Some(h) => Some(string_of(h.as_slice())),
            None => None,
        };
        let rendered = match &html_s {
            Some(h) => match render_html(h.as_str()) {
                Ok(t) => Some(t),
                Err(_) => None,
            },
            None => None,
        };
        let (body, html_body) = select_body(plain_s, html_s, rendered);
        let cap = capture_headers(&hs, header_prefixes);
        let headers = if cap.len() == 0 {
            None
        } else {
            Some(cap)
        };
        Ok(
            ParsedEmail {
                subject: string_of(subject.as_slice()),
                sender_name: match sender_name {
                    Some(n) => Some(string_of(n.as_slice())),
                    None => None,
                },
                body,
                html_body,
                headers,
            },
        )
    }
}

/// The text body and the HTML body from the candidates of a message and the
/// rendering of its HTML part (none when rendering failed).
pub fn select_body(plain: Option<String>, html: Option<String>, rendered: Option<String>) -> (r: (
    String,
    Option<String>,
))
    ensures
        r.0@ == body_text(opt_view(plain), opt_view(html), opt_view(rendered)),
        opt_view(r.1) == opt_view(html),
{
    match html {
        Some(h) => {
            let body = match rendered {
                Some(t) => t,
                None => match plain {
                    Some(p) => p,
                    None => h.clone(),
                },
            };
            (body, Some(h))
        },
        None => {
            let body = match plain {
                Some(p) => p,
                None => String::new(),
            };
            (body, None)
        },
    }
}

/// The lines of a text.
fn split_lines(raw: &[char]) -> (r: Vec<Vec<char>>)
    ensures
        lines_view(r@) == message_lines(raw@),
{
    let pieces = split_pieces(raw, '\n');
    let ghost p = pieces@.map_values(|v: Vec<char>| v@);
    let ghost stripped = p.map_values(|l: Seq<char>| strip_line_end(l));
    let mut out: Vec<Vec<char>> = Vec::new();
    let mut i: usize = 0;
    while i < pieces.len()
        invariant
            i <= pieces@.len(),
            p == pieces@.map_values(|v: Vec<char>| v@),
            stripped == p.map_values(|l: Seq<char>| strip_line_end(l)),
            lines_view(out@) == stripped.subrange(0, i as int),
        decreases pieces@.len() - i,
    {
        let l = strip_line(pieces[i].as_slice());
        assert(stripped[i as int] == strip_line_end(pieces@[i as int]@));
        let ghost before = lines_view(out@);
        out.push(l);
        assert(lines_view(out@) =~= before.push(l@));
        i += 1;
        assert(lines_view(out@) =~= stripped.subrange(0, i as int));
    }
    assert(stripped.subrange(0, stripped.len() as int) =~= stripped);
    if out.len() > 0 && out[out.len() - 1].len() == 0 {
        out.pop();
        assert(lines_view(out@) =~= stripped.drop_last());
    }
    out
}

/// Index of the first empty line, or the number of lines.
fn blank_index(lines: &Vec<Vec<char>>) -> (r: usize)
    ensures
        r as int == blank_from(lines_view(lines@), 0),
        r <= lines@.len(),
{
    let mut i: usize = 0;
    while i < lines.len()
        invariant
            i <= lines@.len(),
            blank_from(lines_view(lines@), 0) == blank_from(lines_view(lines@), i as int),
        decreases lines@.len() - i,
    {
        if lines[i].len() == 0 {
            return i;
        }
        i += 1;
    }
    i
}

/// Copies of `lines[from..to]`.
fn copy_lines(lines: &Vec<Vec<char>>, from: usize, to: usize) -> (r: Vec<Vec<char>>)
    requires
        from <= to <= lines@.len(),
    ensures
        lines_view(r@) == lines_view(lines@).subrange(from as int, to as int),
{
    let mut out: Vec<Vec<char>> = Vec::new();
    let mut i: usize = from;
    while i < to
        invariant
            from <= i <= to <= lines@.len(),
            lines_view(out@) == lines_view(lines@).subrange(from as int, i as int),
        decreases to - i,
    {
        let l = slice(lines[i].as_slice(), 0, lines[i].len());
        assert(l@ =~= lines@[i as int]@);
        let ghost before = lines_view(out@);
        out.push(l);
        assert(lines_view(out@) =~= before.push(l@));
        i += 1;
        assert(lines_view(out@) =~= lines_view(lines@).subrange(from as int, i as int));
    }
    out
}

/// The headers of a run of header lines.
fn parse_header_lines(lines: &Vec<Vec<char>>) -> (r: Vec<(Vec<char>, Vec<char>)>)
    ensures
        pairs_view(r@) == parse_headers(lines_view(lines@)),
{
    let mut hs: Vec<(Vec<char>, Vec<char>)> = Vec::new();
    let mut i: usize = 0;
    let ghost all = lines_view(lines@);
    while i < lines.len()
        invariant
            i <= lines@.len(),
            all == lines_view(lines@),
            pairs_view(hs@) == parse_headers(all.subrange(0, i as int)),
        decreases lines@.len() - i,
    {
        let l = &lines[i];
        let ghost before = pairs_view(hs@);
        assert(all.subrange(0, i + 1).drop_last() =~= all.subrange(0, i as int));
        assert(all.subrange(0, i + 1).last() == l@);
        if l.len() > 0 && (l[0] == ' ' || l[0] == '\t') {
            if hs.len() > 0 {
                let last = hs.len() - 1;
                let t = trimmed(l.as_slice());
                let sp: [char; 1] = [' '];
                let (name, value) = hs.remove(last);
                let v1 = concat(value.as_slice(), &sp);
                let v2 = concat(v1.as_slice(), t.as_slice());
                assert(sp@ =~= seq![' ']);
                hs.push((name, v2));
                assert(pairs_view(hs@) =~= before.update(
                    before.len() - 1,
                    (before.last().0, before.last().1 + seq![' '] + trim(l@)),
                ));
            }
        } else {
            let c = find_char(l.as_slice(), ':', 0);
            if c < l.len() {
                let n = slice(l.as_slice(), 0, c);
                let v = slice(l.as_slice(), c + 1, l.len());
                let name = trimmed(n.as_slice());
                let value = trimmed(v.as_slice());
                hs.push((name, value));
                assert(pairs_view(hs@) =~= before.push(
                    (trim(l@.subrange(0, c as int)), trim(l@.subrange(c + 1, l@.len() as int))),
                ));
            }
        }
        i += 1;
    }
    assert(all.subrange(0, all.len() as int) =~= all);
    hs
}

/// The value of the first header named `name`, up to ASCII case.
fn lookup_header(hs: &Vec<(Vec<char>, Vec<char>)>, name: &[char]) -> (r: Option<Vec<char>>)
    ensures
        match r {
            Some(v) => header_value(pairs_view(hs@), name@) == Some(v@),
            None => header_value(pairs_view(hs@), name@) is None,
        },
{
    let mut i: usize = 0;
    while i < hs.len()
        invariant
            i <= hs@.len(),
            header_value(pairs_view(hs@), name@) == header_from(
                pairs_view(hs@),
                name@,
                i as int,
            ),
        decreases hs@.len() - i,
    {
        if equal_ci(hs[i].0.as_slice(), name) {
            return Some(slice(hs[i].1.as_slice(), 0, hs[i].1.len()));
        }
        i += 1;
    }
    None
}

/// The lower-cased media type of a Content-Type value.
fn media_type_in(v: &[char]) -> (r: Vec<char>)
    ensures
        r@ == lower_seq(trim(v@.subrange(0, index_of(v@, ';', 0)))),
{
    let k = find_char(v, ';', 0);
    let head = slice(v, 0, k);
    let t = trimmed(head.as_slice());
    lower_chars(t.as_slice())
}

/// The media type of an entity.
fn media_type_of(hs: &Vec<(Vec<char>, Vec<char>)>) -> (r: Vec<char>)
    ensures
        r@ == media_type(pairs_view(hs@)),
{
    match lookup_header(hs, chars_of("content-type").as_slice()) {
        Some(v) => media_type_in(v.as_slice()),
        None => chars_of("text/plain"),
    }
}

fn unquoted(s: &[char]) -> (r: Vec<char>)
    ensures
        r@ == unquote(s@),
{
    if s.len() >= 2 && s[0] == '"' && s[s.len() - 1] == '"' {
        slice(s, 1, s.len() - 1)
    } else {
        let r = slice(s, 0, s.len());
        assert(r@ =~= s@);
        r
    }
}

/// The parameter of a Content-Type value that follows `key`.
fn param_of(v: &[char], key: &[char]) -> (r: Option<Vec<char>>)
    ensures
        match r {
            Some(p) => param_in(v@, key@) == Some(p@),
            None => param_in(v@, key@) is None,
        },
{
    let mut i: usize = 0;
    while i < v.len()
        invariant
            i <= v@.len(),
            key_at(v@, key@, 0) == key_at(v@, key@, i as int),
        decreases v@.len() - i,
    {
        if matches_ci_at(v, i, key) {
            assert(v@.subrange(i as int, v@.len() as int).subrange(0, key@.len() as int)
                =~= v@.subrange(i as int, i + key@.len()));
            assert(key_at(v@, key@, i as int) == i);
            let rest = slice(v, i + key.len(), v.len());
            let k = find_char(rest.as_slice(), ';', 0);
            let head = slice(rest.as_slice(), 0, k);
            let t = trimmed(head.as_slice());
            let b = unquoted(t.as_slice());
            return if b.len() > 0 {
                Some(b)
            } else {
                None
            };
        }
        assert(!starts_with_ci(v@.subrange(i as int, v@.len() as int), key@)) by {
            if key@.len() <= v@.len() - i {
                assert(v@.subrange(i as int, v@.len() as int).subrange(0, key@.len() as int)
                    =~= v@.subrange(i as int, i + key@.len()));
            }
        }
        i += 1;
    }
    None
}

fn boundary_of_headers(hs: &Vec<(Vec<char>, Vec<char>)>) -> (r: Option<Vec<char>>)
    ensures
        match r {
            Some(b) => boundary_of(pairs_view(hs@)) == Some(b@),
            None => boundary_of(pairs_view(hs@)) is None,
        },
{
    match lookup_header(hs, chars_of("content-type").as_slice()) {
        Some(v) => param_of(v.as_slice(), chars_of("boundary=").as_slice()),
        None => None,
    }
}

fn charset_of_headers(hs: &Vec<(Vec<char>, Vec<char>)>) -> (r: Vec<char>)
    ensures
        r@ == charset_of(pairs_view(hs@)),
{
    match lookup_header(hs, chars_of("content-type").as_slice()) {
        Some(v) => match param_of(v.as_slice(), chars_of("charset=").as_slice()) {
            Some(c) => c,
            None => Vec::new(),
        },
        None => Vec::new(),
    }
}

/// The parts of a multipart body with boundary `b`.
fn split_parts(lines: &Vec<Vec<char>>, b: &[char]) -> (r: Vec<Vec<Vec<char>>>)
    ensures
        parts_view(r@) == parts_of(lines_view(lines@), b@),
{
    let dash: [char; 2] = ['-', '-'];
    let open = concat(&dash, b);
    let close = concat(open.as_slice(), &dash);
    proof {
        reveal_strlit("--");
        assert(dash@ =~= "--"@);
    }
    let mut parts: Vec<Vec<Vec<char>>> = Vec::new();
    let mut phase: u8 = 0;
    let mut i: usize = 0;
    let ghost all = lines_view(lines@);
    while i < lines.len()
        invariant
            i <= lines@.len(),
            all == lines_view(lines@),
            open@ == "--"@ + b@,
            close@ == "--"@ + b@ + "--"@,
            phase <= 2,
            (parts_view(parts@), phase as int) == parts_state(all.subrange(0, i as int), b@),
            phase == 1 ==> parts@.len() > 0,
        decreases lines@.len() - i,
    {
        let ghost before = parts_view(parts@);
        assert(all.subrange(0, i + 1).drop_last() =~= all.subrange(0, i as int));
        assert(all.subrange(0, i + 1).last() == lines@[i as int]@);
        if phase != 2 {
            let l = trim_end_chars(lines[i].as_slice());
            if crate::text::same_chars(l.as_slice(), close.as_slice()) {
                phase = 2;
            } else if crate::text::same_chars(l.as_slice(), open.as_slice()) {
                let fresh: Vec<Vec<char>> = Vec::new();
                assert(lines_view(fresh@) =~= Seq::<Seq<char>>::empty());
                parts.push(fresh);
                phase = 1;
                assert(parts_view(parts@) =~= before.push(Seq::empty()));
            } else if phase == 1 {
                let last = parts.len() - 1;
                let mut part = parts.remove(last);
                let ghost old_part = lines_view(part@);
                let copy = slice(lines[i].as_slice(), 0, lines[i].len());
                assert(copy@ =~= lines@[i as int]@);
                part.push(copy);
                assert(lines_view(part@) =~= old_part.push(lines@[i as int]@));
                parts.push(part);
                assert(parts_view(parts@) =~= before.update(
                    before.len() - 1,
                    before.last().push(lines@[i as int]@),
                ));
            }
        }
        i += 1;
    }
    assert(all.subrange(0, all.len() as int) =~= all);
    parts
}

/// `s` without trailing white space.
fn trim_end_chars(s: &[char]) -> (r: Vec<char>)
    ensures
        r@ == crate::text::trim_end(s@),
{
    let mut j: usize = s.len();
    assert(s@.subrange(0, j as int) =~= s@);
    while j > 0 && (s[j - 1] == ' ' || s[j - 1] == '\t' || s[j - 1] == '\r' || s[j - 1] == '\n')
        invariant
            j <= s@.len(),
            crate::text::trim_end(s@) == crate::text::trim_end(s@.subrange(0, j as int)),
        decreases j,
    {
        assert(s@.subrange(0, j as int).drop_last() =~= s@.subrange(0, j - 1));
        j -= 1;
    }
    slice(s, 0, j)
}

/// A leaf body with its transfer encoding undone.
fn decode_transfer(hs: &Vec<(Vec<char>, Vec<char>)>, text: Vec<char>) -> (r: Vec<char>)
    ensures
        r@ == decoded_body(pairs_view(hs@), text@),
{
    let te = match lookup_header(hs, chars_of("content-transfer-encoding").as_slice()) {
        Some(v) => lower_chars(trimmed(v.as_slice()).as_slice()),
        None => Vec::new(),
    };
    let qp = chars_of("quoted-printable");
    let b64 = chars_of("base64");
    if crate::text::same_chars(te.as_slice(), qp.as_slice()) {
        let s = string_of(text.as_slice());
        let decoded = decode_quoted_printable(s.as_str().as_bytes());
        text_in_charset(charset_of_headers(hs).as_slice(), decoded.as_slice())
    } else if crate::text::same_chars(te.as_slice(), b64.as_slice()) {
        let s = string_of(text.as_slice());
        let decoded = decode_base64(s.as_str().as_bytes());
        text_in_charset(charset_of_headers(hs).as_slice(), decoded.as_slice())
    } else {
        text
    }
}

/// Lines joined by CRLF.
fn join_lines(lines: &Vec<Vec<char>>) -> (r: Vec<char>)
    ensures
        r@ == join_crlf(lines_view(lines@)),
{
    let ghost all = lines_view(lines@);
    if lines.len() == 0 {
        return Vec::new();
    }
    let mut out = slice(lines[0].as_slice(), 0, lines[0].len());
    let mut i: usize = 1;
    assert(all.subrange(0, 1) =~= seq![all[0]]);
    while i < lines.len()
        invariant
            1 <= i <= lines@.len(),
            all == lines_view(lines@),
            out@ == join_crlf(all.subrange(0, i as int)),
        decreases lines@.len() - i,
    {
        let end: [char; 2] = ['\r', '\n'];
        append(&mut out, &end);
        append(&mut out, lines[i].as_slice());
        assert(all.subrange(0, i + 1).drop_last() =~= all.subrange(0, i as int));
        assert(end@ =~= seq!['\r', '\n']);
        i += 1;
    }
    assert(all.subrange(0, all.len() as int) =~= all);
    out
}

/// The body of the first wanted leaf of an entity.
fn find_leaf(lines: &Vec<Vec<char>>, html: bool, depth: usize) -> (r: Option<Vec<char>>)
    ensures
        match r {
            Some(t) => leaf_text(lines_view(lines@), html, depth as nat) == Some(t@),
            None => leaf_text(lines_view(lines@), html, depth as nat) is None,
        },
    decreases depth, 0nat, 0int,
{
    let ghost ls = lines_view(lines@);
    let b = blank_index(lines);
    let head = copy_lines(lines, 0, b);
    let hs = parse_header_lines(&head);
    let mt = media_type_of(&hs);
    let body = if b < lines.len() {
        copy_lines(lines, b + 1, lines.len())
    } else {
        Vec::new()
    };
    assert(lines_view(body@) =~= body_of(ls));
    if has_prefix_ci(mt.as_slice(), chars_of("multipart/").as_slice()) {
        match boundary_of_headers(&hs) {
            Some(bd) => {
                if depth > 0 {
                    let parts = split_parts(&body, bd.as_slice());
                    first_leaf_in(&parts, html, depth - 1)
                } else {
                    None
                }
            },
            None => None,
        }
    } else {
        let want = if html {
            chars_of("text/html")
        } else {
            chars_of("text/plain")
        };
        if crate::text::same_chars(mt.as_slice(), want.as_slice()) {
            let text = join_lines(&body);
            Some(decode_transfer(&hs, text))
        } else {
            None
        }
    }
}

/// The body of the first wanted leaf among the parts.
fn first_leaf_in(parts: &Vec<Vec<Vec<char>>>, html: bool, depth: usize) -> (r: Option<Vec<char>>)
    ensures
        match r {
            Some(t) => first_leaf(parts_view(parts@), html, depth as nat, 0) == Some(t@),
            None => first_leaf(parts_view(parts@), html, depth as nat, 0) is None,
        },
    decreases depth, 1nat, 0int,
{
    let mut i: usize = 0;
    while i < parts.len()
        invariant
            i <= parts@.len(),
            first_leaf(parts_view(parts@), html, depth as nat, 0) == first_leaf(
                parts_view(parts@),
                html,
                depth as nat,
                i as int,
            ),
        decreases parts@.len() - i,
    {
        assert(parts_view(parts@)[i as int] == lines_view(parts@[i as int]@));
        match find_leaf(&parts[i], html, depth) {
            Some(t) => {
                return Some(t);
            },
            None => {},
        }
        i += 1;
    }
    None
}

/// The display name of an address header value.
fn display_name_of(v: &[char]) -> (r: Option<Vec<char>>)
    ensures
        match r {
            Some(n) => display_name(v@) == Some(n@),
            None => display_name(v@) is None,
        },
{
    let o = find_open_angle(v);
    let k = if o < v.len() {
        o
    } else {
        find_char(v, ':', 0)
    };
    if k < v.len() {
        let head = slice(v, 0, k);
        let t = trimmed(head.as_slice());
        let n = unquoted(t.as_slice());
        if n.len() > 0 {
            return Some(decode_header_value(n.as_slice()));
        }
    }
    None
}

/// Whether `name` begins with one of the prefixes, up to ASCII case.
fn has_any_prefix(name: &[char], prefixes: &Vec<String>) -> (r: bool)
    ensures
        r == matches_prefix(name@, views(prefixes@)),
{
    let mut i: usize = 0;
    while i < prefixes.len()
        invariant
            i <= prefixes@.len(),
            forall|k: int| 0 <= k < i ==> !starts_with_ci(name@, #[trigger] views(prefixes@)[k]),
        decreases prefixes@.len() - i,
    {
        let p = chars_of(prefixes[i].as_str());
        if has_prefix_ci(name, p.as_slice()) {
            assert(starts_with_ci(name@, views(prefixes@)[i as int]));
            return true;
        }
        i += 1;
    }
    false
}

/// The headers whose names begin with one of the prefixes.
fn capture_headers(hs: &Vec<(Vec<char>, Vec<char>)>, prefixes: &Vec<String>) -> (r: Vec<
    (String, String),
>)
    ensures
        headers_view(r@) == captured(pairs_view(hs@), views(prefixes@)),
{
    let mut out: Vec<(String, String)> = Vec::new();
    let mut i: usize = 0;
    let ghost all = pairs_view(hs@);
    while i < hs.len()
        invariant
            i <= hs@.len(),
            all == pairs_view(hs@),
            headers_view(out@) == captured(all.subrange(0, i as int), views(prefixes@)),
        decreases hs@.len() - i,
    {
        let ghost before = headers_view(out@);
        assert(all.subrange(0, i + 1).drop_last() =~= all.subrange(0, i as int));
        assert(all.subrange(0, i + 1).last() == all[i as int]);
        if has_any_prefix(hs[i].0.as_slice(), prefixes) {
            let value = decode_header_value(hs[i].1.as_slice());
            out.push((string_of(hs[i].0.as_slice()), string_of(value.as_slice())));
            assert(headers_view(out@) =~= before.push((all[i as int].0, decoded_header(all[i as int].1))));
        }
        i += 1;
    }
    assert(all.subrange(0, all.len() as int) =~= all);
    out
}

/// A message without a From header yields no sender name.
pub proof fn lemma_no_from_no_sender_name(
    subject: Seq<char>,
    sender_name: Option<Seq<char>>,
    body: Seq<char>,
    html_body: Option<Seq<char>>,
    headers: Option<Seq<Header>>,
    raw: Seq<char>,
    prefixes: Seq<Seq<char>>,
)
    requires
        extracted(subject, sender_name, body, html_body, headers, raw, prefixes),
        header_value(parse_headers(head_of(message_lines(raw))), "from"@) is None,
    ensures
        sender_name is None,
{
}

/// A From header that holds only an address, bare (`a@b`) or in angle
/// brackets (`<a@b>`), yields no sender name.
pub proof fn lemma_address_only_no_sender_name(
    subject: Seq<char>,
    sender_name: Option<Seq<char>>,
    body: Seq<char>,
    html_body: Option<Seq<char>>,
    headers: Option<Seq<Header>>,
    raw: Seq<char>,
    prefixes: Seq<Seq<char>>,
    address: Seq<char>,
)
    requires
        extracted(subject, sender_name, body, html_body, headers, raw, prefixes),
        crate::smtp_protocol::is_mailbox(address),
        forall|k: int| 0 <= k < address.len() ==> #[trigger] address[k] != ':',
        header_value(parse_headers(head_of(message_lines(raw))), "from"@) == Some(address)
            || header_value(parse_headers(head_of(message_lines(raw))), "from"@) == Some(
            seq!['<'] + address + seq!['>'],
        ),
    ensures
        sender_name is None,
{
    let v = header_value(parse_headers(head_of(message_lines(raw))), "from"@)->Some_0;
    if v == address {
        lemma_no_open_angle(address, 0, false);
        lemma_no_colon(address, 0);
    } else {
        assert(v[0] == '<');
        assert(open_angle(v, 0, false) == 0);
        assert(v.subrange(0, 0) =~= Seq::<char>::empty());
        assert(crate::text::trim_start(Seq::<char>::empty()) == Seq::<char>::empty());
        assert(crate::text::trim_end(Seq::<char>::empty()) == Seq::<char>::empty());
    }
}

proof fn lemma_no_open_angle(a: Seq<char>, i: int, quoted: bool)
    requires
        0 <= i <= a.len(),
        forall|k: int| 0 <= k < a.len() ==> #[trigger] a[k] != '<' && a[k] != '"',
    ensures
        open_angle(a, i, quoted) == a.len(),
    decreases a.len() - i,
{
    if i < a.len() {
        lemma_no_open_angle(a, i + 1, quoted);
    }
}

proof fn lemma_no_colon(a: Seq<char>, i: int)
    requires
        0 <= i <= a.len(),
        forall|k: int| 0 <= k < a.len() ==> #[trigger] a[k] != ':',
    ensures
        index_of(a, ':', i) == a.len(),
    decreases a.len() - i,
{
    if i < a.len() {
        lemma_no_colon(a, i + 1);
    }
}

} // verus!
