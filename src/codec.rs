//! The line codec of the SMTP conversation: CRLF framing of replies, trimming
//! of received lines, and the dot-stuffing convention of the DATA phase.

use vstd::prelude::*;
use crate::text::{append, chars_of, concat, slice, string_of};

verus! {

/// Carriage return and line feed.
pub open spec fn crlf() -> Seq<char> {
    seq!['\r', '\n']
}

/// A line as it goes on the wire.
pub open spec fn frame(line: Seq<char>) -> Seq<char> {
    line + crlf()
}

/// The wire form of a run of reply lines.
pub open spec fn wire(lines: Seq<Seq<char>>) -> Seq<char>
    decreases lines.len(),
{
    if lines.len() == 0 {
        Seq::empty()
    } else {
        wire(lines.drop_last()) + frame(lines.last())
    }
}

/// A received line without the CR and LF characters that end it.
pub open spec fn strip_line_end(s: Seq<char>) -> Seq<char>
    decreases s.len(),
{
    if s.len() > 0 && (s.last() == '\r' || s.last() == '\n') {
        strip_line_end(s.drop_last())
    } else {
        s
    }
}

/// The line that ends the DATA phase.
pub open spec fn is_terminator(line: Seq<char>) -> bool {
    line == seq!['.']
}

/// The wire form of one message line: a leading dot is doubled.
pub open spec fn stuff(line: Seq<char>) -> Seq<char> {
    if line.len() > 0 && line[0] == '.' {
        seq!['.'] + line
    } else {
        line
    }
}

/// A received DATA line with the leading dot of a stuffed line removed.
pub open spec fn unstuff(line: Seq<char>) -> Seq<char> {
    if line.len() > 1 && line[0] == '.' {
        line.drop_first()
    } else {
        line
    }
}

/// The message text that the DATA phase collects from received lines, none of
/// them the terminator: each line unstuffed and ended by CRLF.
pub open spec fn collected(lines: Seq<Seq<char>>) -> Seq<char>
    decreases lines.len(),
{
    if lines.len() == 0 {
        Seq::empty()
    } else {
        collected(lines.drop_last()) + frame(unstuff(lines.last()))
    }
}

/// The wire form of a message body given as lines: each line stuffed.
pub open spec fn stuffed(lines: Seq<Seq<char>>) -> Seq<Seq<char>> {
    lines.map_values(|l: Seq<char>| stuff(l))
}

/// Dot-stuffing round trip: no stuffed line reads as the terminator, and
/// collecting the stuffed lines gives back the message, each line ended by CRLF.
pub proof fn lemma_dot_stuffing_round_trip(lines: Seq<Seq<char>>)
    ensures
        forall|i: int| 0 <= i < lines.len() ==> !is_terminator(#[trigger] stuffed(lines)[i]),
        collected(stuffed(lines)) == wire(lines),
    decreases lines.len(),
{
    assert forall|i: int| 0 <= i < lines.len() implies !is_terminator(
        #[trigger] stuffed(lines)[i],
    ) by {
        let l = lines[i];
        if l.len() > 0 && l[0] == '.' {
            assert((seq!['.'] + l).len() >= 2);
        } else if l.len() == 1 {
            assert(l[0] != '.');
            assert(stuffed(lines)[i][0] != seq!['.'][0]);
        }
    }
    if lines.len() > 0 {
        lemma_dot_stuffing_round_trip(lines.drop_last());
        assert(stuffed(lines).drop_last() =~= stuffed(lines.drop_last()));
        let l = lines.last();
        if l.len() > 0 && l[0] == '.' {
            assert((seq!['.'] + l).drop_first() =~= l);
        }
        assert(unstuff(stuff(l)) == l);
    }
}

/// The received line without its trailing CR and LF.
pub fn strip_line(raw: &[char]) -> (r: Vec<char>)
    ensures
        r@ == strip_line_end(raw@),
{
    let mut j: usize = raw.len();
    assert(raw@.subrange(0, j as int) =~= raw@);
    while j > 0 && (raw[j - 1] == '\r' || raw[j - 1] == '\n')
        invariant
            j <= raw@.len(),
            strip_line_end(raw@) == strip_line_end(raw@.subrange(0, j as int)),
        decreases j,
    {
        assert(raw@.subrange(0, j as int).drop_last() =~= raw@.subrange(0, j - 1));
        j -= 1;
    }
    slice(raw, 0, j)
}

/// The line with a leading dot of dot-stuffing removed.
pub fn unstuff_line(line: &[char]) -> (r: Vec<char>)
    ensures
        r@ == unstuff(line@),
{
    if line.len() > 1 && line[0] == '.' {
        let r = slice(line, 1, line.len());
        assert(r@ =~= line@.drop_first());
        r
    } else {
        slice(line, 0, line.len())
    }
}

/// The wire form of one message line.
pub fn stuff_line(line: &[char]) -> (r: Vec<char>)
    ensures
        r@ == stuff(line@),
{
    let r = if line.len() > 0 && line[0] == '.' {
        let dot: [char; 1] = ['.'];
        concat(&dot, line)
    } else {
        slice(line, 0, line.len())
    };
    proof {
        if line@.len() > 0 && line@[0] == '.' {
            assert(seq!['.'] =~= ['.']@);
        } else {
            assert(line@.subrange(0, line@.len() as int) =~= line@);
        }
    }
    r
}

/// A line followed by CRLF.
pub fn framed(line: &[char]) -> (r: Vec<char>)
    ensures
        r@ == frame(line@),
{
    let end: [char; 2] = ['\r', '\n'];
    assert(end@ =~= crlf());
    concat(line, &end)
}

/// The wire form of a run of reply lines, as one string.
pub fn wire_text(lines: &Vec<String>) -> (r: String)
    ensures
        r@ == wire(lines@.map_values(|s: String| s@)),
{
    let mut out: Vec<char> = Vec::new();
    let mut i: usize = 0;
    let ghost all = lines@.map_values(|s: String| s@);
    while i < lines.len()
        invariant
            i <= lines@.len(),
            all == lines@.map_values(|s: String| s@),
            out@ == wire(all.subrange(0, i as int)),
        decreases lines@.len() - i,
    {
        let line = chars_of(lines[i].as_str());
        let f = framed(line.as_slice());
        append(&mut out, f.as_slice());
        assert(all.subrange(0, i + 1).drop_last() =~= all.subrange(0, i as int));
        i += 1;
    }
    assert(all.subrange(0, all.len() as int) =~= all);
    string_of(out.as_slice())
}

} // verus!
