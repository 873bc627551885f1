//! Framing telegrams out of the lines that the serial port gives.
//!
//! A telegram starts with a line whose first character is `/` and ends with
//! a line whose first character is `!`. The framer keeps the start line and
//! the lines that follow it. At the end line it checks the checksum of all
//! that, the `!` included, and hands out what stands between the `/` and the
//! `!`: the rest of the start line and the lines that follow it.

use vstd::prelude::*;
use vstd::string::{StrSliceExecFns, StringExecFns};
use vstd::utf8::encode_utf8;
use crate::checksum::{
    checksum_matches, crc16_arc, flip_bit, lemma_bit_flip_rejected, parse_checksum,
    stated_checksum,
};

verus! {

/// What the framer waits for.
#[derive(Debug, Clone, Copy, PartialEq, Eq, Structural)]
pub enum ParserState {
    /// The start line of the next telegram.
    LookForStart,
    /// The end line of the telegram that has started.
    LookForEnd,
}

/// What one read of a line from the serial port gave.
#[derive(Debug, PartialEq, Eq)]
pub enum SerialRead {
    /// The line as read, with its line ending. An empty line means that the
    /// port gave no byte: the stream is closed.
    Line(String),
    /// The read failed for now.
    Failed,
}

/// A [`SerialRead`] with its text as a character sequence.
pub enum SerialReadModel {
    /// The line as read.
    Line(Seq<char>),
    /// The read failed for now.
    Failed,
}

impl View for SerialRead {
    type V = SerialReadModel;

    open spec fn view(&self) -> SerialReadModel {
        match self {
            SerialRead::Line(t) => SerialReadModel::Line(t@),
            SerialRead::Failed => SerialReadModel::Failed,
        }
    }
}

/// Why a telegram was dropped at its end line.
#[derive(Debug, Clone, Copy, PartialEq, Eq, Structural)]
pub enum Refusal {
    /// The end line does not state a checksum: four hex digits do not
    /// follow its `!`.
    NoChecksum,
    /// The checksum that the end line states is not that of the telegram.
    ChecksumMismatch,
}

/// What the framer asks for after a read.
#[derive(Debug, PartialEq, Eq)]
pub enum FrameStep {
    /// Nothing: read on.
    Idle,
    /// A telegram ended and was dropped, for the reason given: read on.
    Refused(Refusal),
    /// A telegram passed the checksum: here is what stands between its `/`
    /// and its `!`.
    Telegram(String),
    /// The stream is closed: give up the session.
    Closed,
}

/// A [`FrameStep`] with its text as a character sequence.
pub enum FrameStepModel {
    /// Nothing: read on.
    Idle,
    /// A telegram ended and was dropped, for the reason given.
    Refused(Refusal),
    /// The body of a telegram that passed the checksum.
    Telegram(Seq<char>),
    /// The stream is closed.
    Closed,
}

impl View for FrameStep {
    type V = FrameStepModel;

    open spec fn view(&self) -> FrameStepModel {
        match self {
            FrameStep::Idle => FrameStepModel::Idle,
            FrameStep::Refused(r) => FrameStepModel::Refused(*r),
            FrameStep::Telegram(t) => FrameStepModel::Telegram(t@),
            FrameStep::Closed => FrameStepModel::Closed,
        }
    }
}

/// The framer: what it waits for and what it has kept of the telegram that
/// has started.
#[derive(Debug, PartialEq, Eq)]
pub struct Framer {
    /// What the framer waits for.
    pub state: ParserState,
    /// The start line of the telegram.
    pub head: String,
    /// The lines after the start line.
    pub body: String,
}

/// A [`Framer`] with its texts as character sequences.
pub struct FramerModel {
    /// What the framer waits for.
    pub state: ParserState,
    /// The start line of the telegram.
    pub head: Seq<char>,
    /// The lines after the start line.
    pub body: Seq<char>,
}

impl View for Framer {
    type V = FramerModel;

    open spec fn view(&self) -> FramerModel {
        FramerModel { state: self.state, head: self.head@, body: self.body@ }
    }
}

/// The framer that waits for a start line and keeps nothing.
pub open spec fn idle() -> FramerModel {
    FramerModel { state: ParserState::LookForStart, head: Seq::empty(), body: Seq::empty() }
}

/// The text that the checksum covers: from the `/` of the start line
/// through the `!` of the end line.
pub open spec fn frame_text(f: FramerModel) -> Seq<char> {
    f.head + f.body + seq!['!']
}

/// The body of the telegram that `f` has kept: what stands behind the `/`
/// of the start line, up to the end line.
pub open spec fn telegram_body(f: FramerModel) -> Seq<char> {
    if f.head.len() > 0 {
        f.head.subrange(1, f.head.len() as int) + f.body
    } else {
        f.body
    }
}

/// Why a telegram is dropped at the end line `end_line` if its checksum
/// does not hold there.
pub open spec fn refusal_at(end_line: Seq<char>) -> Refusal {
    if stated_checksum(end_line) is None {
        Refusal::NoChecksum
    } else {
        Refusal::ChecksumMismatch
    }
}

/// Whether the checksum of the telegram that `f` has kept holds at the end
/// line `end_line`: the line states a checksum, and the CRC-16/ARC of the
/// bytes of the frame is that checksum.
pub open spec fn frame_accepted(f: FramerModel, end_line: Seq<char>) -> bool {
    stated_checksum(end_line) matches Some(c) && crc16_arc(encode_utf8(frame_text(f))) == c
}

/// A telegram that is accepted at an end line is not accepted at that line
/// once a single bit of its bytes, from the `/` through the `!`, is turned
/// over.
pub proof fn lemma_flipped_frame_rejected(
    f: FramerModel,
    flipped: FramerModel,
    end_line: Seq<char>,
    i: int,
    bit: u8,
)
    requires
        frame_accepted(f, end_line),
        0 <= i < encode_utf8(frame_text(f)).len(),
        bit < 8,
        encode_utf8(frame_text(flipped)) == encode_utf8(frame_text(f)).update(
            i,
            flip_bit(encode_utf8(frame_text(f))[i], bit),
        ),
    ensures
        !frame_accepted(flipped, end_line),
{
    lemma_bit_flip_rejected(
        encode_utf8(frame_text(f)),
        i,
        bit,
        stated_checksum(end_line)->0,
    );
}

/// The framer after the line `line`, which is not empty, and what it asks
/// for. While it waits for a start, a line that starts with `/` becomes the
/// start line and any other line is dropped. While it waits for the end, a
/// line that starts with `!` ends the telegram: if its checksum holds, what
/// stands between its `/` and its `!` is handed out, and if not it is
/// dropped and the reason given; any other line is kept.
pub open spec fn framer_after_line(f: FramerModel, line: Seq<char>) -> (
    FramerModel,
    FrameStepModel,
) {
    match f.state {
        ParserState::LookForStart => if line[0] == '/' {
            (
                FramerModel { state: ParserState::LookForEnd, head: line, body: Seq::empty() },
                FrameStepModel::Idle,
            )
        } else {
            (idle(), FrameStepModel::Idle)
        },
        ParserState::LookForEnd => if line[0] == '!' {
            if frame_accepted(f, line) {
                (idle(), FrameStepModel::Telegram(telegram_body(f)))
            } else {
                (idle(), FrameStepModel::Refused(refusal_at(line)))
            }
        } else {
            (FramerModel { body: f.body + line, ..f }, FrameStepModel::Idle)
        },
    }
}

/// The framer after the read `read`, and what it asks for. A failed read
/// drops what was kept. A read without bytes closes the session.
pub open spec fn framer_next(f: FramerModel, read: SerialReadModel) -> (
    FramerModel,
    FrameStepModel,
) {
    match read {
        SerialReadModel::Failed => (idle(), FrameStepModel::Idle),
        SerialReadModel::Line(line) => if line.len() == 0 {
            (idle(), FrameStepModel::Closed)
        } else {
            framer_after_line(f, line)
        },
    }
}

impl Framer {
    /// A framer that waits for a start line.
    pub fn new() -> (r: Framer)
        ensures
            r@ == idle(),
    {
        Framer { state: ParserState::LookForStart, head: String::new(), body: String::new() }
    }

    /// Drops what was kept and waits for a start line.
    fn reset(&mut self)
        ensures
            final(self)@ == idle(),
    {
        self.state = ParserState::LookForStart;
        self.head = String::new();
        self.body = String::new();
    }

    /// Why the telegram kept would be dropped at the end line `line`: `None`
    /// where its checksum holds there.
    pub fn refusal(&self, line: &str) -> (r: Option<Refusal>)
        ensures
            r == if frame_accepted(self@, line@) {
                None
            } else {
                Some(refusal_at(line@))
            },
    {
        match parse_checksum(line) {
            None => Some(Refusal::NoChecksum),
            Some(expected) => {
                let mut frame = self.head.clone();
                frame.append(self.body.as_str());
                frame.append("!");
                proof {
                    reveal_strlit("!");
                    assert("!"@ =~= seq!['!']);
                }
                if checksum_matches(frame.as_str().as_bytes(), expected) {
                    None
                } else {
                    Some(Refusal::ChecksumMismatch)
                }
            },
        }
    }

    /// What stands between the `/` of the start line and the end line.
    fn body_text(&self) -> (r: String)
        ensures
            r@ == telegram_body(self@),
    {
        let n = self.head.as_str().unicode_len();
        if n > 0 {
            let mut text = self.head.as_str().substring_char(1, n).to_owned();
            text.append(self.body.as_str());
            text
        } else {
            self.body.clone()
        }
    }

    /// Takes what one read gave and says what to do next.
    pub fn push(&mut self, read: SerialRead) -> (step: FrameStep)
        ensures
            final(self)@ == framer_next(old(self)@, read@).0,
            step@ == framer_next(old(self)@, read@).1,
    {
        let line = match read {
            SerialRead::Failed => {
                self.reset();
                return FrameStep::Idle;
            },
            SerialRead::Line(line) => line,
        };
        if line.as_str().unicode_len() == 0 {
            self.reset();
            return FrameStep::Closed;
        }
        let first = line.as_str().get_char(0);
        match self.state {
            ParserState::LookForStart => {
                if first == '/' {
                    self.state = ParserState::LookForEnd;
                    self.head = line;
                    self.body = String::new();
                } else {
                    self.reset();
                }
                FrameStep::Idle
            },
            ParserState::LookForEnd => {
                if first == '!' {
                    let step = match self.refusal(line.as_str()) {
                        None => FrameStep::Telegram(self.body_text()),
                        Some(reason) => FrameStep::Refused(reason),
                    };
                    self.reset();
                    step
                } else {
                    self.body.append(line.as_str());
                    FrameStep::Idle
                }
            },
        }
    }
}

} // verus!
