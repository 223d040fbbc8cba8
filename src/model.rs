//! The mathematical model of a parse session: one transition per complete
//! line, and the draining of a byte buffer line by line.

use vstd::prelude::*;
use vstd::utf8::valid_utf8;

use crate::headers::{classify_spec, HeaderModel};
use crate::lines::{crlf, first_line_len, lemma_line_end_bounds};

verus! {

/// Where a parse session stands.
#[derive(Clone, Copy, Debug, PartialEq, Eq, Structural)]
pub enum ParseState {
    /// Waiting for the first separator line.
    LoadBoundary,
    /// Reading a part's header block.
    LoadHeaders,
    /// Reading a part's payload.
    Body,
    /// The terminal line was seen; further input is ignored.
    End,
}

/// Conditions that are reported for diagnostics and never stop a session.
#[derive(Clone, Copy, Debug, PartialEq, Eq, Structural)]
pub enum Fault {
    /// Creating, writing or flushing storage failed (reported by whoever
    /// performs the storage actions).
    IoFailure,
    /// A header line is not well-formed UTF-8; it was dropped.
    EncodingFailure,
    /// A line other than the separator came where the separator was due; it
    /// was dropped.
    ProtocolMismatch,
    /// Input arrived after the terminal line; it was dropped.
    StateViolation,
}

/// A part's identity and filename.
pub type PartModel = (Seq<char>, Seq<u8>);

/// The decoder's state.
pub struct Core {
    pub phase: ParseState,
    /// The field name of the current part, if one was given.
    pub name: Option<Seq<u8>>,
    /// The identity and filename of the current (provisional) part, if a
    /// filename was given.
    pub part: Option<PartModel>,
    /// Whether the current part's sink has been opened.
    pub sink_open: bool,
    /// Whether the previous payload line's terminator is still owed.
    pub defer_crlf: bool,
    /// The completed parts, in the order they were closed.
    pub completed: Seq<PartModel>,
}

/// A storage action.
pub enum ActionModel {
    /// Open `{root}/{id}/{filename}`.
    Open(Seq<char>, Seq<u8>),
    Write(Seq<u8>),
    Close,
}

pub struct StepModel {
    pub core: Core,
    pub actions: Seq<ActionModel>,
    pub faults: Seq<Fault>,
}

pub struct DrainModel {
    pub core: Core,
    pub pending: Seq<u8>,
    pub actions: Seq<ActionModel>,
    pub faults: Seq<Fault>,
    /// The fresh identities not used up.
    pub ids_left: Seq<Seq<char>>,
}

pub struct FeedModel {
    pub session: SessionModel,
    pub actions: Seq<ActionModel>,
    pub faults: Seq<Fault>,
    /// The fresh identities not used up.
    pub ids_left: Seq<Seq<char>>,
}

pub struct SessionModel {
    pub boundary: Seq<u8>,
    pub core: Core,
    /// Bytes received that do not yet form a complete line.
    pub pending: Seq<u8>,
}

/// `--{boundary}` CR LF.
pub open spec fn separator_line(b: Seq<u8>) -> Seq<u8> {
    seq![45u8, 45u8] + b + crlf()
}

/// `--{boundary}--` CR LF.
pub open spec fn terminal_line(b: Seq<u8>) -> Seq<u8> {
    seq![45u8, 45u8] + b + seq![45u8, 45u8] + crlf()
}

pub open spec fn initial_core() -> Core {
    Core {
        phase: ParseState::LoadBoundary,
        name: None,
        part: None,
        sink_open: false,
        defer_crlf: false,
        completed: seq![],
    }
}

pub open spec fn quiet(c: Core) -> StepModel {
    StepModel { core: c, actions: seq![], faults: seq![] }
}

pub open spec fn faulty(c: Core, f: Fault) -> StepModel {
    StepModel { core: c, actions: seq![], faults: seq![f] }
}

/// A separator or terminal line: the open sink is closed, a part with a
/// filename is completed, and the next phase begins.
pub open spec fn close_part(c: Core, next: ParseState) -> StepModel {
    StepModel {
        core: Core {
            phase: next,
            name: None,
            part: None,
            sink_open: false,
            defer_crlf: false,
            completed: match c.part {
                Some(f) => c.completed.push(f),
                None => c.completed,
            },
        },
        actions: if c.sink_open {
            seq![ActionModel::Close]
        } else {
            seq![]
        },
        faults: seq![],
    }
}

/// A classified header line updates the current part's name; a filename
/// starts a new provisional part with identity `fresh`, replacing any
/// provisional one.
pub open spec fn absorb_header(c: Core, h: HeaderModel, fresh: Seq<char>) -> Core {
    if h.form_data {
        Core {
            name: if h.name is Some {
                h.name
            } else {
                c.name
            },
            part: if h.filename is Some {
                Some((fresh, h.filename->0))
            } else {
                c.part
            },
            ..c
        }
    } else {
        c
    }
}

/// The bytes a payload line contributes: the owed terminator, if any, then
/// the line without its own terminator.
pub open spec fn payload_bytes(c: Core, line: Seq<u8>) -> Seq<u8> {
    let data = line.subrange(0, line.len() - 2);
    if c.defer_crlf {
        crlf() + data
    } else {
        data
    }
}

/// A payload line goes to the current part's sink, opened on first use;
/// without a filename it is discarded.
pub open spec fn payload_line(c: Core, line: Seq<u8>) -> StepModel {
    match c.part {
        Some(f) => StepModel {
            core: Core { sink_open: true, defer_crlf: true, ..c },
            actions: if c.sink_open {
                seq![ActionModel::Write(payload_bytes(c, line))]
            } else {
                seq![ActionModel::Open(f.0, f.1), ActionModel::Write(payload_bytes(c, line))]
            },
            faults: seq![],
        },
        None => quiet(Core { defer_crlf: true, ..c }),
    }
}

/// Whether `line` starts a new part, which takes a fresh identity: a
/// `form-data` header line with a filename.
pub open spec fn mints(c: Core, b: Seq<u8>, line: Seq<u8>) -> bool {
    &&& c.phase is LoadHeaders
    &&& line != crlf()
    &&& line != terminal_line(b)
    &&& valid_utf8(line)
    &&& classify_spec(line).form_data
    &&& classify_spec(line).filename is Some
}

/// The transition on one complete line (terminator included); `fresh` is
/// the identity a new part takes. The terminal line also ends the header
/// block, so a body with no parts, `--{boundary}` CR LF `--{boundary}--`
/// CR LF, is complete.
pub open spec fn step_line(c: Core, b: Seq<u8>, line: Seq<u8>, fresh: Seq<char>) -> StepModel {
    match c.phase {
        ParseState::LoadBoundary => if line == separator_line(b) {
            quiet(Core { phase: ParseState::LoadHeaders, ..c })
        } else {
            faulty(c, Fault::ProtocolMismatch)
        },
        ParseState::LoadHeaders => if line == crlf() {
            quiet(Core { phase: ParseState::Body, ..c })
        } else if line == terminal_line(b) {
            close_part(c, ParseState::End)
        } else if !valid_utf8(line) {
            faulty(c, Fault::EncodingFailure)
        } else {
            quiet(absorb_header(c, classify_spec(line), fresh))
        },
        ParseState::Body => if line == separator_line(b) {
            close_part(c, ParseState::LoadHeaders)
        } else if line == terminal_line(b) {
            close_part(c, ParseState::End)
        } else {
            payload_line(c, line)
        },
        ParseState::End => quiet(c),
    }
}

/// The identity a new part takes from the stream `ids`.
pub open spec fn next_id(ids: Seq<Seq<char>>) -> Seq<char> {
    if ids.len() > 0 {
        ids[0]
    } else {
        Seq::empty()
    }
}

/// The stream after `line`: a new part uses up one identity.
pub open spec fn ids_after(c: Core, b: Seq<u8>, line: Seq<u8>, ids: Seq<Seq<char>>) -> Seq<Seq<char>> {
    if mints(c, b, line) && ids.len() > 0 {
        ids.subrange(1, ids.len() as int)
    } else {
        ids
    }
}

/// Runs the transitions over every complete line of `buf`, new parts taking
/// their identities from `ids` in order; what is left without a terminator
/// stays pending. Once the terminal line is seen the rest is dropped, and a
/// `StateViolation` reports any bytes that followed it.
pub open spec fn drain(c: Core, b: Seq<u8>, buf: Seq<u8>, ids: Seq<Seq<char>>) -> DrainModel
    decreases buf.len(),
    via drain_decreases
{
    if c.phase is End {
        DrainModel {
            core: c,
            pending: seq![],
            actions: seq![],
            faults: if buf.len() > 0 {
                seq![Fault::StateViolation]
            } else {
                seq![]
            },
            ids_left: ids,
        }
    } else {
        match first_line_len(buf) {
            None => DrainModel { core: c, pending: buf, actions: seq![], faults: seq![], ids_left: ids },
            Some(e) => {
                let line = buf.subrange(0, e);
                let st = step_line(c, b, line, next_id(ids));
                let rest = drain(st.core, b, buf.subrange(e, buf.len() as int), ids_after(c, b, line, ids));
                DrainModel {
                    core: rest.core,
                    pending: rest.pending,
                    actions: st.actions + rest.actions,
                    faults: st.faults + rest.faults,
                    ids_left: rest.ids_left,
                }
            },
        }
    }
}

#[via_fn]
proof fn drain_decreases(c: Core, b: Seq<u8>, buf: Seq<u8>, ids: Seq<Seq<char>>) {
    lemma_line_end_bounds(buf, 0);
}

/// One chunk fed to a session, new parts taking their identities from
/// `ids`: the pending bytes and the chunk are drained together. A chunk
/// that comes after the terminal line is dropped.
pub open spec fn feed_model(s: SessionModel, chunk: Seq<u8>, ids: Seq<Seq<char>>) -> FeedModel {
    if s.core.phase is End {
        FeedModel { session: s, actions: seq![], faults: seq![Fault::StateViolation], ids_left: ids }
    } else {
        let d = drain(s.core, s.boundary, s.pending + chunk, ids);
        FeedModel {
            session: SessionModel { boundary: s.boundary, core: d.core, pending: d.pending },
            actions: d.actions,
            faults: d.faults,
            ids_left: d.ids_left,
        }
    }
}

/// Only a line that starts a new part depends on the fresh identity.
pub proof fn lemma_step_fresh_unused(c: Core, b: Seq<u8>, line: Seq<u8>, f1: Seq<char>, f2: Seq<char>)
    requires
        !mints(c, b, line),
    ensures
        step_line(c, b, line, f1) == step_line(c, b, line, f2),
{
}

} // verus!
