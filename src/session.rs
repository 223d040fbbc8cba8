//! A parse session: feeds chunks through the line transitions and hands
//! back the storage actions they call for.

use vstd::prelude::*;
use vstd::slice::slice_to_vec;
use vstd::utf8::valid_utf8;

use crate::headers::{classify_header, opt_bytes};
use crate::lines::{find_line_end, lemma_line_end_bounds, lemma_line_end_shift, range_equals};
use crate::model::{
    close_part, drain, feed_model, ids_after, initial_core, lemma_step_fresh_unused, mints,
    next_id, separator_line, step_line, terminal_line, ActionModel, Core, DrainModel, Fault,
    ParseState, PartModel, SessionModel,
};

verus! {

/// A part with a filename: its identity and the filename from its header.
#[derive(Debug)]
pub struct PartRef {
    pub id: String,
    pub filename: Vec<u8>,
}

/// What the caller does with storage for one part's payload. A part's
/// destination is `{root}/{id}/{filename}`.
#[derive(Debug)]
pub enum SinkAction {
    /// Create the part's directory and file.
    Open { id: String, filename: Vec<u8> },
    /// Append bytes to the open file.
    Write(Vec<u8>),
    /// Flush and release the open file.
    Close,
}

impl SinkAction {
    pub open spec fn model(&self) -> ActionModel {
        match self {
            SinkAction::Open { id, filename } => ActionModel::Open(id@, filename@),
            SinkAction::Write(bytes) => ActionModel::Write(bytes@),
            SinkAction::Close => ActionModel::Close,
        }
    }
}

pub open spec fn actions_model(v: Seq<SinkAction>) -> Seq<ActionModel> {
    v.map_values(|a: SinkAction| a.model())
}

pub open spec fn parts_model(v: Seq<PartRef>) -> Seq<PartModel> {
    v.map_values(|p: PartRef| (p.id@, p.filename@))
}

pub open spec fn part_model(p: Option<PartRef>) -> Option<PartModel> {
    match p {
        Some(r) => Some((r.id@, r.filename@)),
        None => None,
    }
}

/// The identity of the current part, or none.
pub open spec fn current_id(p: Option<PartRef>) -> Seq<char> {
    match p {
        Some(r) => r.id@,
        None => Seq::empty(),
    }
}

pub open spec fn is_lower_hex(c: char) -> bool {
    ('0' <= c && c <= '9') || ('a' <= c && c <= 'f')
}

/// A version 4 UUID in lowercase hyphenated form: 36 characters, `-` at
/// positions 8, 13, 18 and 23, lowercase hex digits elsewhere, and the
/// version digit `4` at position 14.
pub open spec fn is_hyphenated_id(s: Seq<char>) -> bool {
    &&& s.len() == 36
    &&& forall|i: int|
        0 <= i < 36 ==> if i == 8 || i == 13 || i == 18 || i == 23 {
            s[i] == '-'
        } else {
            is_lower_hex(#[trigger] s[i])
        }
    &&& s[14] == '4'
}

/// Every identity of the stream is a hyphenated UUID.
pub open spec fn ids_formed_seq(ids: Seq<Seq<char>>) -> bool {
    forall|i: int| 0 <= i < ids.len() ==> is_hyphenated_id(#[trigger] ids[i])
}

/// Prepends the actions and faults of earlier lines to a drain.
pub open spec fn glue(acts: Seq<ActionModel>, faults: Seq<Fault>, d: DrainModel) -> DrainModel {
    DrainModel {
        core: d.core,
        pending: d.pending,
        actions: acts + d.actions,
        faults: faults + d.faults,
        ids_left: d.ids_left,
    }
}

/// `after` extends `before`: the parts completed before are kept, in place.
pub open spec fn extends(before: Seq<PartRef>, after: Seq<PartRef>) -> bool {
    before.len() <= after.len() && after.subrange(0, before.len() as int) == before
}

/// Every part carries an identity that is a hyphenated UUID.
pub open spec fn ids_formed(parts: Seq<PartRef>) -> bool {
    forall|i: int| 0 <= i < parts.len() ==> is_hyphenated_id((#[trigger] parts[i]).id@)
}

/// Draining `buf` from `c0` with identities `minted` and then any `fut`
/// is: `acts` and `faults` so far, then draining `rest` from `cur` with `fut`.
#[verifier::opaque]
pub open spec fn drains_as(
    c0: Core,
    bd: Seq<u8>,
    buf: Seq<u8>,
    minted: Seq<Seq<char>>,
    acts: Seq<ActionModel>,
    faults: Seq<Fault>,
    cur: Core,
    rest: Seq<u8>,
) -> bool {
    forall|fut: Seq<Seq<char>>|
        #[trigger] drain(c0, bd, buf, minted + fut) == glue(acts, faults, drain(cur, bd, rest, fut))
}

/// The identities a line uses up: `fresh` when it starts a new part.
pub open spec fn used_ids(c: Core, bd: Seq<u8>, line: Seq<u8>, fresh: Seq<char>) -> Seq<Seq<char>> {
    if mints(c, bd, line) {
        seq![fresh]
    } else {
        Seq::empty()
    }
}

proof fn lemma_drains_start(c0: Core, bd: Seq<u8>, buf: Seq<u8>)
    ensures
        drains_as(c0, bd, buf, Seq::empty(), Seq::empty(), Seq::empty(), c0, buf),
{
    reveal(drains_as);
    assert forall|fut: Seq<Seq<char>>|
        #[trigger] drain(c0, bd, buf, Seq::<Seq<char>>::empty() + fut) == glue(
            Seq::empty(),
            Seq::empty(),
            drain(c0, bd, buf, fut),
        ) by {
        let d = drain(c0, bd, buf, fut);
        assert(Seq::<Seq<char>>::empty() + fut =~= fut);
        assert(Seq::<ActionModel>::empty() + d.actions =~= d.actions);
        assert(Seq::<Fault>::empty() + d.faults =~= d.faults);
    }
}

proof fn lemma_drains_now(
    c0: Core,
    bd: Seq<u8>,
    buf: Seq<u8>,
    minted: Seq<Seq<char>>,
    acts: Seq<ActionModel>,
    faults: Seq<Fault>,
    cur: Core,
    rest: Seq<u8>,
)
    requires
        drains_as(c0, bd, buf, minted, acts, faults, cur, rest),
    ensures
        drain(c0, bd, buf, minted) == glue(acts, faults, drain(cur, bd, rest, Seq::empty())),
{
    reveal(drains_as);
    let none = Seq::<Seq<char>>::empty();
    assert(minted + none =~= minted);
    assert(drain(c0, bd, buf, minted + none) == glue(acts, faults, drain(cur, bd, rest, none)));
}

proof fn lemma_drains_step(
    c0: Core,
    bd: Seq<u8>,
    buf: Seq<u8>,
    m0: Seq<Seq<char>>,
    acts0: Seq<ActionModel>,
    faults0: Seq<Fault>,
    cur: Core,
    sub: Seq<u8>,
    e: int,
    fresh: Seq<char>,
)
    requires
        drains_as(c0, bd, buf, m0, acts0, faults0, cur, sub),
        !(cur.phase is End),
        crate::lines::first_line_len(sub) == Some(e),
    ensures
        ({
            let line = sub.subrange(0, e);
            let st = step_line(cur, bd, line, fresh);
            drains_as(
                c0,
                bd,
                buf,
                m0 + used_ids(cur, bd, line, fresh),
                acts0 + st.actions,
                faults0 + st.faults,
                st.core,
                sub.subrange(e, sub.len() as int),
            )
        }),
{
    reveal(drains_as);
    let line = sub.subrange(0, e);
    let st = step_line(cur, bd, line, fresh);
    let used = used_ids(cur, bd, line, fresh);
    let tail = sub.subrange(e, sub.len() as int);
    assert forall|fut: Seq<Seq<char>>|
        #[trigger] drain(c0, bd, buf, (m0 + used) + fut) == glue(
            acts0 + st.actions,
            faults0 + st.faults,
            drain(st.core, bd, tail, fut),
        ) by {
        let fut0 = used + fut;
        assert(m0 + fut0 =~= (m0 + used) + fut);
        assert(drain(c0, bd, buf, m0 + fut0) == glue(acts0, faults0, drain(cur, bd, sub, fut0)));
        if mints(cur, bd, line) {
            assert(next_id(fut0) == fresh);
            assert(ids_after(cur, bd, line, fut0) =~= fut);
        } else {
            assert(fut0 =~= fut);
            lemma_step_fresh_unused(cur, bd, line, next_id(fut0), fresh);
        }
        let rest = drain(st.core, bd, tail, fut);
        assert(acts0 + (st.actions + rest.actions) =~= (acts0 + st.actions) + rest.actions);
        assert(faults0 + (st.faults + rest.faults) =~= (faults0 + st.faults) + rest.faults);
    }
}

/// What feeding one chunk produced.
pub struct FeedResult {
    pub actions: Vec<SinkAction>,
    pub faults: Vec<Fault>,
}

/// Relies on `std::str::from_utf8`: it accepts exactly the well-formed
/// UTF-8 byte sequences.
#[verifier::external_body]
fn is_valid_utf8(b: &[u8]) -> (r: bool)
    ensures
        r == valid_utf8(b@),
{
    std::str::from_utf8(b).is_ok()
}

/// Relies on uuid's `Uuid::new_v4` for a fresh random identity (version
/// digit 4), written through its `Display` impl, which gives the lowercase
/// hyphenated form of 36 ASCII characters.
#[verifier::external_body]
fn fresh_part_id() -> (r: String)
    ensures
        is_hyphenated_id(r@),
{
    uuid::Uuid::new_v4().to_string()
}

/// The decoder for one request body.
pub struct ParseSession {
    boundary: Vec<u8>,
    separator: Vec<u8>,
    terminal: Vec<u8>,
    state: ParseState,
    pending: Vec<u8>,
    name: Option<Vec<u8>>,
    part: Option<PartRef>,
    sink_open: bool,
    defer_crlf: bool,
    completed: Vec<PartRef>,
}

fn push_all(v: &mut Vec<u8>, b: &[u8], start: usize, end: usize)
    requires
        start <= end <= b@.len(),
    ensures
        final(v)@ == old(v)@ + b@.subrange(start as int, end as int),
{
    let mut i: usize = start;
    while i < end
        invariant
            start <= i <= end <= b@.len(),
            v@ == old(v)@ + b@.subrange(start as int, i as int),
        decreases end - i,
    {
        v.push(b[i]);
        i = i + 1;
        assert(v@ =~= old(v)@ + b@.subrange(start as int, i as int));
    }
}

impl ParseSession {
    pub closed spec fn state_model(&self) -> Core {
        Core {
            phase: self.state,
            name: opt_bytes(self.name),
            part: part_model(self.part),
            sink_open: self.sink_open,
            defer_crlf: self.defer_crlf,
            completed: parts_model(self.completed@),
        }
    }

    pub closed spec fn model(&self) -> SessionModel {
        SessionModel { boundary: self.boundary@, core: self.state_model(), pending: self.pending@ }
    }

    pub closed spec fn wf(&self) -> bool {
        &&& self.separator@ == separator_line(self.boundary@)
        &&& self.terminal@ == terminal_line(self.boundary@)
        &&& ids_formed(self.completed@)
        &&& (self.part matches Some(p) ==> is_hyphenated_id(p.id@))
    }

    /// The identities and filenames of the completed parts.
    pub closed spec fn completed_parts(&self) -> Seq<PartRef> {
        self.completed@
    }

    /// A session for the given boundary token, waiting for the first
    /// separator line.
    pub fn new(boundary: &[u8]) -> (r: Self)
        ensures
            r.wf(),
            r.model() == (SessionModel {
                boundary: boundary@,
                core: initial_core(),
                pending: seq![],
            }),
    {
        let n = boundary.len();
        let mut separator: Vec<u8> = Vec::new();
        separator.push(45u8);
        separator.push(45u8);
        push_all(&mut separator, boundary, 0, n);
        let mut terminal: Vec<u8> = Vec::new();
        terminal.push(45u8);
        terminal.push(45u8);
        push_all(&mut terminal, boundary, 0, n);
        terminal.push(45u8);
        terminal.push(45u8);
        terminal.push(13u8);
        terminal.push(10u8);
        separator.push(13u8);
        separator.push(10u8);
        assert(separator@ =~= separator_line(boundary@));
        assert(terminal@ =~= terminal_line(boundary@));
        let r = ParseSession {
            boundary: slice_to_vec(boundary),
            separator,
            terminal,
            state: ParseState::LoadBoundary,
            pending: Vec::new(),
            name: None,
            part: None,
            sink_open: false,
            defer_crlf: false,
            completed: Vec::new(),
        };
        assert(r.state_model().completed =~= seq![]);
        r
    }

    /// Where the session stands.
    pub fn state(&self) -> (r: ParseState)
        ensures
            r == self.model().core.phase,
    {
        self.state
    }

    /// The completed parts, in the order they were closed.
    pub fn completed(&self) -> (r: &Vec<PartRef>)
        requires
            self.wf(),
        ensures
            ids_formed(r@),
            r@ == self.completed_parts(),
            parts_model(r@) == self.model().core.completed,
    {
        &self.completed
    }

    /// Ends the session and hands over the completed parts, in the order
    /// they were closed, whether or not the terminal line was seen.
    pub fn finish(self) -> (r: Vec<PartRef>)
        requires
            self.wf(),
        ensures
            ids_formed(r@),
            r@ == self.completed_parts(),
            parts_model(r@) == self.model().core.completed,
    {
        self.completed
    }

    /// Hands over the pending bytes and leaves none behind.
    fn take_pending(&mut self) -> (r: Vec<u8>)
        ensures
            r@ == old(self).pending@,
            final(self).pending@.len() == 0,
            final(self).completed == old(self).completed,
            final(self).part == old(self).part,
            final(self).boundary == old(self).boundary,
            final(self).separator == old(self).separator,
            final(self).terminal == old(self).terminal,
            final(self).state_model() == old(self).state_model(),
    {
        let mut taken: Vec<u8> = Vec::new();
        std::mem::swap(&mut taken, &mut self.pending);
        taken
    }

    fn close_current(&mut self, next: ParseState, actions: &mut Vec<SinkAction>)
        requires
            old(self).wf(),
        ensures
            final(self).wf(),
            extends(old(self).completed@, final(self).completed@),
            final(self).boundary == old(self).boundary,
            final(self).separator == old(self).separator,
            final(self).terminal == old(self).terminal,
            final(self).pending == old(self).pending,
            final(self).state_model() == close_part(old(self).state_model(), next).core,
            actions_model(final(actions)@) == actions_model(old(actions)@) + close_part(
                old(self).state_model(),
                next,
            ).actions,
    {
        if self.sink_open {
            actions.push(SinkAction::Close);
        }
        match self.part.take() {
            Some(p) => {
                self.completed.push(p);
            },
            None => {},
        }
        self.name = None;
        self.sink_open = false;
        self.defer_crlf = false;
        self.state = next;
        assert(self.completed@.subrange(0, old(self).completed@.len() as int) =~= old(self).completed@);
        assert(self.state_model().completed =~= close_part(old(self).state_model(), next).core.completed);
        assert(actions_model(actions@) =~= actions_model(old(actions)@) + close_part(
            old(self).state_model(),
            next,
        ).actions);
    }

    fn write_payload(&mut self, buf: &[u8], start: usize, end: usize, actions: &mut Vec<SinkAction>)
        requires
            start + 2 <= end <= buf@.len(),
        ensures
            final(self).completed == old(self).completed,
            final(self).part == old(self).part,
            final(self).boundary == old(self).boundary,
            final(self).separator == old(self).separator,
            final(self).terminal == old(self).terminal,
            final(self).pending == old(self).pending,
            final(self).state_model() == crate::model::payload_line(
                old(self).state_model(),
                buf@.subrange(start as int, end as int),
            ).core,
            actions_model(final(actions)@) == actions_model(old(actions)@)
                + crate::model::payload_line(
                old(self).state_model(),
                buf@.subrange(start as int, end as int),
            ).actions,
    {
        let ghost line = buf@.subrange(start as int, end as int);
        let mut bytes: Vec<u8> = Vec::new();
        if self.defer_crlf {
            bytes.push(13u8);
            bytes.push(10u8);
        }
        push_all(&mut bytes, buf, start, end - 2);
        assert(bytes@ =~= crate::model::payload_bytes(old(self).state_model(), line));
        match &self.part {
            Some(p) => {
                if !self.sink_open {
                    actions.push(
                        SinkAction::Open { id: p.id.clone(), filename: slice_to_vec(p.filename.as_slice()) },
                    );
                }
                actions.push(SinkAction::Write(bytes));
                self.sink_open = true;
            },
            None => {},
        }
        self.defer_crlf = true;
        assert(actions_model(actions@) =~= actions_model(old(actions)@)
            + crate::model::payload_line(old(self).state_model(), line).actions);
    }

    fn process_line(
        &mut self,
        buf: &[u8],
        start: usize,
        end: usize,
        actions: &mut Vec<SinkAction>,
        faults: &mut Vec<Fault>,
    )
        requires
            old(self).wf(),
            start + 2 <= end <= buf@.len(),
        ensures
            final(self).wf(),
            extends(old(self).completed@, final(self).completed@),
            final(self).boundary == old(self).boundary,
            final(self).pending == old(self).pending,
            ({
                let st = step_line(
                    old(self).state_model(),
                    old(self).boundary@,
                    buf@.subrange(start as int, end as int),
                    current_id(final(self).part),
                );
                &&& final(self).state_model() == st.core
                &&& actions_model(final(actions)@) == actions_model(old(actions)@) + st.actions
                &&& final(faults)@ == old(faults)@ + st.faults
            }),
    {
        let ghost line = buf@.subrange(start as int, end as int);
        match self.state {
            ParseState::LoadBoundary => {
                if range_equals(buf, start, end, self.separator.as_slice()) {
                    self.state = ParseState::LoadHeaders;
                } else {
                    faults.push(Fault::ProtocolMismatch);
                }
            },
            ParseState::LoadHeaders => {
                if end - start == 2 && buf[start] == 13u8 && buf[start + 1] == 10u8 {
                    assert(line =~= crate::lines::crlf());
                    self.state = ParseState::Body;
                } else if range_equals(buf, start, end, self.terminal.as_slice()) {
                    self.close_current(ParseState::End, actions);
                } else if !is_valid_utf8(&buf[start..end]) {
                    faults.push(Fault::EncodingFailure);
                } else {
                    let h = classify_header(&buf[start..end]);
                    if h.form_data {
                        match h.name {
                            Some(n) => {
                                self.name = Some(n);
                            },
                            None => {},
                        }
                        match h.filename {
                            Some(f) => {
                                let id = fresh_part_id();
                                self.part = Some(PartRef { id, filename: f });
                            },
                            None => {},
                        }
                    }
                }
            },
            ParseState::Body => {
                if range_equals(buf, start, end, self.separator.as_slice()) {
                    self.close_current(ParseState::LoadHeaders, actions);
                } else if range_equals(buf, start, end, self.terminal.as_slice()) {
                    self.close_current(ParseState::End, actions);
                } else {
                    self.write_payload(buf, start, end, actions);
                }
            },
            ParseState::End => {},
        }
        let ghost st = step_line(
            old(self).state_model(),
            old(self).boundary@,
            line,
            current_id(self.part),
        );
        assert(actions_model(actions@) =~= actions_model(old(actions)@) + st.actions);
        assert(faults@ =~= old(faults)@ + st.faults);
        assert(self.completed@.subrange(0, old(self).completed@.len() as int) =~= old(self).completed@)
            by {
            if self.completed@.len() == old(self).completed@.len() {
                assert(self.completed@.subrange(0, self.completed@.len() as int) =~= self.completed@);
            }
        }
    }

    /// Feeds the next chunk of the body. Every complete line that the
    /// pending bytes and the chunk hold is processed in order, each new part
    /// taking a freshly minted identity; the storage actions they call for
    /// and the faults they met are returned.
    pub fn feed(&mut self, chunk: &[u8]) -> (r: FeedResult)
        requires
            old(self).wf(),
        ensures
            final(self).wf(),
            extends(old(self).completed_parts(), final(self).completed_parts()),
            exists|ids: Seq<Seq<char>>|
                ids_formed_seq(ids) && ({
                    let m = feed_model(old(self).model(), chunk@, ids);
                    &&& m.session == final(self).model()
                    &&& m.actions == actions_model(r.actions@)
                    &&& m.faults == r.faults@
                    &&& m.ids_left.len() == 0
                }),
    {
        let mut actions: Vec<SinkAction> = Vec::new();
        let mut faults: Vec<Fault> = Vec::new();
        if self.state == ParseState::End {
            faults.push(Fault::StateViolation);
            assert(faults@ =~= seq![Fault::StateViolation]);
            assert(actions_model(actions@) =~= seq![]);
            assert(self.completed@.subrange(0, self.completed@.len() as int) =~= self.completed@);
            let ghost none = Seq::<Seq<char>>::empty();
            assert(ids_formed_seq(none));
            assert(feed_model(old(self).model(), chunk@, none).session == self.model());
            return FeedResult { actions, faults };
        }
        let mut buf = self.take_pending();
        let n = chunk.len();
        push_all(&mut buf, chunk, 0, n);
        assert(chunk@.subrange(0, n as int) =~= chunk@);
        let ghost c0 = old(self).state_model();
        let ghost bd = self.boundary@;
        let ghost mut minted = Seq::<Seq<char>>::empty();
        assert(buf@.subrange(0, buf@.len() as int) =~= buf@);
        assert(actions_model(actions@) =~= seq![]);
        proof {
            lemma_drains_start(c0, bd, buf@);
        }
        let mut pos: usize = 0;
        assert(self.completed@.subrange(0, self.completed@.len() as int) =~= self.completed@);
        loop
            invariant_except_break
                drains_as(
                    c0,
                    bd,
                    buf@,
                    minted,
                    actions_model(actions@),
                    faults@,
                    self.state_model(),
                    buf@.subrange(pos as int, buf@.len() as int),
                ),
            invariant
                self.wf(),
                extends(old(self).completed@, self.completed@),
                self.boundary@ == bd,
                pos <= buf@.len(),
                ids_formed_seq(minted),
            ensures
                self.wf(),
                extends(old(self).completed@, self.completed@),
                self.boundary@ == bd,
                ids_formed_seq(minted),
                drain(c0, bd, buf@, minted) == (DrainModel {
                    core: self.state_model(),
                    pending: self.pending@,
                    actions: actions_model(actions@),
                    faults: faults@,
                    ids_left: Seq::empty(),
                }),
            decreases buf@.len() - pos,
        {
            let ghost sub = buf@.subrange(pos as int, buf@.len() as int);
            proof {
                lemma_drains_now(
                    c0,
                    bd,
                    buf@,
                    minted,
                    actions_model(actions@),
                    faults@,
                    self.state_model(),
                    sub,
                );
            }
            if self.state == ParseState::End {
                let ghost f0 = faults@;
                let ghost d = drain(self.state_model(), bd, sub, Seq::empty());
                self.pending = Vec::new();
                if pos < buf.len() {
                    faults.push(Fault::StateViolation);
                }
                assert(actions_model(actions@) + d.actions =~= actions_model(actions@));
                assert(f0 + d.faults =~= faults@);
                assert(self.pending@ =~= d.pending);
                break;
            }
            proof {
                lemma_line_end_shift(buf@, pos as int, 0);
                lemma_line_end_bounds(buf@, pos as int);
            }
            match find_line_end(buf.as_slice(), pos) {
                None => {
                    self.pending = slice_to_vec(&buf.as_slice()[pos..buf.len()]);
                    assert(actions_model(actions@) + Seq::<ActionModel>::empty() =~= actions_model(
                        actions@,
                    ));
                    assert(faults@ + Seq::<Fault>::empty() =~= faults@);
                    break;
                },
                Some(e) => {
                    let ghost cur = self.state_model();
                    let ghost acts0 = actions_model(actions@);
                    let ghost faults0 = faults@;
                    let ghost done0 = self.completed@;
                    let ghost m0 = minted;
                    let ghost line = buf@.subrange(pos as int, e as int);
                    assert(sub.subrange(0, e - pos) =~= line);
                    assert(sub.subrange(e - pos, sub.len() as int) =~= buf@.subrange(
                        e as int,
                        buf@.len() as int,
                    ));
                    self.process_line(buf.as_slice(), pos, e, &mut actions, &mut faults);
                    proof {
                        let fresh = current_id(self.part);
                        lemma_drains_step(c0, bd, buf@, m0, acts0, faults0, cur, sub, e - pos, fresh);
                        let used = used_ids(cur, bd, line, fresh);
                        if mints(cur, bd, line) {
                            assert(self.part is Some);
                        }
                        assert(ids_formed_seq(m0 + used)) by {
                            assert forall|i: int| 0 <= i < (m0 + used).len() implies is_hyphenated_id(
                                #[trigger] (m0 + used)[i],
                            ) by {
                                if i >= m0.len() {
                                    assert((m0 + used)[i] == used[i - m0.len()]);
                                }
                            }
                        }
                        minted = m0 + used;
                    }
                    assert(self.completed@.subrange(0, old(self).completed@.len() as int) =~= old(
                        self,
                    ).completed@) by {
                        assert(self.completed@.subrange(0, done0.len() as int) == done0);
                        assert(done0.subrange(0, old(self).completed@.len() as int) == old(
                            self,
                        ).completed@);
                    }
                    pos = e;
                },
            }
        }
        assert(feed_model(old(self).model(), chunk@, minted).session == self.model());
        FeedResult { actions, faults }
    }
}

} // verus!
