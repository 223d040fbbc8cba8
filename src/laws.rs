//! Properties of the decoder, stated over its model and proved.

use vstd::prelude::*;

use crate::lines::{
    crlf, crlf_at, first_line_len, lemma_line_end_bounds, lemma_line_end_extend, line_end_from,
};
use crate::model::{
    drain, feed_model, ids_after, mints, next_id, separator_line, step_line, terminal_line,
    ActionModel, Core, ParseState, PartModel, SessionModel,
};

verus! {

/// The session after each chunk of `chunks` in turn, new parts taking
/// their identities from `ids` in order; every storage action on the way;
/// and the identities not used up.
pub open spec fn feed_all(s: SessionModel, chunks: Seq<Seq<u8>>, ids: Seq<Seq<char>>) -> (
    SessionModel,
    Seq<ActionModel>,
    Seq<Seq<char>>,
)
    decreases chunks.len(),
{
    if chunks.len() == 0 {
        (s, seq![], ids)
    } else {
        let first = feed_model(s, chunks[0], ids);
        let rest = feed_all(first.session, chunks.subrange(1, chunks.len() as int), first.ids_left);
        (rest.0, first.actions + rest.1, rest.2)
    }
}

/// The action that opens the file of part `p`.
pub open spec fn open_of(p: PartModel) -> ActionModel {
    ActionModel::Open(p.0, p.1)
}

/// Every `Open` among `acts` opens the file of part `p`.
pub open spec fn opens_only(acts: Seq<ActionModel>, p: PartModel) -> bool {
    forall|i: int|
        0 <= i < acts.len() ==> ((#[trigger] acts[i]) is Open ==> acts[i] == ActionModel::Open(
            p.0,
            p.1,
        ))
}

/// The bytes that the `Write` actions of `acts` carry, in order.
pub open spec fn written(acts: Seq<ActionModel>) -> Seq<u8>
    decreases acts.len(),
{
    if acts.len() == 0 {
        seq![]
    } else {
        let head = match acts[0] {
            ActionModel::Write(w) => w,
            _ => seq![],
        };
        head + written(acts.subrange(1, acts.len() as int))
    }
}

/// No line of `body` is a separator or terminal line for boundary `bd`.
pub open spec fn payload_clear(bd: Seq<u8>, body: Seq<u8>) -> bool
    decreases body.len(),
{
    match first_line_len(body) {
        None => true,
        Some(e) => if 2 <= e <= body.len() {
            body.subrange(0, e) != separator_line(bd) && body.subrange(0, e) != terminal_line(bd)
                && payload_clear(bd, body.subrange(e, body.len() as int))
        } else {
            false
        },
    }
}

/// A boundary token holds neither CR nor LF.
pub open spec fn boundary_without_breaks(bd: Seq<u8>) -> bool {
    forall|i: int| 0 <= i < bd.len() ==> bd[i] != 13u8 && bd[i] != 10u8
}

/// The bytes of a payload region without the terminator that precedes the
/// next boundary line.
pub open spec fn strip_last_crlf(r: Seq<u8>) -> Seq<u8> {
    if r.len() == 0 {
        r
    } else {
        r.subrange(0, r.len() - 2)
    }
}

proof fn lemma_written_append(a: Seq<ActionModel>, b: Seq<ActionModel>)
    ensures
        written(a + b) == written(a) + written(b),
    decreases a.len(),
{
    if a.len() == 0 {
        assert(a + b =~= b);
        assert(written(a) + written(b) =~= written(b));
    } else {
        assert((a + b).subrange(1, (a + b).len() as int) =~= a.subrange(1, a.len() as int) + b);
        lemma_written_append(a.subrange(1, a.len() as int), b);
        let head = match a[0] {
            ActionModel::Write(w) => w,
            _ => seq![],
        };
        assert(head + (written(a.subrange(1, a.len() as int)) + written(b)) =~= (head + written(
            a.subrange(1, a.len() as int),
        )) + written(b));
    }
}

proof fn lemma_written_one(a: ActionModel)
    ensures
        written(seq![a]) == (match a {
            ActionModel::Write(w) => w,
            _ => seq![],
        }),
{
    assert(seq![a].subrange(1, 1) =~= Seq::<ActionModel>::empty());
    assert(written(Seq::<ActionModel>::empty()) == Seq::<u8>::empty());
    let head = match a {
        ActionModel::Write(w) => w,
        _ => seq![],
    };
    assert(head + seq![] =~= head);
}

/// Draining `b + x` is draining `b`, then draining what `b` left pending
/// followed by `x` with the identities left; once the terminal line is seen,
/// `x` changes no state and no action.
pub proof fn lemma_drain_append(c: Core, bd: Seq<u8>, b: Seq<u8>, x: Seq<u8>, ids: Seq<Seq<char>>)
    ensures
        ({
            let d = drain(c, bd, b, ids);
            let whole = drain(c, bd, b + x, ids);
            if d.core.phase is End {
                &&& whole.core == d.core
                &&& whole.pending == d.pending
                &&& whole.actions == d.actions
                &&& whole.ids_left == d.ids_left
            } else {
                let d2 = drain(d.core, bd, d.pending + x, d.ids_left);
                &&& whole.core == d2.core
                &&& whole.pending == d2.pending
                &&& whole.actions == d.actions + d2.actions
                &&& whole.ids_left == d2.ids_left
            }
        }),
    decreases b.len(),
{
    if c.phase is End {
    } else {
        match first_line_len(b) {
            None => {
                let d2 = drain(c, bd, b + x, ids);
                assert(seq![] + d2.actions =~= d2.actions);
            },
            Some(e) => {
                lemma_line_end_bounds(b, 0);
                lemma_line_end_extend(b, x, 0);
                assert((b + x).subrange(0, e) =~= b.subrange(0, e));
                assert((b + x).subrange(e, (b + x).len() as int) =~= b.subrange(e, b.len() as int)
                    + x);
                let line = b.subrange(0, e);
                let st = step_line(c, bd, line, next_id(ids));
                let ids2 = ids_after(c, bd, line, ids);
                let tail = b.subrange(e, b.len() as int);
                lemma_drain_append(st.core, bd, tail, x, ids2);
                let rest = drain(st.core, bd, tail, ids2);
                if !(rest.core.phase is End) {
                    let d2 = drain(rest.core, bd, rest.pending + x, rest.ids_left);
                    assert(st.actions + (rest.actions + d2.actions) =~= (st.actions + rest.actions)
                        + d2.actions);
                }
            },
        }
    }
}

/// Splitting a body between two chunks changes nothing: feeding `a` and
/// then `x` leaves the session as feeding `a + x` at once does, after the
/// same storage actions in the same order, with the same identities.
pub proof fn law_split_invariance(s: SessionModel, a: Seq<u8>, x: Seq<u8>, ids: Seq<Seq<char>>)
    ensures
        ({
            let one = feed_model(s, a, ids);
            let two = feed_model(one.session, x, one.ids_left);
            let whole = feed_model(s, a + x, ids);
            &&& whole.session == two.session
            &&& whole.actions == one.actions + two.actions
            &&& whole.ids_left == two.ids_left
        }),
{
    if s.core.phase is End {
        assert(Seq::<ActionModel>::empty() + Seq::<ActionModel>::empty() =~= Seq::<
            ActionModel,
        >::empty());
    } else {
        assert(s.pending + (a + x) =~= (s.pending + a) + x);
        lemma_drain_append(s.core, s.boundary, s.pending + a, x, ids);
        let d = drain(s.core, s.boundary, s.pending + a, ids);
        if d.core.phase is End {
            assert(d.actions + seq![] =~= d.actions);
        }
    }
}

/// However a body is cut into chunks, feeding them one after another
/// leaves the session as feeding the whole body at once does, after the
/// same storage actions in the same order, with the same identities.
pub proof fn law_chunking_invariance(s: SessionModel, chunks: Seq<Seq<u8>>, ids: Seq<Seq<char>>)
    requires
        chunks.len() > 0,
    ensures
        feed_all(s, chunks, ids).0 == feed_model(s, chunks.flatten(), ids).session,
        feed_all(s, chunks, ids).1 == feed_model(s, chunks.flatten(), ids).actions,
        feed_all(s, chunks, ids).2 == feed_model(s, chunks.flatten(), ids).ids_left,
    decreases chunks.len(),
{
    let first = feed_model(s, chunks[0], ids);
    let rest = chunks.subrange(1, chunks.len() as int);
    assert(chunks.flatten() == chunks[0] + rest.flatten()) by {
        assert(chunks.drop_first() =~= rest);
    }
    if rest.len() == 0 {
        assert(rest.flatten() =~= Seq::<u8>::empty());
        assert(chunks[0] + Seq::<u8>::empty() =~= chunks[0]);
        assert(feed_all(first.session, rest, first.ids_left) == (
            first.session,
            Seq::<ActionModel>::empty(),
            first.ids_left,
        ));
        assert(first.actions + Seq::<ActionModel>::empty() =~= first.actions);
    } else {
        law_chunking_invariance(first.session, rest, first.ids_left);
        law_split_invariance(s, chunks[0], rest.flatten(), ids);
    }
}

proof fn lemma_line_end_exists(b: Seq<u8>, i: int, k: int)
    requires
        0 <= i <= k,
        crlf_at(b, k),
    ensures
        line_end_from(b, i) is Some,
    decreases k - i,
{
    if !crlf_at(b, i) {
        lemma_line_end_exists(b, i + 1, k);
    }
}

proof fn lemma_line_end_at_last(b: Seq<u8>, i: int)
    requires
        0 <= i <= b.len() - 2,
        crlf_at(b, b.len() - 2),
        forall|k: int| i <= k < b.len() - 2 ==> b[k] != 13u8,
    ensures
        line_end_from(b, i) == Some(b.len() as int),
    decreases b.len() - i,
{
    if i < b.len() - 2 {
        lemma_line_end_at_last(b, i + 1);
    }
}

/// A separator line is one line when the boundary holds no line break.
proof fn lemma_separator_one_line(bd: Seq<u8>)
    requires
        boundary_without_breaks(bd),
    ensures
        first_line_len(separator_line(bd)) == Some(separator_line(bd).len() as int),
{
    let sep = separator_line(bd);
    assert forall|k: int| 0 <= k < sep.len() - 2 implies sep[k] != 13u8 by {
        if k >= 2 {
            assert(sep[k] == bd[k - 2]);
        }
    }
    lemma_line_end_at_last(sep, 0);
}

/// In a part's payload, the writes up to the next separator line carry the
/// payload region without its last terminator, after the terminator still
/// owed from before.
proof fn lemma_opens_append(a: Seq<ActionModel>, b: Seq<ActionModel>, p: PartModel)
    requires
        opens_only(a, p),
        opens_only(b, p),
    ensures
        opens_only(a + b, p),
{
    assert forall|i: int| 0 <= i < (a + b).len() implies ((#[trigger] (a + b)[i]) is Open ==> (a
        + b)[i] == ActionModel::Open(p.0, p.1)) by {
        if i < a.len() {
            assert((a + b)[i] == a[i]);
        } else {
            assert((a + b)[i] == b[i - a.len()]);
        }
    }
}

proof fn lemma_body_writes(c: Core, bd: Seq<u8>, r: Seq<u8>, ids: Seq<Seq<char>>)
    requires
        c.phase is Body,
        c.part is Some,
        boundary_without_breaks(bd),
        r.len() == 0 || crlf_at(r, r.len() - 2),
        payload_clear(bd, r),
    ensures
        ({
            let d = drain(c, bd, r + separator_line(bd), ids);
            &&& opens_only(d.actions, c.part->0)
            &&& written(d.actions) == (if r.len() > 0 && c.defer_crlf {
                crlf() + strip_last_crlf(r)
            } else {
                strip_last_crlf(r)
            })
            &&& d.core.phase is LoadHeaders
            &&& d.core.completed == c.completed.push(c.part->0)
            &&& d.pending.len() == 0
        }),
    decreases r.len(),
{
    let sep = separator_line(bd);
    lemma_separator_one_line(bd);
    if r.len() == 0 {
        assert(r + sep =~= sep);
        assert(sep.subrange(0, sep.len() as int) =~= sep);
        assert(sep.subrange(sep.len() as int, sep.len() as int) =~= Seq::<u8>::empty());
        let st = step_line(c, bd, sep, next_id(ids));
        let rest = drain(st.core, bd, Seq::<u8>::empty(), ids_after(c, bd, sep, ids));
        assert(rest.actions == Seq::<ActionModel>::empty());
        assert(st.actions + rest.actions =~= st.actions);
        if c.sink_open {
            lemma_written_one(ActionModel::Close);
        } else {
            assert(written(Seq::<ActionModel>::empty()) == Seq::<u8>::empty());
        }
    } else {
        lemma_line_end_exists(r, 0, r.len() - 2);
        lemma_line_end_bounds(r, 0);
        let e = first_line_len(r)->0;
        lemma_line_end_extend(r, sep, 0);
        let line = r.subrange(0, e);
        let tail = r.subrange(e, r.len() as int);
        assert((r + sep).subrange(0, e) =~= line);
        assert((r + sep).subrange(e, (r + sep).len() as int) =~= tail + sep);
        let st = step_line(c, bd, line, next_id(ids));
        let w = crate::model::payload_bytes(c, line);
        if tail.len() > 0 {
            assert(crlf_at(tail, tail.len() - 2)) by {
                assert(tail[tail.len() - 2] == r[r.len() - 2]);
                assert(tail[tail.len() - 1] == r[r.len() - 1]);
            }
        }
        assert(ids_after(c, bd, line, ids) == ids);
        lemma_body_writes(st.core, bd, tail, ids);
        let rest = drain(st.core, bd, tail + sep, ids);
        lemma_written_append(st.actions, rest.actions);
        assert(opens_only(st.actions, c.part->0));
        lemma_opens_append(st.actions, rest.actions, c.part->0);
        if c.sink_open {
            lemma_written_one(ActionModel::Write(w));
        } else {
            lemma_written_append(seq![open_of(c.part->0)], seq![ActionModel::Write(w)]);
            assert(seq![open_of(c.part->0)] + seq![ActionModel::Write(w)] =~= st.actions);
            lemma_written_one(open_of(c.part->0));
            lemma_written_one(ActionModel::Write(w));
            assert(Seq::<u8>::empty() + w =~= w);
        }
        assert(written(st.actions) == w);
        if tail.len() == 0 {
            assert(w + Seq::<u8>::empty() =~= w);
        } else {
            assert(r.subrange(e - 2, e) =~= crlf());
            if c.defer_crlf {
                assert(w + (crlf() + strip_last_crlf(tail)) =~= crlf() + strip_last_crlf(r));
            } else {
                assert(w + (crlf() + strip_last_crlf(tail)) =~= strip_last_crlf(r));
            }
        }
    }
}

/// A part's stored bytes are exactly its payload. Let `r` be what stands
/// between the blank line that ends a part's headers and the next
/// separator line, with no line of it a boundary line (`r` is empty or
/// ends with CR LF). The writes for the part carry `r` without its last
/// terminator; every file opened on the way is the part's own,
/// `{identity}/{filename}`; and the separator completes that same part.
pub proof fn law_payload_round_trip(c: Core, bd: Seq<u8>, r: Seq<u8>, ids: Seq<Seq<char>>)
    requires
        c.phase is LoadHeaders,
        c.part is Some,
        !c.defer_crlf,
        boundary_without_breaks(bd),
        r.len() == 0 || crlf_at(r, r.len() - 2),
        payload_clear(bd, r),
    ensures
        ({
            let d = drain(c, bd, crlf() + r + separator_line(bd), ids);
            &&& written(d.actions) == strip_last_crlf(r)
            &&& opens_only(d.actions, c.part->0)
            &&& d.core.phase is LoadHeaders
            &&& d.core.completed == c.completed.push(c.part->0)
        }),
{
    let body = crlf() + r + separator_line(bd);
    assert(crlf_at(body, 0));
    assert(first_line_len(body) == Some(2int));
    assert(body.subrange(0, 2) =~= crlf());
    assert(body.subrange(2, body.len() as int) =~= r + separator_line(bd));
    let st = step_line(c, bd, crlf(), next_id(ids));
    assert(ids_after(c, bd, crlf(), ids) == ids);
    lemma_body_writes(st.core, bd, r, ids);
    let rest = drain(st.core, bd, r + separator_line(bd), ids);
    assert(st.actions + rest.actions =~= rest.actions);
}

/// Boundary lines are recognised by byte equality alone. In a part's
/// payload, a line is a separator only if it equals `--{boundary}` CR LF
/// byte for byte, and the terminal line only if it equals
/// `--{boundary}--` CR LF; any other line stays payload, whatever bytes the
/// boundary holds.
pub proof fn law_boundary_is_literal(c: Core, bd: Seq<u8>, line: Seq<u8>, fresh: Seq<char>)
    requires
        c.phase is Body,
    ensures
        step_line(c, bd, line, fresh).core.phase == (if line == separator_line(bd) {
            ParseState::LoadHeaders
        } else if line == terminal_line(bd) {
            ParseState::End
        } else {
            ParseState::Body
        }),
        line != separator_line(bd) && line != terminal_line(bd) && c.part is Some ==> step_line(
            c,
            bd,
            line,
            fresh,
        ).actions.last() == ActionModel::Write(crate::model::payload_bytes(c, line)),
{
}

/// A file is opened only for the current part, under that part's identity
/// and filename, and the part stays current.
pub proof fn law_open_is_current_part(c: Core, bd: Seq<u8>, line: Seq<u8>, fresh: Seq<char>)
    ensures
        c.part is Some ==> opens_only(step_line(c, bd, line, fresh).actions, c.part->0),
        (exists|i: int|
            0 <= i < step_line(c, bd, line, fresh).actions.len() && (#[trigger] step_line(
                c,
                bd,
                line,
                fresh,
            ).actions[i]) is Open) ==> c.part is Some && step_line(c, bd, line, fresh).core.part
            == c.part,
{
}

/// A separator or terminal line in a payload completes the current part,
/// with the identity and filename its file was opened under, and closes
/// its file if one is open.
pub proof fn law_close_completes_current(c: Core, bd: Seq<u8>, line: Seq<u8>, fresh: Seq<char>)
    requires
        c.phase is Body,
        line == separator_line(bd) || line == terminal_line(bd),
    ensures
        step_line(c, bd, line, fresh).core.completed == (match c.part {
            Some(p) => c.completed.push(p),
            None => c.completed,
        }),
        step_line(c, bd, line, fresh).core.part is None,
        !step_line(c, bd, line, fresh).core.sink_open,
        step_line(c, bd, line, fresh).actions == (if c.sink_open {
            seq![ActionModel::Close]
        } else {
            Seq::<ActionModel>::empty()
        }),
{
}

/// Plays storage actions from a sink state (`open`): `None` when an action
/// comes out of turn (an open while a sink is open, a write or a close with
/// none open), otherwise whether a sink is open afterwards.
pub open spec fn play_sink(open: bool, acts: Seq<ActionModel>) -> Option<bool>
    decreases acts.len(),
{
    if acts.len() == 0 {
        Some(open)
    } else {
        let rest = acts.subrange(1, acts.len() as int);
        match acts[0] {
            ActionModel::Open(_, _) => if open {
                None
            } else {
                play_sink(true, rest)
            },
            ActionModel::Write(_) => if open {
                play_sink(true, rest)
            } else {
                None
            },
            ActionModel::Close => if open {
                play_sink(false, rest)
            } else {
                None
            },
        }
    }
}

/// A sink is open only in a part's payload, and only for a part that has a
/// filename.
pub open spec fn sink_invariant(c: Core) -> bool {
    c.sink_open ==> (c.phase is Body && c.part is Some)
}

proof fn lemma_play_append(open: bool, a: Seq<ActionModel>, b: Seq<ActionModel>)
    ensures
        play_sink(open, a + b) == (match play_sink(open, a) {
            Some(o) => play_sink(o, b),
            None => None,
        }),
    decreases a.len(),
{
    if a.len() == 0 {
        assert(a + b =~= b);
    } else {
        assert((a + b).subrange(1, (a + b).len() as int) =~= a.subrange(1, a.len() as int) + b);
        assert((a + b)[0] == a[0]);
        let next = match a[0] {
            ActionModel::Open(_, _) => true,
            ActionModel::Write(_) => true,
            ActionModel::Close => false,
        };
        lemma_play_append(next, a.subrange(1, a.len() as int), b);
    }
}

proof fn lemma_step_sink(c: Core, bd: Seq<u8>, line: Seq<u8>, fresh: Seq<char>)
    requires
        sink_invariant(c),
    ensures
        sink_invariant(step_line(c, bd, line, fresh).core),
        play_sink(c.sink_open, step_line(c, bd, line, fresh).actions) == Some(
            step_line(c, bd, line, fresh).core.sink_open,
        ),
{
    let st = step_line(c, bd, line, fresh);
    let empty = Seq::<ActionModel>::empty();
    assert(play_sink(false, empty) == Some(false));
    assert(play_sink(true, empty) == Some(true));
    let a = st.actions;
    if a.len() == 1 {
        assert(a.subrange(1, 1) =~= empty);
        assert(play_sink(c.sink_open, a) == Some(st.core.sink_open));
    } else if a.len() == 2 {
        assert(a.subrange(1, 2) =~= seq![a[1]]);
        assert(seq![a[1]].subrange(1, 1) =~= empty);
        assert(play_sink(true, seq![a[1]]) == Some(true));
        assert(play_sink(false, a) == play_sink(true, a.subrange(1, 2)));
    }
}

proof fn lemma_drain_sink(c: Core, bd: Seq<u8>, buf: Seq<u8>, ids: Seq<Seq<char>>)
    requires
        sink_invariant(c),
    ensures
        sink_invariant(drain(c, bd, buf, ids).core),
        play_sink(c.sink_open, drain(c, bd, buf, ids).actions) == Some(
            drain(c, bd, buf, ids).core.sink_open,
        ),
    decreases buf.len(),
{
    if c.phase is End {
        assert(play_sink(c.sink_open, Seq::<ActionModel>::empty()) == Some(c.sink_open));
    } else {
        match first_line_len(buf) {
            None => {
                assert(play_sink(c.sink_open, Seq::<ActionModel>::empty()) == Some(c.sink_open));
            },
            Some(e) => {
                lemma_line_end_bounds(buf, 0);
                let line = buf.subrange(0, e);
                let st = step_line(c, bd, line, next_id(ids));
                lemma_step_sink(c, bd, line, next_id(ids));
                let tail = buf.subrange(e, buf.len() as int);
                let ids2 = ids_after(c, bd, line, ids);
                lemma_drain_sink(st.core, bd, tail, ids2);
                lemma_play_append(c.sink_open, st.actions, drain(st.core, bd, tail, ids2).actions);
            },
        }
    }
}

/// At most one sink is open at a time, and only for a part with a filename.
/// From a session that satisfies this, feeding a chunk keeps it, and the
/// storage actions come in turn: a sink is opened only when none is open,
/// and written or closed only while one is.
pub proof fn law_single_open_sink(s: SessionModel, chunk: Seq<u8>, ids: Seq<Seq<char>>)
    requires
        sink_invariant(s.core),
    ensures
        sink_invariant(feed_model(s, chunk, ids).session.core),
        play_sink(s.core.sink_open, feed_model(s, chunk, ids).actions) == Some(
            feed_model(s, chunk, ids).session.core.sink_open,
        ),
{
    if s.core.phase is End {
        assert(play_sink(s.core.sink_open, Seq::<ActionModel>::empty()) == Some(s.core.sink_open));
    } else {
        lemma_drain_sink(s.core, s.boundary, s.pending + chunk, ids);
    }
}

/// A new session satisfies the sink invariant.
pub proof fn law_initial_sink()
    ensures
        sink_invariant(crate::model::initial_core()),
{
}

} // verus!
