//! What holds of a stream as a whole.

use vstd::prelude::*;
use vstd::utf8::*;

use crate::call_ids;
use crate::calls;
use crate::calls::CallModel;
use crate::parser_laws;
use crate::stream;
use crate::stream::{
    ChoiceModel, ContentStep, EndModel, Reading, StateView, StreamView, MAX_XML_BUF_LEN,
};
use crate::tag_laws;
use crate::tags;
use crate::text;
use crate::tool_parser;
use crate::types::{ChatCompletionsResponseChunk, ChunkChoice};

verus! {

// ---------------------------------------------------------------------------
// No text is lost
// ---------------------------------------------------------------------------

/// No byte is lost, made up or moved: what a step lets go of, followed by what the stream
/// then holds back, is what it held back before, followed by the new text.
pub proof fn law_step_keeps_text(state: StateView, names: Seq<Seq<u8>>, content: Seq<u8>)
    ensures
        ({
            let step = stream::content_step(state, names, content);
            stream::passed(step) + stream::pending(stream::state_after(step)) == stream::pending(
                state,
            ) + content
        }),
{
    let step = stream::content_step(state, names, content);
    let left = stream::passed(step) + stream::pending(stream::state_after(step));
    match state {
        StateView::Normal { buffer } => {
            let b = buffer + content;
            tags::lemma_find_tag(b, names, false, 0);
            match tags::find_tag(b, names, false, 0) {
                Some(at) => {
                    tags::lemma_byte_from(b, 0x3e, at + 1);
                    assert(left =~= b);
                },
                None => {
                    tags::lemma_last_partial(
                        b,
                        names,
                        false,
                        b.len() - tags::partial_window(b, names),
                        b.len() as int,
                    );
                    assert(left =~= b);
                },
            }
        },
        StateView::Suppressing { body, name, open } => {
            let b = body + content;
            tags::lemma_find_tag(b, seq![name], true, 0);
            if b.len() <= MAX_XML_BUF_LEN {
                if let Some(at) = tags::find_tag(b, seq![name], true, 0) {
                    tags::lemma_byte_from(b, 0x3e, at + 1);
                }
            }
            assert(left =~= open + b);
            assert(open + b =~= (open + body) + content);
        },
    }
}

/// The state after a list of pieces of text.
pub open spec fn state_after_all(
    state: StateView,
    names: Seq<Seq<u8>>,
    pieces: Seq<Seq<u8>>,
) -> StateView
    decreases pieces.len(),
{
    if pieces.len() == 0 {
        state
    } else {
        stream::state_after(
            stream::content_step(
                state_after_all(state, names, pieces.drop_last()),
                names,
                pieces.last(),
            ),
        )
    }
}

/// The step for the last of a list of pieces of text.
pub open spec fn last_step(
    state: StateView,
    names: Seq<Seq<u8>>,
    pieces: Seq<Seq<u8>>,
) -> ContentStep {
    stream::content_step(
        state_after_all(state, names, pieces.drop_last()),
        names,
        pieces.last(),
    )
}

/// The text that all steps for a list of pieces let go of.
pub open spec fn passed_all(
    state: StateView,
    names: Seq<Seq<u8>>,
    pieces: Seq<Seq<u8>>,
) -> Seq<u8>
    decreases pieces.len(),
{
    if pieces.len() == 0 {
        Seq::empty()
    } else {
        passed_all(state, names, pieces.drop_last()) + stream::passed(
            last_step(state, names, pieces),
        )
    }
}

/// The pieces put together.
pub open spec fn whole(pieces: Seq<Seq<u8>>) -> Seq<u8>
    decreases pieces.len(),
{
    if pieces.len() == 0 {
        Seq::empty()
    } else {
        whole(pieces.drop_last()) + pieces.last()
    }
}

/// However an answer is cut into pieces, what the stream lets go of, followed by what it
/// holds back, is the answer so far.
pub proof fn law_stream_keeps_text(
    state: StateView,
    names: Seq<Seq<u8>>,
    pieces: Seq<Seq<u8>>,
)
    ensures
        passed_all(state, names, pieces) + stream::pending(state_after_all(state, names, pieces))
            == stream::pending(state) + whole(pieces),
    decreases pieces.len(),
{
    if pieces.len() > 0 {
        let before = state_after_all(state, names, pieces.drop_last());
        law_stream_keeps_text(state, names, pieces.drop_last());
        law_step_keeps_text(before, names, pieces.last());
        let done = passed_all(state, names, pieces.drop_last());
        let step = last_step(state, names, pieces);
        assert(done + stream::passed(step) + stream::pending(stream::state_after(step)) =~= done + (
        stream::passed(step) + stream::pending(stream::state_after(step))));
        assert(done + (stream::pending(before) + pieces.last()) =~= (done + stream::pending(
            before,
        )) + pieces.last());
        assert(stream::pending(state) + whole(pieces.drop_last()) + pieces.last()
            =~= stream::pending(state) + whole(pieces));
    } else {
        assert(passed_all(state, names, pieces) + stream::pending(state) =~= stream::pending(state)
            + whole(pieces));
    }
}

// ---------------------------------------------------------------------------
// Released text
// ---------------------------------------------------------------------------

/// No part of a tag is released as text: whatever `more` follows the buffer `b`, an opening
/// tag with moderate white space that starts in `b` starts in the part that is held back.
pub proof fn law_released_text_holds_no_tag(
    b: Seq<u8>,
    more: Seq<u8>,
    names: Seq<Seq<u8>>,
    at: int,
)
    requires
        tags::find_tag(b, names, false, 0) is None,
        0 <= at < b.len(),
        tags::tag_at(b + more, names, false, at),
        tags::has_moderate_space(b + more, at),
    ensures
        at == b.len() - tags::partial_tail(b, names, false),
{
    if tags::tag_end(b + more, at) < b.len() {
        tag_laws::law_tag_needs_no_more(b, more, names, false, at);
        tags::lemma_find_tag(b, names, false, 0);
    } else {
        tags::law_partial_tail_holds_cut_tag(b, more, names, false, at);
    }
}

/// Text without a `<` is shown as it comes: all of it at once, with nothing held back.
pub proof fn law_plain_text_is_shown(names: Seq<Seq<u8>>, content: Seq<u8>)
    requires
        content.len() > 0,
        forall|i: int| 0 <= i < content.len() ==> content[i] != 0x3c,
    ensures
        stream::content_step(
            StateView::Normal { buffer: Seq::empty() },
            names,
            content,
        ) == (ContentStep::Release {
            text: content,
            next: StateView::Normal { buffer: Seq::empty() },
        }),
{
    let b = Seq::<u8>::empty() + content;
    assert(b =~= content);
    tags::lemma_find_tag(b, names, false, 0);
    let lo = b.len() - tags::partial_window(b, names);
    tags::lemma_last_partial(b, names, false, lo, b.len() as int);
    if let Some(p) = tags::last_partial(b, names, false, lo, b.len() as int) {
        assert(b.subrange(p, b.len() as int)[0] == b[p]);
    }
    assert(tags::partial_tail(b, names, false) == 0);
    assert(b.subrange(0, b.len() as int) =~= content);
    assert(b.subrange(b.len() as int, b.len() as int) =~= Seq::<u8>::empty());
}

// ---------------------------------------------------------------------------
// The end
// ---------------------------------------------------------------------------

/// How much a stream has left to say at its end.
pub open spec fn left_to_say(v: StreamView) -> int {
    let held = match v.state {
        StateView::Normal { buffer } => buffer.len() as int,
        StateView::Suppressing { body, name: _, open: _ } => body.len() as int + 1,
    };
    2 * held + if v.finish_emitted {
        0int
    } else {
        1int
    }
}

/// What is left of a text behind an element that is no call is shorter than the text.
proof fn lemma_rest_is_shorter(s: Seq<u8>, names: Seq<Seq<u8>>)
    ensures
        stream::read_text(s, names).rest.len() <= s.len(),
        s.len() > 0 ==> stream::read_text(s, names).rest.len() < s.len(),
    decreases s.len(),
{
    stream::lemma_element_parts(s, names, Seq::empty());
    if let Some(at) = tags::find_tag(s, names, false, 0) {
        let end = tags::tag_end(s, at) + 1;
        let body = s.subrange(end, s.len() as int);
        let name = tags::tag_name(s, at);
        stream::lemma_element_parts(body, names, name);
        lemma_rest_is_shorter(stream::behind_body(body, name), names);
    }
}

/// A stream that is polled on at its end comes to rest: each answer leaves it less to say,
/// until there is nothing more. There is nothing more at once where the answer was finished
/// and nothing is held back.
pub proof fn law_stream_comes_to_rest(v: StreamView, names: Seq<Seq<u8>>, first: u64)
    ensures
        ({
            let re = stream::react_to_end(v, names, first);
            &&& re.out is Done ==> re.next == v
            &&& !(re.out is Done) ==> 0 <= left_to_say(re.next) < left_to_say(v)
            &&& v.finish_emitted && v.state == (StateView::Normal { buffer: Seq::empty() })
                ==> re.out is Done
        }),
{
    reveal(stream::read_state);
    match v.state {
        StateView::Normal { buffer: _ } => {},
        StateView::Suppressing { body, name, open: _ } => {
            stream::lemma_element_parts(body, names, name);
            lemma_rest_is_shorter(stream::behind_body(body, name), names);
        },
    }
}

/// An answer in which a tool was called does not finish with `stop`: a chunk that finishes
/// it says `tool_calls` instead, and so does a chunk that holds a call.
pub proof fn law_calls_change_the_finish(
    v: StreamView,
    names: Seq<Seq<u8>>,
    choice: ChoiceModel,
    first: u64,
)
    requires
        choice.finish == Some("stop"@),
        choice.calls is None,
    ensures
        ({
            let re = stream::react_to_finish(v, names, choice, first);
            &&& re.out is Some
            &&& re.next.has_tool_calls && re.next.finish_emitted && !v.finish_emitted
                ==> re.out->0.finish == Some("tool_calls"@)
            &&& re.out->0.calls is Some ==> re.out->0.finish == Some("tool_calls"@)
        }),
{
}

/// The closing chunk that a stream adds at its end says `tool_calls` if a tool was called,
/// and `stop` otherwise.
pub proof fn law_own_finish_tells_of_calls(v: StreamView, names: Seq<Seq<u8>>, first: u64)
    ensures
        ({
            let re = stream::react_to_end(v, names, first);
            re.out is Chunk ==> re.out->Chunk_0.finish == if re.next.has_tool_calls {
                Some("tool_calls"@)
            } else {
                Some("stop"@)
            }
        }),
{
    if v.state is Normal {
        let xml = decode_utf8(stream::pending(v.state));
        if tool_parser::parsed(xml, names) is Some {
            parser_laws::law_calls_take_identifiers(xml, names);
        }
    }
}

/// The calls of a stream are numbered without a gap: those that a chunk brings at the
/// finish, or at an end within an element, follow those that were made before, and the next
/// call follows them. Those in text that is parsed at the end are numbered from 0.
pub proof fn law_indices_run_on(
    v: StreamView,
    names: Seq<Seq<u8>>,
    choice: ChoiceModel,
    first: u64,
    k: int,
)
    ensures
        ({
            let re = stream::react_to_finish(v, names, choice, first);
            let n = stream::read_state(v.state, names).calls.len() as int;
            &&& re.next.call_index == calls::index_plus(v.call_index, n)
            &&& 0 <= k < n ==> re.out->0.calls is Some && re.out->0.calls->0.len() == n
                && re.out->0.calls->0[k].index == calls::index_plus(v.call_index, k)
        }),
        ({
            let re = stream::react_to_end(v, names, first);
            re.out is Chunk && re.out->Chunk_0.calls is Some ==> {
                let made = re.out->Chunk_0.calls->0;
                0 <= k < made.len() ==> made[k].index == if v.state is Suppressing {
                    calls::index_plus(v.call_index, k)
                } else {
                    k as u32
                }
            }
        }),
{
}

// ---------------------------------------------------------------------------
// Cutting an answer into pieces
// ---------------------------------------------------------------------------

/// The call that a step makes.
pub open spec fn calls_in(step: ContentStep) -> Seq<CallModel> {
    match step {
        ContentStep::Call { call, taken: _, next: _ } => seq![call],
        _ => Seq::empty(),
    }
}

/// The text that a step shows.
pub open spec fn shown_in(step: ContentStep) -> Seq<u8> {
    match step {
        ContentStep::Release { text, next: _ } => text,
        ContentStep::Open { text, next: _ } => text,
        _ => Seq::empty(),
    }
}

/// The calls that all steps for a list of pieces make.
pub open spec fn calls_in_all(
    state: StateView,
    names: Seq<Seq<u8>>,
    pieces: Seq<Seq<u8>>,
) -> Seq<CallModel>
    decreases pieces.len(),
{
    if pieces.len() == 0 {
        Seq::empty()
    } else {
        calls_in_all(state, names, pieces.drop_last()) + calls_in(last_step(state, names, pieces))
    }
}

/// The text that all steps for a list of pieces show.
pub open spec fn shown_in_all(
    state: StateView,
    names: Seq<Seq<u8>>,
    pieces: Seq<Seq<u8>>,
) -> Seq<u8>
    decreases pieces.len(),
{
    if pieces.len() == 0 {
        Seq::empty()
    } else {
        shown_in_all(state, names, pieces.drop_last()) + shown_in(last_step(state, names, pieces))
    }
}

/// Whether no step for a list of pieces leaves an element to be mended.
pub open spec fn nothing_to_mend(
    state: StateView,
    names: Seq<Seq<u8>>,
    pieces: Seq<Seq<u8>>,
) -> bool
    decreases pieces.len(),
{
    pieces.len() == 0 || nothing_to_mend(state, names, pieces.drop_last()) && !(last_step(
        state,
        names,
        pieces,
    ) is Repair)
}

/// The calls that the end of an answer makes of what is held back.
pub open spec fn calls_at_finish(state: StateView, names: Seq<Seq<u8>>) -> Seq<CallModel> {
    stream::read_state(state, names).calls
}

/// The text that the end of an answer shows of what is held back.
pub open spec fn shown_at_finish(state: StateView, names: Seq<Seq<u8>>) -> Seq<u8> {
    stream::read_state(state, names).shown
}

/// Whether a piece makes a call so long that it is given up as text.
pub open spec fn gives_up(state: StateView, piece: Seq<u8>) -> bool {
    match state {
        StateView::Normal { buffer: _ } => false,
        StateView::Suppressing { body, name: _, open: _ } => body.len() + piece.len()
            > MAX_XML_BUF_LEN,
    }
}

/// Whether no piece of a list makes a call so long that it is given up as text.
pub open spec fn never_gives_up(
    state: StateView,
    names: Seq<Seq<u8>>,
    pieces: Seq<Seq<u8>>,
) -> bool {
    forall|k: int|
        0 <= k < pieces.len() ==> !gives_up(
            state_after_all(state, names, pieces.take(k)),
            #[trigger] pieces[k],
        )
}

/// Whether the opening tags with which the elements of a text start have moderate white
/// space.
pub open spec fn is_moderate(s: Seq<u8>, names: Seq<Seq<u8>>) -> bool
    decreases s.len(),
{
    match tags::find_tag(s, names, false, 0) {
        Some(at) => {
            let body = s.subrange(tags::tag_end(s, at) + 1, s.len() as int);
            let rest = stream::behind_body(body, tags::tag_name(s, at));
            proof {
                stream::lemma_element_parts(s, names, Seq::empty());
                stream::lemma_element_parts(body, names, tags::tag_name(s, at));
            }
            tags::has_moderate_space(s, at) && is_moderate(rest, names)
        },
        None => true,
    }
}

/// What is held back, followed by more text, comes to when nothing else follows.
spec fn reading_with(state: StateView, names: Seq<Seq<u8>>, more: Seq<u8>) -> Reading {
    match state {
        StateView::Normal { buffer } => stream::read_text(buffer + more, names),
        StateView::Suppressing { body, name, open } => stream::read_element(
            body + more,
            names,
            name,
            open,
        ),
    }
}

/// Whether what is held back, followed by more text, has moderate opening tags.
spec fn moderate_with(state: StateView, names: Seq<Seq<u8>>, more: Seq<u8>) -> bool {
    match state {
        StateView::Normal { buffer } => is_moderate(buffer + more, names),
        StateView::Suppressing { body, name, open: _ } => is_moderate(
            stream::behind_body(body + more, name),
            names,
        ),
    }
}

/// Text in which no opening tag starts is shown, and what follows it is read as if it stood
/// alone.
#[verifier::spinoff_prover]
proof fn lemma_plain_start(x: Seq<u8>, y: Seq<u8>, names: Seq<Seq<u8>>)
    requires
        match tags::find_tag(x + y, names, false, 0) {
            Some(at) => x.len() <= at,
            None => true,
        },
    ensures
        stream::read_text(x + y, names) == stream::preceded(
            x,
            Seq::empty(),
            stream::read_text(y, names),
        ),
        is_moderate(x + y, names) == is_moderate(y, names),
{
    let t = x + y;
    let n = x.len() as int;
    tag_laws::law_first_tag_shifts(x, y, names, false);
    match tags::find_tag(y, names, false, 0) {
        Some(at) => {
            tags::lemma_find_tag(y, names, false, 0);
            tag_laws::law_tag_shifts(x, y, names, false, at);
            tags::lemma_byte_from(y, 0x3e, at + 1);
            let end = tags::tag_end(y, at) + 1;
            assert(t.subrange(n + end, t.len() as int) =~= y.subrange(end, y.len() as int));
            assert(t.subrange(n + at, n + end) =~= y.subrange(at, end));
            assert(t.subrange(0, n + at) =~= x + y.subrange(0, at));
            let inner = stream::read_element(
                y.subrange(end, y.len() as int),
                names,
                tags::tag_name(y, at),
                y.subrange(at, end),
            );
            assert(x + (y.subrange(0, at) + inner.shown) =~= (x + y.subrange(0, at))
                + inner.shown);
            assert(Seq::<CallModel>::empty() + inner.calls =~= inner.calls);
            assert(Seq::<CallModel>::empty() + (Seq::<CallModel>::empty() + inner.calls)
                =~= Seq::<CallModel>::empty() + inner.calls);
        },
        None => {
            assert(Seq::<CallModel>::empty() + Seq::<CallModel>::empty()
                =~= Seq::<CallModel>::empty());
        },
    }
}

/// A step that finds an opening tag changes nothing of what the whole text comes to.
#[verifier::spinoff_prover]
proof fn lemma_opening_step(buffer: Seq<u8>, names: Seq<Seq<u8>>, c: Seq<u8>, more: Seq<u8>)
    requires
        is_moderate(buffer + (c + more), names),
        tags::find_tag(buffer + c, names, false, 0) is Some,
    ensures
        ({
            let step = stream::content_step(StateView::Normal { buffer }, names, c);
            let next = stream::state_after(step);
            &&& !(step is Repair)
            &&& stream::read_text(buffer + (c + more), names) == stream::preceded(
                shown_in(step),
                calls_in(step),
                reading_with(next, names, more),
            )
            &&& moderate_with(next, names, more)
        }),
{
    let b = buffer + c;
    let s = buffer + (c + more);
    assert(s =~= b + more);
    let at = tags::find_tag(b, names, false, 0)->0;
    tag_laws::law_first_tag_stays_first(b, more, names, false);
    let end = tags::tag_end(b, at) + 1;
    assert(s.subrange(0, at) =~= b.subrange(0, at));
    assert(s.subrange(at, end) =~= b.subrange(at, end));
    assert(s.subrange(end, s.len() as int) =~= b.subrange(end, b.len() as int) + more);
}

/// A step that finds no opening tag changes nothing of what the whole text comes to.
#[verifier::spinoff_prover]
proof fn lemma_releasing_step(buffer: Seq<u8>, names: Seq<Seq<u8>>, c: Seq<u8>, more: Seq<u8>)
    requires
        is_moderate(buffer + (c + more), names),
        tags::find_tag(buffer + c, names, false, 0) is None,
    ensures
        ({
            let step = stream::content_step(StateView::Normal { buffer }, names, c);
            let next = stream::state_after(step);
            &&& !(step is Repair)
            &&& stream::read_text(buffer + (c + more), names) == stream::preceded(
                shown_in(step),
                calls_in(step),
                reading_with(next, names, more),
            )
            &&& moderate_with(next, names, more)
        }),
{
    let b = buffer + c;
    let s = buffer + (c + more);
    assert(s =~= b + more);
    tags::lemma_last_partial(
        b,
        names,
        false,
        b.len() - tags::partial_window(b, names),
        b.len() as int,
    );
    let safe = b.len() - tags::partial_tail(b, names, false);
    tags::lemma_find_tag(s, names, false, 0);
    if let Some(j) = tags::find_tag(s, names, false, 0) {
        if j < b.len() {
            law_released_text_holds_no_tag(b, more, names, j);
        }
    }
    let x = b.subrange(0, safe);
    let y = b.subrange(safe, b.len() as int) + more;
    assert(x + y =~= s);
    lemma_plain_start(x, y, names);
    if safe <= 0 {
        assert(x =~= Seq::<u8>::empty());
        assert(y =~= b + more);
        let r = stream::read_text(s, names);
        assert(Seq::<u8>::empty() + r.shown =~= r.shown);
    }
}

/// A step in the normal state changes nothing of what the whole text comes to.
proof fn lemma_normal_step(buffer: Seq<u8>, names: Seq<Seq<u8>>, c: Seq<u8>, more: Seq<u8>)
    requires
        is_moderate(buffer + (c + more), names),
    ensures
        ({
            let step = stream::content_step(StateView::Normal { buffer }, names, c);
            let next = stream::state_after(step);
            &&& !(step is Repair)
            &&& stream::read_text(buffer + (c + more), names) == stream::preceded(
                shown_in(step),
                calls_in(step),
                reading_with(next, names, more),
            )
            &&& moderate_with(next, names, more)
        }),
{
    if tags::find_tag(buffer + c, names, false, 0) is Some {
        lemma_opening_step(buffer, names, c, more);
    } else {
        lemma_releasing_step(buffer, names, c, more);
    }
}

/// A step within an element changes nothing of what the whole text comes to.
#[verifier::spinoff_prover]
proof fn lemma_body_step(
    body: Seq<u8>,
    names: Seq<Seq<u8>>,
    name: Seq<u8>,
    open: Seq<u8>,
    c: Seq<u8>,
    more: Seq<u8>,
)
    requires
        !gives_up(StateView::Suppressing { body, name, open }, c),
        is_moderate(stream::behind_body(body + (c + more), name), names),
        stream::read_element(body + (c + more), names, name, open).repair is None,
    ensures
        ({
            let step = stream::content_step(StateView::Suppressing { body, name, open }, names, c);
            let next = stream::state_after(step);
            &&& !(step is Repair)
            &&& stream::read_element(body + (c + more), names, name, open) == stream::preceded(
                shown_in(step),
                calls_in(step),
                reading_with(next, names, more),
            )
            &&& moderate_with(next, names, more)
        }),
{
    let b = body + c;
    let s = body + (c + more);
    let whole = stream::read_element(s, names, name, open);
    assert(s =~= b + more);
    match tags::find_tag(b, seq![name], true, 0) {
        Some(at) => {
            tag_laws::law_first_tag_stays_first(b, more, seq![name], true);
            let end = tags::tag_end(b, at) + 1;
            assert(s.subrange(0, at) =~= b.subrange(0, at));
            assert(s.subrange(end, s.len() as int) =~= b.subrange(end, b.len() as int) + more);
        },
        None => {
            assert(Seq::<u8>::empty() + whole.shown =~= whole.shown);
            assert(Seq::<CallModel>::empty() + whole.calls =~= whole.calls);
        },
    }
}

#[verifier::spinoff_prover]
proof fn lemma_cuts_do_not_matter(
    start: StateView,
    names: Seq<Seq<u8>>,
    pieces: Seq<Seq<u8>>,
    more: Seq<u8>,
)
    requires
        never_gives_up(start, names, pieces),
        moderate_with(start, names, whole(pieces) + more),
        reading_with(start, names, whole(pieces) + more).repair is None,
    ensures
        ({
            let state = state_after_all(start, names, pieces);
            &&& reading_with(start, names, whole(pieces) + more) == stream::preceded(
                shown_in_all(start, names, pieces),
                calls_in_all(start, names, pieces),
                reading_with(state, names, more),
            )
            &&& moderate_with(state, names, more)
            &&& nothing_to_mend(start, names, pieces)
        }),
    decreases pieces.len(),
{
    if pieces.len() == 0 {
        let r = reading_with(start, names, more);
        assert(whole(pieces) + more =~= more);
        assert(r =~= stream::preceded(
            shown_in_all(start, names, pieces),
            calls_in_all(start, names, pieces),
            r,
        ));
    } else {
        let less = pieces.drop_last();
        let c = pieces.last();
        assert(whole(pieces) + more =~= whole(less) + (c + more));
        assert forall|k: int| 0 <= k < less.len() implies !gives_up(
            state_after_all(start, names, less.take(k)),
            #[trigger] less[k],
        ) by {
            assert(less.take(k) =~= pieces.take(k));
            assert(pieces[k] == less[k]);
        }
        lemma_cuts_do_not_matter(start, names, less, c + more);
        let state = state_after_all(start, names, less);
        assert(!gives_up(state, c)) by {
            assert(pieces.take(pieces.len() - 1) =~= less);
            assert(pieces[pieces.len() - 1] == c);
        }
        let step = last_step(start, names, pieces);
        match state {
            StateView::Normal { buffer } => {
                lemma_normal_step(buffer, names, c, more);
            },
            StateView::Suppressing { body, name, open } => {
                lemma_body_step(body, names, name, open, c, more);
            },
        }
        let shown = shown_in_all(start, names, less);
        let made = calls_in_all(start, names, less);
        let r = reading_with(stream::state_after(step), names, more);
        assert(shown + (shown_in(step) + r.shown) =~= (shown + shown_in(step)) + r.shown);
        assert(made + (calls_in(step) + r.calls) =~= (made + calls_in(step)) + r.calls);
    }
}

/// How an answer is cut into pieces does not matter: the text that is shown and the calls
/// that are made, up to and with the finish, are those of the whole text. This holds where
/// every element of the text denotes arguments and starts with a tag with moderate white
/// space, and no call is given up as too long.
pub proof fn law_cuts_do_not_matter(
    held: Seq<u8>,
    names: Seq<Seq<u8>>,
    pieces: Seq<Seq<u8>>,
)
    requires
        never_gives_up(StateView::Normal { buffer: held }, names, pieces),
        is_moderate(held + whole(pieces), names),
        stream::read_text(held + whole(pieces), names).repair is None,
    ensures
        ({
            let start = StateView::Normal { buffer: held };
            let state = state_after_all(start, names, pieces);
            let all = stream::read_text(held + whole(pieces), names);
            &&& shown_in_all(start, names, pieces) + shown_at_finish(state, names) == all.shown
            &&& calls_in_all(start, names, pieces) + calls_at_finish(state, names) == all.calls
            &&& nothing_to_mend(start, names, pieces)
            &&& stream::read_state(state, names).repair is None
        }),
{
    let start = StateView::Normal { buffer: held };
    let state = state_after_all(start, names, pieces);
    let none = Seq::<u8>::empty();
    assert(whole(pieces) + none =~= whole(pieces));
    lemma_cuts_do_not_matter(start, names, pieces, none);
    reveal(stream::read_state);
    match state {
        StateView::Normal { buffer } => {
            assert(buffer + none =~= buffer);
        },
        StateView::Suppressing { body, name: _, open: _ } => {
            assert(body + none =~= body);
        },
    }
}

proof fn lemma_whole_grows(pieces: Seq<Seq<u8>>, k: int)
    requires
        0 <= k < pieces.len(),
    ensures
        whole(pieces.take(k)).len() + pieces[k].len() <= whole(pieces).len(),
    decreases pieces.len(),
{
    let less = pieces.drop_last();
    if k == pieces.len() - 1 {
        assert(pieces.take(k) =~= less);
    } else {
        assert(less.take(k) =~= pieces.take(k));
        lemma_whole_grows(less, k);
    }
}

/// A text that is no longer than the limit is never given up.
pub proof fn law_short_answers_are_not_given_up(
    state: StateView,
    names: Seq<Seq<u8>>,
    pieces: Seq<Seq<u8>>,
)
    requires
        stream::pending(state).len() + whole(pieces).len() <= MAX_XML_BUF_LEN,
    ensures
        never_gives_up(state, names, pieces),
{
    assert forall|k: int| 0 <= k < pieces.len() implies !gives_up(
        state_after_all(state, names, pieces.take(k)),
        #[trigger] pieces[k],
    ) by {
        law_stream_keeps_text(state, names, pieces.take(k));
        lemma_whole_grows(pieces, k);
        let later = state_after_all(state, names, pieces.take(k));
        let done = passed_all(state, names, pieces.take(k));
        assert((done + stream::pending(later)).len() == (stream::pending(state) + whole(
            pieces.take(k),
        )).len());
    }
}

// ---------------------------------------------------------------------------
// Elements
// ---------------------------------------------------------------------------

/// The text of an element: an opening tag, a body and a closing tag.
pub open spec fn element(name: Seq<u8>, inner: Seq<u8>) -> Seq<u8> {
    tag_laws::plain_tag(name, false) + (inner + tag_laws::plain_tag(name, true))
}

/// Whether an element is a call: the name is one of the tools, the first closing tag is the
/// one that ends the element, and the body denotes arguments.
pub open spec fn is_good_element(
    names: Seq<Seq<u8>>,
    name: Seq<u8>,
    inner: Seq<u8>,
    arguments: Seq<char>,
) -> bool {
    &&& names.contains(name)
    &&& tag_laws::is_tool_name(name)
    &&& tags::find_tag(inner + tag_laws::plain_tag(name, true), seq![name], true, 0) == Some(
        inner.len() as int,
    )
    &&& tool_parser::body_arguments(decode_utf8(inner)) == Some(arguments)
}

/// Whether no byte of a text can start a tag.
pub open spec fn is_plain(s: Seq<u8>) -> bool {
    forall|i: int| 0 <= i < s.len() ==> #[trigger] s[i] != 0x3c
}

/// An element and the text before it.
pub struct Item {
    pub before: Seq<u8>,
    pub name: Seq<u8>,
    pub inner: Seq<u8>,
    pub arguments: Seq<char>,
}

/// The text of a list of elements and of the text before, between and behind them.
pub open spec fn text_of(items: Seq<Item>, behind: Seq<u8>) -> Seq<u8>
    decreases items.len(),
{
    if items.len() == 0 {
        behind
    } else {
        items[0].before + element(items[0].name, items[0].inner) + text_of(
            items.drop_first(),
            behind,
        )
    }
}

/// The text before, between and behind a list of elements.
pub open spec fn plain_of(items: Seq<Item>, behind: Seq<u8>) -> Seq<u8>
    decreases items.len(),
{
    if items.len() == 0 {
        behind
    } else {
        items[0].before + plain_of(items.drop_first(), behind)
    }
}

/// The calls of a list of elements.
pub open spec fn calls_of_items(items: Seq<Item>) -> Seq<CallModel> {
    Seq::new(
        items.len(),
        |k: int|
            CallModel { name: decode_utf8(items[k].name), arguments: items[k].arguments },
    )
}

/// Whether every element of a list is a call and the text before it is plain.
pub open spec fn are_good(items: Seq<Item>, names: Seq<Seq<u8>>) -> bool {
    forall|k: int|
        0 <= k < items.len() ==> is_good_element(
            names,
            (#[trigger] items[k]).name,
            items[k].inner,
            items[k].arguments,
        ) && is_plain(items[k].before)
}

/// The opening tag of an element is the first one behind plain text.
#[verifier::spinoff_prover]
proof fn lemma_item_opens(item: Item, names: Seq<Seq<u8>>, more: Seq<u8>)
    requires
        is_good_element(names, item.name, item.inner, item.arguments),
        is_plain(item.before),
    ensures
        ({
            let s = item.before + element(item.name, item.inner) + more;
            let at = item.before.len() as int;
            let end = at + tag_laws::plain_tag(item.name, false).len();
            &&& tags::find_tag(s, names, false, 0) == Some(at)
            &&& tags::tag_end(s, at) + 1 == end
            &&& tags::tag_name(s, at) == item.name
            &&& tags::has_moderate_space(s, at)
            &&& s.subrange(0, at) == item.before
            &&& s.subrange(end, s.len() as int) == item.inner + tag_laws::plain_tag(
                item.name,
                true,
            ) + more
        }),
{
    let open = tag_laws::plain_tag(item.name, false);
    let tail = item.inner + tag_laws::plain_tag(item.name, true);
    let s = item.before + element(item.name, item.inner) + more;
    let at = item.before.len() as int;
    tag_laws::law_plain_tag(item.before, item.name, false, tail + more, names);
    assert(item.before + open + (tail + more) =~= s);
    assert forall|j: int| 0 <= j < at implies !tags::tag_at(s, names, false, j) by {
        assert(s[j] == item.before[j]);
    }
    tags::lemma_find_tag_is(s, names, false, 0, at);
    assert(s.subrange(0, at) =~= item.before);
    assert(s.subrange(at + open.len(), s.len() as int) =~= tail + more);
}

/// The first closing tag behind the body of an element ends the element.
#[verifier::spinoff_prover]
proof fn lemma_item_closes(item: Item, names: Seq<Seq<u8>>, more: Seq<u8>)
    requires
        is_good_element(names, item.name, item.inner, item.arguments),
    ensures
        ({
            let body = item.inner + tag_laws::plain_tag(item.name, true) + more;
            &&& stream::open_body(body, item.name) == item.inner
            &&& stream::behind_body(body, item.name) == more
        }),
{
    let close = tag_laws::plain_tag(item.name, true);
    let tail = item.inner + close;
    let body = tail + more;
    tag_laws::law_first_tag_stays_first(tail, more, seq![item.name], true);
    tag_laws::law_plain_tag(item.inner, item.name, true, Seq::empty(), seq![item.name]);
    assert(item.inner + close + Seq::<u8>::empty() =~= tail);
    assert(body.subrange(0, item.inner.len() as int) =~= item.inner);
    assert(body.subrange(tail.len() as int, body.len() as int) =~= more);
}

/// An element behind plain text is read as its call.
#[verifier::spinoff_prover]
proof fn lemma_read_item(item: Item, names: Seq<Seq<u8>>, more: Seq<u8>)
    requires
        is_good_element(names, item.name, item.inner, item.arguments),
        is_plain(item.before),
    ensures
        ({
            let s = item.before + element(item.name, item.inner) + more;
            let call = CallModel { name: decode_utf8(item.name), arguments: item.arguments };
            &&& stream::read_text(s, names) == stream::preceded(
                item.before,
                seq![call],
                stream::read_text(more, names),
            )
            &&& is_moderate(s, names) == is_moderate(more, names)
        }),
{
    let s = item.before + element(item.name, item.inner) + more;
    let at = item.before.len() as int;
    let end = at + tag_laws::plain_tag(item.name, false).len();
    let body = item.inner + tag_laws::plain_tag(item.name, true) + more;
    lemma_item_opens(item, names, more);
    lemma_item_closes(item, names, more);
    let rest = stream::read_text(more, names);
    let call = CallModel { name: decode_utf8(item.name), arguments: item.arguments };
    let none = Seq::<u8>::empty();
    let inner = stream::read_element(body, names, item.name, s.subrange(at, end));
    assert(inner == stream::preceded(none, seq![call], rest));
    assert(stream::read_text(s, names) == stream::preceded(item.before, Seq::empty(), inner));
    assert(item.before + (none + rest.shown) =~= item.before + rest.shown);
    assert(Seq::<CallModel>::empty() + (seq![call] + rest.calls) =~= seq![call] + rest.calls);
}

/// A list of elements with plain text around them is read as their calls and the text.
pub proof fn lemma_read_items(items: Seq<Item>, behind: Seq<u8>, names: Seq<Seq<u8>>)
    requires
        are_good(items, names),
        is_plain(behind),
    ensures
        stream::read_text(text_of(items, behind), names) == (Reading {
            shown: plain_of(items, behind),
            calls: calls_of_items(items),
            repair: None,
            rest: Seq::empty(),
        }),
        is_moderate(text_of(items, behind), names),
    decreases items.len(),
{
    if items.len() == 0 {
        tags::lemma_find_tag(behind, names, false, 0);
        assert(calls_of_items(items) =~= Seq::<CallModel>::empty());
    } else {
        let less = items.drop_first();
        assert forall|k: int| 0 <= k < less.len() implies is_good_element(
            names,
            (#[trigger] less[k]).name,
            less[k].inner,
            less[k].arguments,
        ) && is_plain(less[k].before) by {
            assert(less[k] == items[k + 1]);
        }
        lemma_read_items(less, behind, names);
        lemma_read_item(items[0], names, text_of(less, behind));
        let call = CallModel {
            name: decode_utf8(items[0].name),
            arguments: items[0].arguments,
        };
        assert(calls_of_items(items) =~= seq![call] + calls_of_items(less));
    }
}

/// Any number of calls of different tools can follow one another in a stream. However the
/// text of their elements and the plain text around them is cut into pieces, each element
/// gives its call, in order, at its closing tag or when the answer finishes. All of the
/// plain text is shown, and nothing of the elements is. Some of the text may be held back
/// at the start. Nothing else is asked for but that no call is given up as too long.
pub proof fn law_elements_give_their_calls(
    names: Seq<Seq<u8>>,
    held: Seq<u8>,
    items: Seq<Item>,
    behind: Seq<u8>,
    pieces: Seq<Seq<u8>>,
)
    requires
        are_good(items, names),
        is_plain(behind),
        held + whole(pieces) == text_of(items, behind),
        never_gives_up(StateView::Normal { buffer: held }, names, pieces),
    ensures
        ({
            let start = StateView::Normal { buffer: held };
            let state = state_after_all(start, names, pieces);
            &&& calls_in_all(start, names, pieces) + calls_at_finish(state, names)
                == calls_of_items(items)
            &&& shown_in_all(start, names, pieces) + shown_at_finish(state, names) == plain_of(
                items,
                behind,
            )
            &&& nothing_to_mend(start, names, pieces)
            &&& stream::read_state(state, names).repair is None
        }),
{
    lemma_read_items(items, behind, names);
    law_cuts_do_not_matter(held, names, pieces);
}

/// Whether an opening tag stands in what is held back as text, and no such tag stands in a
/// code fence.
pub open spec fn holds_open_elements(state: StateView, names: Seq<Seq<u8>>) -> bool {
    match state {
        StateView::Normal { buffer } => tags::find_tag(buffer, names, false, 0) is Some && (
        forall|i: int| #[trigger]
            tags::tag_at(buffer, names, false, i) ==> !tool_parser::inside_fence(buffer, i)),
        StateView::Suppressing { body: _, name: _, open: _ } => true,
    }
}

/// What is read at the finish is also read at the end of a stream that is not finished: the
/// calls and the text of what is held back are those of [`calls_at_finish`] and
/// [`shown_at_finish`], where an element is held back and none is to be mended. Text that
/// has not been looked at is parsed like a whole answer, in which tags in code fences are
/// text.
pub proof fn law_end_reads_like_the_finish(v: StreamView, names: Seq<Seq<u8>>, first: u64)
    requires
        holds_open_elements(v.state, names),
        valid_utf8(stream::pending(v.state)),
        stream::read_state(v.state, names).repair is None,
    ensures
        ({
            let re = stream::react_to_end(v, names, first);
            let made = calls_at_finish(v.state, names);
            &&& made.len() > 0
            &&& re.out is Chunk
            &&& re.out->Chunk_0.content == stream::if_any(shown_at_finish(v.state, names))
            &&& re.out->Chunk_0.calls == Some(
                if v.state is Suppressing {
                    calls::numbered_from(made, first, v.call_index)
                } else {
                    calls::numbered(made, first)
                },
            )
            &&& re.out->Chunk_0.finish == Some("tool_calls"@)
            &&& re.next.state == (StateView::Normal { buffer: Seq::empty() })
        }),
{
    reveal(stream::read_state);
    match v.state {
        StateView::Normal { buffer } => {
            decode_utf8_encode_utf8(buffer);
            parser_laws::law_stream_and_text_agree(buffer, names);
            lemma_mended_leaves_no_rest(buffer, names);
            tags::lemma_find_tag(buffer, names, false, 0);
            let at = tags::find_tag(buffer, names, false, 0)->0;
            assert(names.contains(tags::tag_name(buffer, at)));
        },
        StateView::Suppressing { body, name, open: _ } => {
            lemma_mended_leaves_no_rest(stream::behind_body(body, name), names);
            assert(stream::read_state(v.state, names).rest =~= Seq::<u8>::empty());
        },
    }
}

/// A text is read to its end if no element is to be mended.
proof fn lemma_mended_leaves_no_rest(s: Seq<u8>, names: Seq<Seq<u8>>)
    requires
        stream::read_text(s, names).repair is None,
    ensures
        stream::read_text(s, names).rest.len() == 0,
        tags::find_tag(s, names, false, 0) is Some ==> stream::read_text(s, names).calls.len() > 0,
    decreases s.len(),
{
    stream::lemma_element_parts(s, names, Seq::empty());
    if let Some(at) = tags::find_tag(s, names, false, 0) {
        let body = s.subrange(tags::tag_end(s, at) + 1, s.len() as int);
        let name = tags::tag_name(s, at);
        stream::lemma_element_parts(body, names, name);
        lemma_mended_leaves_no_rest(stream::behind_body(body, name), names);
    }
}

// ---------------------------------------------------------------------------
// Answers without an opening tag
// ---------------------------------------------------------------------------

/// The bytes of an unfinished tag are ASCII and none of them is a quotation mark.
proof fn lemma_partial_tag_bytes(v: Seq<u8>, names: Seq<Seq<u8>>)
    requires
        tags::is_partial_tag(v, names, false),
    ensures
        forall|k: int| 0 <= k < v.len() ==> #[trigger] v[k] < 0x80 && v[k] != 0x22,
{
    let limit = tags::PARTIAL_TAG_WHITESPACE_LIMIT as nat;
    let a = tags::limited_space_end(v, 1, limit);
    lemma_limited_spaces(v, 1, limit);
    if a < v.len() {
        let to = tags::name_end(v, a + 1, v.len() as int);
        tags::lemma_name_end(v, a + 1, v.len() as int);
        lemma_limited_spaces(v, to, limit);
        assert forall|k: int| 0 <= k < v.len() implies #[trigger] v[k] < 0x80 && v[k] != 0x22 by {
            if 1 <= k < a {
                assert(tags::is_space(v[k]));
            } else if a < k < to {
                assert(tags::is_name_byte(v[k]));
            } else if to <= k {
                assert(tags::is_space(v[k]));
            }
        }
    } else {
        assert forall|k: int| 0 <= k < v.len() implies #[trigger] v[k] < 0x80 && v[k] != 0x22 by {
            if 1 <= k {
                assert(tags::is_space(v[k]));
            }
        }
    }
}

proof fn lemma_limited_spaces(s: Seq<u8>, i: int, n: nat)
    requires
        0 <= i <= s.len(),
    ensures
        i <= tags::limited_space_end(s, i, n) <= s.len(),
        forall|k: int|
            i <= k < tags::limited_space_end(s, i, n) ==> tags::is_space(#[trigger] s[k]),
    decreases n,
{
    if n > 0 && i < s.len() && tags::is_space(s[i]) {
        lemma_limited_spaces(s, i + 1, (n - 1) as nat);
    }
}

/// What an unfinished tag comes to at the end of a stream is its text.
proof fn lemma_partial_tag_is_text(v: Seq<u8>, names: Seq<Seq<u8>>)
    requires
        tags::is_partial_tag(v, names, false),
        tags::find_tag(v, names, false, 0) is None,
    ensures
        tool_parser::parsed(decode_utf8(v), names) is None,
        tool_parser::is_readable(decode_utf8(v), names),
{
    let xml = decode_utf8(v);
    lemma_partial_tag_bytes(v, names);
    text::lemma_ascii_text(v);
    parser_laws::law_ascii_text_is_readable(xml, names);
    let low = encode_utf8(text::lowercase(xml));
    text::lemma_find_from(low, encode_utf8("<invoke "@), 0);
    if let Some(at) = text::find_from(low, encode_utf8("<invoke "@), 0) {
        reveal_strlit("name=\"");
        let p = encode_utf8("name=\""@);
        is_ascii_chars_encode_utf8("name=\""@);
        assert(p.len() == 6 && p[5] == 0x22);
        text::lemma_find_from(v, p, at);
        if let Some(n) = text::find_from(v, p, at) {
            assert(v.subrange(n, n + 6)[5] == v[n + 5]);
        }
    }
}

/// A step without an opening tag stays in the normal state, and what it holds back is an
/// unfinished tag.
#[verifier::spinoff_prover]
proof fn lemma_tagless_step(names: Seq<Seq<u8>>, buffer: Seq<u8>, c: Seq<u8>)
    requires
        tags::find_tag(buffer + c, names, false, 0) is None,
    ensures
        ({
            let state = stream::state_after(
                stream::content_step(StateView::Normal { buffer }, names, c),
            );
            &&& state is Normal
            &&& state->buffer.len() == 0 || tags::is_partial_tag(state->buffer, names, false)
            &&& tags::find_tag(state->buffer, names, false, 0) is None
        }),
{
    let b = buffer + c;
    let lo = b.len() - tags::partial_window(b, names);
    tags::lemma_last_partial(b, names, false, lo, b.len() as int);
    let safe = b.len() - tags::partial_tail(b, names, false);
    let kept = b.subrange(safe, b.len() as int);
    if safe <= 0 {
        assert(kept =~= b);
    }
    assert(b.subrange(0, safe) + kept =~= b);
    tag_laws::law_first_tag_shifts(b.subrange(0, safe), kept, names, false);
}

/// While no opening tag arrives, the stream stays in the normal state, and what it holds
/// back is an unfinished tag.
#[verifier::spinoff_prover]
proof fn lemma_tagless_state(names: Seq<Seq<u8>>, pieces: Seq<Seq<u8>>)
    requires
        tags::find_tag(whole(pieces), names, false, 0) is None,
    ensures
        ({
            let start = StateView::Normal { buffer: Seq::empty() };
            let state = state_after_all(start, names, pieces);
            &&& state is Normal
            &&& state->buffer.len() == 0 || tags::is_partial_tag(state->buffer, names, false)
            &&& tags::find_tag(state->buffer, names, false, 0) is None
            &&& never_gives_up(start, names, pieces)
        }),
    decreases pieces.len(),
{
    let start = StateView::Normal { buffer: Seq::empty() };
    if pieces.len() > 0 {
        let less = pieces.drop_last();
        let c = pieces.last();
        if tags::find_tag(whole(less), names, false, 0) is Some {
            tag_laws::law_first_tag_stays_first(whole(less), c, names, false);
        }
        lemma_tagless_state(names, less);
        let buffer = state_after_all(start, names, less)->buffer;
        let b = buffer + c;
        let done = passed_all(start, names, less);
        law_stream_keeps_text(start, names, less);
        assert(done + b =~= whole(pieces)) by {
            assert(done + buffer =~= whole(less));
        }
        tag_laws::law_first_tag_shifts(done, b, names, false);
        lemma_tagless_step(names, buffer, c);
        assert forall|k: int| 0 <= k < pieces.len() implies !gives_up(
            state_after_all(start, names, pieces.take(k)),
            #[trigger] pieces[k],
        ) by {
            if k < less.len() {
                assert(less.take(k) =~= pieces.take(k));
                assert(pieces[k] == less[k]);
            } else {
                assert(pieces.take(k) =~= less);
            }
        }
    } else {
        tags::lemma_find_tag(Seq::empty(), names, false, 0);
    }
}

/// An answer without an opening tag is only delayed: however it is cut into pieces, what is
/// shown on the way, followed by what the finish, or else the end of the stream, shows, is
/// the answer. No call is made, and nothing is to be mended. What is held back at the end
/// can always be read, also behind the finish and behind the end.
#[verifier::spinoff_prover]
pub proof fn law_tagless_answer_is_kept(
    names: Seq<Seq<u8>>,
    pieces: Seq<Seq<u8>>,
    v: StreamView,
    choice: ChoiceModel,
    first: u64,
)
    requires
        tags::find_tag(whole(pieces), names, false, 0) is None,
        v.state == state_after_all(StateView::Normal { buffer: Seq::empty() }, names, pieces),
        choice.calls is None,
    ensures
        ({
            let start = StateView::Normal { buffer: Seq::empty() };
            let shown = shown_in_all(start, names, pieces);
            let finish = stream::react_to_finish(v, names, choice, first);
            let end = stream::react_to_end(v, names, first);
            &&& calls_in_all(start, names, pieces).len() == 0
            &&& nothing_to_mend(start, names, pieces)
            &&& stream::end_is_readable(v, names)
            &&& stream::end_is_readable(finish.next, names)
            &&& stream::end_is_readable(end.next, names)
            &&& finish.out is Some
            &&& shown + content_of(finish.out->0) == whole(pieces)
            &&& finish.out->0.calls is None
            &&& finish.next.repair_pending == v.repair_pending
            &&& !(end.out is Repair)
            &&& shown + end_content(end.out) == whole(pieces)
            &&& end.out is Chunk ==> end.out->Chunk_0.calls is None
            &&& end.next.repair_pending == v.repair_pending
            &&& finish.next.state == start && end.next.state == start
        }),
{
    let start = StateView::Normal { buffer: Seq::empty() };
    let none = Seq::<u8>::empty();
    reveal(stream::read_state);
    lemma_tagless_state(names, pieces);
    assert(none + whole(pieces) =~= whole(pieces));
    law_cuts_do_not_matter(none, names, pieces);
    let buffer = v.state->buffer;
    let shown = shown_in_all(start, names, pieces);
    let made = calls_in_all(start, names, pieces);
    assert(made =~= made + calls_at_finish(v.state, names));
    assert(shown + buffer =~= whole(pieces));
    if buffer.len() > 0 {
        lemma_partial_tag_is_text(buffer, names);
    } else {
        assert(buffer =~= none);
    }
    let r = stream::read_state(v.state, names);
    assert(r.shown == buffer);
    let finish = stream::react_to_finish(v, names, choice, first);
    let end = stream::react_to_end(v, names, first);
    assert(content_of(finish.out->0) == buffer);
    assert(end_content(end.out) == buffer);
}

/// The text of a choice.
pub open spec fn content_of(choice: ChoiceModel) -> Seq<u8> {
    match choice.content {
        Some(t) => t,
        None => Seq::empty(),
    }
}

/// The text that the end of a stream shows.
pub open spec fn end_content(end: EndModel) -> Seq<u8> {
    match end {
        EndModel::Chunk(m) => content_of(m),
        _ => Seq::empty(),
    }
}

// ---------------------------------------------------------------------------
// What is sent
// ---------------------------------------------------------------------------

/// A piece of text is answered with what its step comes to: the text that it shows, with a
/// choice that is otherwise as it came; its call, numbered on from the calls before; nothing,
/// where everything is held back. An element to be mended is noted.
pub proof fn law_steps_are_answered(
    v: StreamView,
    names: Seq<Seq<u8>>,
    content: Seq<u8>,
    choice: ChoiceModel,
    first: u64,
)
    requires
        choice.content == Some(content),
        content.len() > 0,
    ensures
        ({
            let step = stream::content_step(v.state, names, content);
            let re = stream::react(v, names, choice, first);
            let shown = shown_in(step);
            let made = calls_in(step);
            &&& re.next.state == stream::state_after(step)
            &&& re.next.finish_emitted == v.finish_emitted
            &&& re.ids == made.len()
            &&& re.next.has_tool_calls == (v.has_tool_calls || made.len() > 0)
            &&& re.next.call_index == calls::index_plus(v.call_index, made.len() as int)
            &&& step is Hold == re.out is None
            &&& re.out is Some ==> {
                &&& re.out->0.finish == choice.finish
                &&& shown.len() > 0 ==> re.out->0.content == Some(shown)
                &&& shown.len() == 0 && !(step is Release) ==> re.out->0.content is None
                &&& made.len() == 0 ==> re.out->0.calls == choice.calls
                &&& made.len() > 0 ==> re.out->0.calls == Some(
                    calls::numbered_from(made, first, v.call_index),
                )
            }
            &&& step is Repair ==> re.next.repair_pending == Some(stream::passed(step))
            &&& !(step is Repair) ==> re.next.repair_pending == v.repair_pending
        }),
{
    let step = stream::content_step(v.state, names, content);
    if let ContentStep::Call { call, taken: _, next: _ } = step {
        let made = seq![call];
        assert(calls::numbered_from(made, first, v.call_index) =~= seq![
            calls::made_call(call, first, v.call_index),
        ]) by {
            call_ids::lemma_number_after(first, 0, 0);
            assert(calls::index_plus(v.call_index, 0) == v.call_index);
        }
    }
}

/// A chunk without text that does not finish the answer passes as it is, and so does one with
/// an empty text.
pub proof fn law_other_chunks_pass(
    v: StreamView,
    names: Seq<Seq<u8>>,
    choice: ChoiceModel,
    first: u64,
)
    requires
        match choice.content {
            Some(t) => t.len() == 0,
            None => choice.finish is None,
        },
    ensures
        stream::react(v, names, choice, first).next == v,
        stream::react(v, names, choice, first).out == Some(choice),
        stream::react(v, names, choice, first).ids == 0,
{
}

/// The finish is answered with all that is held back: its text and its calls, numbered on from
/// the calls before. The answer then counts as finished and nothing is held back, unless an
/// element is to be mended.
pub proof fn law_finish_gives_all(
    v: StreamView,
    names: Seq<Seq<u8>>,
    choice: ChoiceModel,
    first: u64,
)
    requires
        choice.content is None,
        choice.finish is Some,
        stream::read_state(v.state, names).repair is None,
    ensures
        ({
            let re = stream::react(v, names, choice, first);
            let shown = shown_at_finish(v.state, names);
            let made = calls_at_finish(v.state, names);
            &&& re.out is Some
            &&& shown.len() > 0 ==> re.out->0.content == Some(shown)
            &&& shown.len() == 0 ==> re.out->0.content is None
            &&& made.len() > 0 ==> re.out->0.calls == Some(
                calls::numbered_from(made, first, v.call_index),
            )
            &&& made.len() == 0 ==> re.out->0.calls == choice.calls
            &&& re.out->0.finish == if (v.has_tool_calls || made.len() > 0) && choice.finish == Some(
                "stop"@,
            ) {
                Some("tool_calls"@)
            } else {
                choice.finish
            }
            &&& re.next.finish_emitted
            &&& re.next.state == (StateView::Normal { buffer: Seq::empty() })
            &&& re.next.repair_pending == v.repair_pending
            &&& re.ids == made.len()
        }),
{
    reveal(stream::read_state);
    match v.state {
        StateView::Normal { buffer } => {
            lemma_mended_leaves_no_rest(buffer, names);
        },
        StateView::Suppressing { body, name, open: _ } => {
            lemma_mended_leaves_no_rest(stream::behind_body(body, name), names);
        },
    }
    assert(stream::read_state(v.state, names).rest =~= Seq::<u8>::empty());
}

/// An element that cannot be read at the finish is noted with its tags, whatever stood before
/// and behind it; what stood behind it stays held back.
pub proof fn law_finish_notes_what_is_to_be_mended(
    v: StreamView,
    names: Seq<Seq<u8>>,
    choice: ChoiceModel,
    first: u64,
)
    requires
        choice.content is None,
        choice.finish is Some,
        stream::read_state(v.state, names).repair is Some,
    ensures
        ({
            let re = stream::react(v, names, choice, first);
            &&& re.next.repair_pending == stream::read_state(v.state, names).repair
            &&& re.next.finish_emitted == v.finish_emitted
            &&& re.next.state == (StateView::Normal {
                buffer: stream::read_state(v.state, names).rest,
            })
        }),
{
}

/// An element whose body gives no arguments is to be mended: its text with both tags, the
/// closing one also where it is missing.
pub proof fn law_unreadable_element_is_to_be_mended(
    body: Seq<u8>,
    names: Seq<Seq<u8>>,
    name: Seq<u8>,
    open: Seq<u8>,
)
    requires
        is_plain(body),
        tool_parser::body_arguments(decode_utf8(body)) is None,
    ensures
        ({
            let state = StateView::Suppressing { body, name, open };
            let r = stream::read_state(state, names);
            &&& r.repair == Some(open + body + tag_laws::plain_tag(name, true))
            &&& r.calls.len() == 0
            &&& r.shown.len() == 0
            &&& r.rest.len() == 0
        }),
{
    reveal(stream::read_state);
    tags::lemma_find_tag(body, seq![name], true, 0);
    if let Some(j) = tags::find_tag(body, seq![name], true, 0) {
        assert(body[j] != 0x3c);
    }
    reveal_strlit("</");
    reveal_strlit(">");
    is_ascii_chars_encode_utf8("</"@);
    is_ascii_chars_encode_utf8(">"@);
    assert(encode_utf8("</"@) =~= seq![0x3cu8, 0x2fu8]);
    assert(encode_utf8(">"@) =~= seq![0x3eu8]);
    assert(stream::closed_text(body, name, open) =~= open + body + tag_laws::plain_tag(name, true));
}

/// A call that grows beyond 64 KiB is given up: it is shown as the text that it was, with its
/// opening tag, and the stream looks for opening tags again. Before, nothing of it is shown.
pub proof fn law_long_calls_are_given_up(
    body: Seq<u8>,
    name: Seq<u8>,
    open: Seq<u8>,
    names: Seq<Seq<u8>>,
    content: Seq<u8>,
)
    ensures
        ({
            let step = stream::content_step(
                StateView::Suppressing { body, name, open },
                names,
                content,
            );
            if body.len() + content.len() > 64 * 1024 {
                step == (ContentStep::Release {
                    text: open + (body + content),
                    next: StateView::Normal { buffer: Seq::empty() },
                })
            } else {
                shown_in(step).len() == 0
            }
        }),
{
}

/// Chunks that are alike differ in the text, the calls and the finish reason of their first
/// choices alone.
pub proof fn law_alike_chunks(
    a: ChatCompletionsResponseChunk,
    b: ChatCompletionsResponseChunk,
    i: int,
)
    requires
        stream::alike(a, b),
    ensures
        a.id == b.id,
        a.object == b.object,
        a.created == b.created,
        a.model == b.model,
        a.usage == b.usage,
        a.service_tier == b.service_tier,
        a.system_fingerprint == b.system_fingerprint,
        a.choices@.len() == b.choices@.len(),
        1 <= i < a.choices@.len() ==> a.choices@[i] == b.choices@[i],
        a.choices@.len() > 0 ==> a.choices@[0].index == b.choices@[0].index
            && a.choices@[0].logprobs == b.choices@[0].logprobs && a.choices@[0].delta.role
            == b.choices@[0].delta.role,
{
}

/// A choice is looked at with its text, its calls and its finish reason.
pub proof fn law_choices_are_seen(c: ChunkChoice)
    ensures
        ({
            let m = stream::choice_model(c);
            &&& m.content is Some == c.delta.content is Some
            &&& c.delta.content is Some ==> m.content->0 == encode_utf8(c.delta.content->0@)
            &&& m.calls is Some == c.delta.tool_calls is Some
            &&& c.delta.tool_calls is Some ==> m.calls->0.len() == c.delta.tool_calls->0@.len()
                && forall|i: int|
                0 <= i < m.calls->0.len() ==> #[trigger] m.calls->0[i]
                    == c.delta.tool_calls->0@[i]@
            &&& m.finish is Some == c.finish_reason is Some
            &&& c.finish_reason is Some ==> m.finish->0 == c.finish_reason->0@
        }),
{
}

/// A closing chunk is one of the model with one choice, and a sign of life is one with an
/// empty call and no finish reason.
pub proof fn law_own_chunks(
    c: ChatCompletionsResponseChunk,
    model: Seq<char>,
    choice: ChoiceModel,
)
    ensures
        stream::is_end_chunk(c, model, choice) ==> c.id@ == "chatcmpl-end"@ && c.model@ == model
            && c.object@ == "chat.completion.chunk"@ && c.choices@.len() == 1
            && stream::choice_model(c.choices@[0]) == choice,
        stream::is_keepalive(c, model) ==> c.id@ == "chatcmpl-keepalive"@ && c.model@ == model
            && c.object@ == "chat.completion.chunk"@ && c.choices@.len() == 1
            && c.choices@[0].finish_reason is None && c.choices@[0].delta.content is None
            && c.choices@[0].delta.tool_calls is Some && c.choices@[0].delta.tool_calls->0@.len()
            == 1,
{
    if stream::is_keepalive(c, model) {
        let m = stream::choice_model(c.choices@[0]);
        assert(m.calls->0.len() == 1);
        law_choices_are_seen(c.choices@[0]);
    }
}

/// Signs of life are a second apart.
pub proof fn law_signs_of_life()
    ensures
        stream::KEEPALIVE_INTERVAL_SECS == 1,
{
}

/// The end within an element is answered with the element: its call where it can be read, and
/// else the text that is to be mended.
pub proof fn law_end_within_an_element(
    v: StreamView,
    body: Seq<u8>,
    name: Seq<u8>,
    open: Seq<u8>,
    names: Seq<Seq<u8>>,
    first: u64,
)
    requires
        v.state == (StateView::Suppressing { body, name, open }),
        is_plain(body),
    ensures
        ({
            let re = stream::react_to_end(v, names, first);
            match tool_parser::body_arguments(decode_utf8(body)) {
                Some(arguments) => {
                    &&& re.out is Chunk
                    &&& re.out->Chunk_0.calls == Some(
                        seq![
                            calls::made_call(
                                CallModel { name: decode_utf8(name), arguments },
                                first,
                                v.call_index,
                            ),
                        ],
                    )
                    &&& re.out->Chunk_0.content is None
                    &&& re.out->Chunk_0.finish == Some("tool_calls"@)
                    &&& re.next == (StreamView {
                        state: StateView::Normal { buffer: Seq::empty() },
                        has_tool_calls: true,
                        call_index: calls::index_plus(v.call_index, 1),
                        ..v
                    })
                    &&& re.ids == 1
                },
                None => {
                    &&& re.out == EndModel::Repair(open + body + tag_laws::plain_tag(name, true))
                    &&& re.next == (StreamView {
                        state: StateView::Normal { buffer: Seq::empty() },
                        ..v
                    })
                    &&& re.ids == 0
                },
            }
        }),
{
    reveal(stream::read_state);
    let none = Seq::<u8>::empty();
    tags::lemma_find_tag(body, seq![name], true, 0);
    if let Some(j) = tags::find_tag(body, seq![name], true, 0) {
        assert(body[j] != 0x3c);
    }
    tags::lemma_find_tag(none, names, false, 0);
    match tool_parser::body_arguments(decode_utf8(body)) {
        Some(arguments) => {
            let call = CallModel { name: decode_utf8(name), arguments };
            let r = stream::read_state(v.state, names);
            assert(stream::read_text(none, names).calls =~= Seq::<CallModel>::empty());
            assert(r.calls =~= seq![call]);
            assert(r.shown =~= none);
            assert(calls::numbered_from(r.calls, first, v.call_index) =~= seq![
                calls::made_call(call, first, v.call_index),
            ]) by {
                call_ids::lemma_number_after(first, 0, 0);
                assert(calls::index_plus(v.call_index, 0) == v.call_index);
            }
        },
        None => {
            law_unreadable_element_is_to_be_mended(body, names, name, open);
        },
    }
}

/// Text that is held back at the end is parsed like a whole answer: with calls and the text
/// without them where there are calls, and else as text.
pub proof fn law_end_with_text(v: StreamView, buffer: Seq<u8>, names: Seq<Seq<u8>>, first: u64)
    requires
        v.state == (StateView::Normal { buffer }),
        buffer.len() > 0,
    ensures
        ({
            let re = stream::react_to_end(v, names, first);
            &&& re.out is Chunk
            &&& re.next.state == (StateView::Normal { buffer: Seq::empty() })
            &&& re.next.repair_pending == v.repair_pending
            &&& match tool_parser::parsed(decode_utf8(buffer), names) {
                Some(scan) => {
                    &&& re.out->Chunk_0.calls == Some(calls::numbered(scan.calls, first))
                    &&& scan.rest.len() > 0 ==> re.out->Chunk_0.content == Some(scan.rest)
                    &&& scan.rest.len() == 0 ==> re.out->Chunk_0.content is None
                    &&& re.out->Chunk_0.finish == Some("tool_calls"@)
                    &&& re.next.has_tool_calls
                    &&& re.next.finish_emitted
                },
                None => {
                    &&& re.out->Chunk_0.calls is None
                    &&& re.out->Chunk_0.content == Some(buffer)
                    &&& re.out->Chunk_0.finish == if v.has_tool_calls {
                        Some("tool_calls"@)
                    } else {
                        Some("stop"@)
                    }
                    &&& re.next.has_tool_calls == v.has_tool_calls
                    &&& re.next.finish_emitted == v.finish_emitted
                },
            }
            &&& re.next.call_index == v.call_index
            &&& re.ids == tool_parser::ids_used(decode_utf8(buffer), names)
        }),
{
}

/// An end with nothing held back is told once, if the answer was not finished.
pub proof fn law_end_of_all(v: StreamView, names: Seq<Seq<u8>>, first: u64)
    requires
        v.state == (StateView::Normal { buffer: Seq::empty() }),
    ensures
        ({
            let re = stream::react_to_end(v, names, first);
            &&& v.finish_emitted ==> re.out is Done && re.next == v
            &&& !v.finish_emitted ==> re.out is Chunk && re.out->Chunk_0.content is None
                && re.out->Chunk_0.calls is None && re.next == (StreamView {
                finish_emitted: true,
                ..v
            })
            &&& re.ids == 0
        }),
{
}

/// An element to be mended is told before anything else, at the first attempt of a poll, and
/// once. A sign of life is sent only while a call is collected, and a second after the last.
/// Nothing else of the stream changes.
pub proof fn law_polls(v: StreamView, first_attempt: bool, elapsed_secs: u64, later: u64)
    ensures
        ({
            let (start, next) = stream::poll_start(v, first_attempt, elapsed_secs);
            &&& next == (StreamView { repair_pending: next.repair_pending, ..v })
            &&& start is Repair ==> v.repair_pending == Some(start->0) && next.repair_pending
                is None && !(stream::poll_start(next, true, later).0 is Repair)
            &&& !(start is Repair) ==> next == v
            &&& start is Repair == (first_attempt && v.repair_pending is Some)
            &&& start is Keepalive ==> v.state is Suppressing && elapsed_secs >= 1
            &&& v.state is Normal && v.repair_pending is None ==> start is Next
            &&& v.state is Suppressing && elapsed_secs >= 1 && !(start is Repair) ==> start
                is Keepalive
        }),
{
}

} // verus!
