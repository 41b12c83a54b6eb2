//! Tool calls in an answer that arrives in pieces.
//!
//! [`ToolCallStream`] is the state between two chunks. Whoever drives a stream hands it
//! every chunk and the end of the stream, and passes on what it gives back. In the normal
//! state text is released as soon as it cannot belong to a tag. From an opening tag on, the
//! text is collected until the closing tag, and becomes a tool call.

use std::sync::Arc;
use vstd::prelude::*;
use vstd::utf8::*;

use crate::call_ids;
use crate::call_ids::CallIds;
use crate::calls;
use crate::calls::CallModel;
use crate::tags;
use crate::tags::{
    find_first_xml_tool_tag, floor_char_boundary, get_partial_xml_tool_tag_tail_length,
};
use crate::text;
use crate::text::{cat3, slice, str_eq};
use crate::tool_parser;
use crate::tool_parser::{
    can_parse_tool_calls, parse_tool_call_body, parse_tool_calls_with, TagConfig,
};
use crate::types;
use crate::types::{
    ChatCompletionsResponseChunk, ChunkChoice, Delta, FunctionCall, ToolCall, ToolCallView,
};

verus! {

/// How many bytes of a tool call are collected before they are given up as text.
pub const MAX_XML_BUF_LEN: usize = 65536;

/// How many seconds may pass without a chunk while a tool call is collected.
pub const KEEPALIVE_INTERVAL_SECS: u64 = 1;

// ---------------------------------------------------------------------------
// The model
// ---------------------------------------------------------------------------

/// What the stream holds back.
pub enum StateView {
    /// Text that may be the start of an opening tag.
    Normal { buffer: Seq<u8> },
    /// A tool call: its opening tag, its name and the text behind the tag.
    Suppressing { body: Seq<u8>, name: Seq<u8>, open: Seq<u8> },
}

/// The text that the stream holds back.
pub open spec fn pending(state: StateView) -> Seq<u8> {
    match state {
        StateView::Normal { buffer } => buffer,
        StateView::Suppressing { body, name: _, open } => open + body,
    }
}

/// What a piece of text leads to.
pub enum ContentStep {
    /// Text is released.
    Release { text: Seq<u8>, next: StateView },
    /// An opening tag was found; the text before it is released, if there is any.
    Open { text: Seq<u8>, next: StateView },
    /// Everything is held back.
    Hold { next: StateView },
    /// A tool call was read from the element `taken`.
    Call { call: CallModel, taken: Seq<u8>, next: StateView },
    /// The element `taken` is no tool call and is to be mended.
    Repair { taken: Seq<u8>, next: StateView },
}

/// The step for a non-empty piece of text.
pub open spec fn content_step(
    state: StateView,
    names: Seq<Seq<u8>>,
    content: Seq<u8>,
) -> ContentStep {
    match state {
        StateView::Normal { buffer } => {
            let b = buffer + content;
            match tags::find_tag(b, names, false, 0) {
                Some(at) => {
                    let end = tags::tag_end(b, at) + 1;
                    ContentStep::Open {
                        text: b.subrange(0, at),
                        next: StateView::Suppressing {
                            body: b.subrange(end, b.len() as int),
                            name: tags::tag_name(b, at),
                            open: b.subrange(at, end),
                        },
                    }
                },
                None => {
                    let safe = b.len() - tags::partial_tail(b, names, false);
                    if safe > 0 {
                        ContentStep::Release {
                            text: b.subrange(0, safe),
                            next: StateView::Normal { buffer: b.subrange(safe, b.len() as int) },
                        }
                    } else {
                        ContentStep::Hold { next: StateView::Normal { buffer: b } }
                    }
                },
            }
        },
        StateView::Suppressing { body, name, open } => {
            let b = body + content;
            if b.len() > MAX_XML_BUF_LEN {
                ContentStep::Release {
                    text: open + b,
                    next: StateView::Normal { buffer: Seq::empty() },
                }
            } else {
                match tags::find_tag(b, seq![name], true, 0) {
                    Some(at) => {
                        let end = tags::tag_end(b, at) + 1;
                        let inner = b.subrange(0, at);
                        let next = StateView::Normal { buffer: b.subrange(end, b.len() as int) };
                        let taken = open + inner + b.subrange(at, end);
                        match tool_parser::body_arguments(decode_utf8(inner)) {
                            Some(arguments) => ContentStep::Call {
                                call: CallModel { name: decode_utf8(name), arguments },
                                taken,
                                next,
                            },
                            None => ContentStep::Repair { taken, next },
                        }
                    },
                    None => ContentStep::Hold {
                        next: StateView::Suppressing { body: b, name, open },
                    },
                }
            }
        },
    }
}

/// What a step is followed by.
pub open spec fn state_after(step: ContentStep) -> StateView {
    match step {
        ContentStep::Release { text: _, next } => next,
        ContentStep::Open { text: _, next } => next,
        ContentStep::Hold { next } => next,
        ContentStep::Call { call: _, taken: _, next } => next,
        ContentStep::Repair { taken: _, next } => next,
    }
}

/// The text that a step lets go of: what it releases, or the element that it takes.
pub open spec fn passed(step: ContentStep) -> Seq<u8> {
    match step {
        ContentStep::Release { text, next: _ } => text,
        ContentStep::Open { text, next: _ } => text,
        ContentStep::Hold { next: _ } => Seq::empty(),
        ContentStep::Call { call: _, taken, next: _ } => taken,
        ContentStep::Repair { taken, next: _ } => taken,
    }
}

/// The body of a call whose element may have no closing tag.
pub open spec fn open_body(body: Seq<u8>, name: Seq<u8>) -> Seq<u8> {
    match tags::find_tag(body, seq![name], true, 0) {
        Some(at) => body.subrange(0, at),
        None => body,
    }
}

/// The text of an element that was closed by the end of the answer.
pub open spec fn closed_text(body: Seq<u8>, name: Seq<u8>, open: Seq<u8>) -> Seq<u8> {
    open + open_body(body, name) + encode_utf8("</"@) + name + encode_utf8(">"@)
}

/// What stands behind the closing tag of a call, nothing where there is no closing tag.
pub open spec fn behind_body(body: Seq<u8>, name: Seq<u8>) -> Seq<u8> {
    match tags::find_tag(body, seq![name], true, 0) {
        Some(at) => body.subrange(tags::tag_end(body, at) + 1, body.len() as int),
        None => Seq::empty(),
    }
}

/// What a text comes to when no more text follows.
#[verifier::ext_equal]
pub struct Reading {
    /// The text outside of elements.
    pub shown: Seq<u8>,
    /// The calls of the elements, in order.
    pub calls: Seq<CallModel>,
    /// The first element that is no call. The reading ends with it.
    pub repair: Option<Seq<u8>>,
    /// What stands behind an element that is no call.
    pub rest: Seq<u8>,
}

/// A reading that begins with some text and some calls.
pub open spec fn preceded(shown: Seq<u8>, calls: Seq<CallModel>, r: Reading) -> Reading {
    Reading { shown: shown + r.shown, calls: calls + r.calls, ..r }
}

/// What precedes a reading adds up.
pub proof fn lemma_preceded(
    shown: Seq<u8>,
    calls: Seq<CallModel>,
    more_shown: Seq<u8>,
    more_calls: Seq<CallModel>,
    r: Reading,
)
    ensures
        preceded(shown, calls, preceded(more_shown, more_calls, r)) == preceded(
            shown + more_shown,
            calls + more_calls,
            r,
        ),
{
    assert(shown + (more_shown + r.shown) =~= (shown + more_shown) + r.shown);
    assert(calls + (more_calls + r.calls) =~= (calls + more_calls) + r.calls);
}

/// The parts of an element stand in its text.
pub proof fn lemma_element_parts(s: Seq<u8>, names: Seq<Seq<u8>>, name: Seq<u8>)
    ensures
        match tags::find_tag(s, names, false, 0) {
            Some(at) => 0 <= at < tags::tag_end(s, at) + 1 <= s.len(),
            None => true,
        },
        match tags::find_tag(s, seq![name], true, 0) {
            Some(at) => 0 <= at < tags::tag_end(s, at) + 1 <= s.len(),
            None => true,
        },
        behind_body(s, name).len() <= s.len(),
{
    tags::lemma_find_tag(s, names, false, 0);
    if let Some(at) = tags::find_tag(s, names, false, 0) {
        tags::lemma_byte_from(s, 0x3e, at + 1);
    }
    tags::lemma_find_tag(s, seq![name], true, 0);
    if let Some(at) = tags::find_tag(s, seq![name], true, 0) {
        tags::lemma_byte_from(s, 0x3e, at + 1);
    }
}

/// What a text comes to: the text before the first opening tag, and what follows the tag.
pub open spec fn read_text(s: Seq<u8>, names: Seq<Seq<u8>>) -> Reading
    decreases s.len(), 0int,
{
    match tags::find_tag(s, names, false, 0) {
        Some(at) => {
            let end = tags::tag_end(s, at) + 1;
            proof {
                lemma_element_parts(s, names, Seq::empty());
            }
            preceded(
                s.subrange(0, at),
                Seq::empty(),
                read_element(
                    s.subrange(end, s.len() as int),
                    names,
                    tags::tag_name(s, at),
                    s.subrange(at, end),
                ),
            )
        },
        None => Reading { shown: s, calls: Seq::empty(), repair: None, rest: Seq::empty() },
    }
}

/// What a text behind an opening tag comes to: the call, and the text behind its closing
/// tag. An element without a closing tag reaches to the end.
pub open spec fn read_element(
    body: Seq<u8>,
    names: Seq<Seq<u8>>,
    name: Seq<u8>,
    open: Seq<u8>,
) -> Reading
    decreases body.len(), 1int,
{
    let rest = behind_body(body, name);
    proof {
        lemma_element_parts(body, names, name);
    }
    match tool_parser::body_arguments(decode_utf8(open_body(body, name))) {
        Some(arguments) => preceded(
            Seq::empty(),
            seq![CallModel { name: decode_utf8(name), arguments }],
            read_text(rest, names),
        ),
        None => Reading {
            shown: Seq::empty(),
            calls: Seq::empty(),
            repair: Some(closed_text(body, name, open)),
            rest,
        },
    }
}

/// What the text that the stream holds back comes to when no more text follows.
#[verifier::opaque]
pub open spec fn read_state(state: StateView, names: Seq<Seq<u8>>) -> Reading {
    match state {
        StateView::Normal { buffer } => read_text(buffer, names),
        StateView::Suppressing { body, name, open } => read_element(body, names, name, open),
    }
}

/// The fields of a choice that the stream reads and changes.
#[verifier::ext_equal]
pub struct ChoiceModel {
    pub content: Option<Seq<u8>>,
    pub calls: Option<Seq<ToolCallView>>,
    pub finish: Option<Seq<char>>,
}

/// The fields of the stream that change.
#[verifier::ext_equal]
pub struct StreamView {
    pub state: StateView,
    pub has_tool_calls: bool,
    pub finish_emitted: bool,
    pub repair_pending: Option<Seq<u8>>,
    pub call_index: u32,
}

/// The stream and the choice after a chunk, and the number of identifiers taken. There is
/// no choice where the chunk is held back.
pub struct Reaction {
    pub next: StreamView,
    pub out: Option<ChoiceModel>,
    pub ids: int,
}

/// The stream after some more calls.
pub open spec fn after_calls(v: StreamView, n: int) -> StreamView {
    StreamView {
        has_tool_calls: v.has_tool_calls || n > 0,
        call_index: calls::index_plus(v.call_index, n),
        ..v
    }
}

/// A text, unless it is empty.
pub open spec fn if_any(s: Seq<u8>) -> Option<Seq<u8>> {
    if s.len() == 0 {
        None
    } else {
        Some(s)
    }
}

/// The reason with which an answer that holds tool calls finishes.
pub open spec fn call_finish(finish: Option<Seq<char>>) -> Option<Seq<char>> {
    if finish == Some("stop"@) {
        Some("tool_calls"@)
    } else {
        finish
    }
}

/// The reaction to a choice with a non-empty piece of text.
pub open spec fn react_to_content(
    v: StreamView,
    names: Seq<Seq<u8>>,
    content: Seq<u8>,
    choice: ChoiceModel,
    first: u64,
) -> Reaction {
    let step = content_step(v.state, names, content);
    let next = StreamView { state: state_after(step), ..v };
    match step {
        ContentStep::Release { text, next: _ } => Reaction {
            next,
            out: Some(ChoiceModel { content: Some(text), ..choice }),
            ids: 0,
        },
        ContentStep::Open { text, next: _ } => Reaction {
            next,
            out: Some(
                ChoiceModel { content: if_any(text), ..choice },
            ),
            ids: 0,
        },
        ContentStep::Hold { next: _ } => Reaction { next, out: None, ids: 0 },
        ContentStep::Call { call, taken: _, next: state } => Reaction {
            next: StreamView { state, ..after_calls(v, 1) },
            out: Some(
                ChoiceModel {
                    content: None,
                    calls: Some(seq![calls::made_call(call, first, v.call_index)]),
                    ..choice
                },
            ),
            ids: 1,
        },
        ContentStep::Repair { taken, next: _ } => Reaction {
            next: StreamView { repair_pending: Some(taken), ..next },
            out: Some(ChoiceModel { content: None, ..choice }),
            ids: 0,
        },
    }
}

/// The stream after what it held back was read.
pub open spec fn after_reading(v: StreamView, r: Reading) -> StreamView {
    StreamView {
        state: StateView::Normal { buffer: r.rest },
        repair_pending: if r.repair is Some {
            r.repair
        } else {
            v.repair_pending
        },
        ..after_calls(v, r.calls.len() as int)
    }
}

/// The reaction to a choice without text that finishes the answer: what was held back is
/// read to its end. The answer counts as finished unless an element is left to be mended.
pub open spec fn react_to_finish(
    v: StreamView,
    names: Seq<Seq<u8>>,
    choice: ChoiceModel,
    first: u64,
) -> Reaction {
    let r = read_state(v.state, names);
    let next = after_reading(v, r);
    Reaction {
        next: StreamView { finish_emitted: v.finish_emitted || r.repair is None, ..next },
        out: Some(
            ChoiceModel {
                content: if_any(r.shown),
                calls: if r.calls.len() == 0 {
                    choice.calls
                } else {
                    Some(calls::numbered_from(r.calls, first, v.call_index))
                },
                finish: if next.has_tool_calls && (r.repair is None || r.calls.len() > 0) {
                    call_finish(choice.finish)
                } else {
                    choice.finish
                },
            },
        ),
        ids: r.calls.len() as int,
    }
}

/// The reaction to the first choice of a chunk.
pub open spec fn react(
    v: StreamView,
    names: Seq<Seq<u8>>,
    choice: ChoiceModel,
    first: u64,
) -> Reaction {
    match choice.content {
        Some(content) => if content.len() == 0 {
            Reaction { next: v, out: Some(choice), ids: 0 }
        } else {
            react_to_content(v, names, content, choice, first)
        },
        None => if choice.finish is Some {
            react_to_finish(v, names, choice, first)
        } else {
            Reaction { next: v, out: Some(choice), ids: 0 }
        },
    }
}

/// What the end of the stream gives.
pub enum EndModel {
    /// A last chunk with this choice.
    Chunk(ChoiceModel),
    /// An element to be mended.
    Repair(Seq<u8>),
    /// Nothing more.
    Done,
}

/// The stream after its end, what the end gives and the number of identifiers taken.
pub struct EndReaction {
    pub next: StreamView,
    pub out: EndModel,
    pub ids: int,
}

/// The reason with which the stream itself finishes an answer.
pub open spec fn own_finish(v: StreamView) -> Option<Seq<char>> {
    if v.has_tool_calls {
        Some("tool_calls"@)
    } else {
        Some("stop"@)
    }
}

/// The reaction to the end of the stream within an element: what is held back is read to
/// its end. An element to be mended is told at once where nothing comes before it.
pub open spec fn end_with_element(v: StreamView, names: Seq<Seq<u8>>, first: u64) -> EndReaction {
    let r = read_state(v.state, names);
    let next = after_reading(v, r);
    if r.repair is Some && r.calls.len() == 0 && r.shown.len() == 0 {
        EndReaction {
            next: StreamView { repair_pending: v.repair_pending, ..next },
            out: EndModel::Repair(r.repair->0),
            ids: 0,
        }
    } else {
        EndReaction {
            next,
            out: EndModel::Chunk(
                ChoiceModel {
                    content: if_any(r.shown),
                    calls: if r.calls.len() == 0 {
                        None
                    } else {
                        Some(calls::numbered_from(r.calls, first, v.call_index))
                    },
                    finish: own_finish(next),
                },
            ),
            ids: r.calls.len() as int,
        }
    }
}

/// The reaction to the end of the stream where text is held back that has not been looked
/// at to its end. It is parsed like a whole answer: it may hold elements, or calls in the
/// fallback format. The calls are numbered as those of a whole answer.
pub open spec fn end_with_text(
    v: StreamView,
    buffer: Seq<u8>,
    names: Seq<Seq<u8>>,
    first: u64,
) -> EndReaction {
    let empty = StateView::Normal { buffer: Seq::empty() };
    let xml = decode_utf8(buffer);
    match tool_parser::parsed(xml, names) {
        Some(p) => EndReaction {
            next: StreamView { state: empty, has_tool_calls: true, finish_emitted: true, ..v },
            out: EndModel::Chunk(
                ChoiceModel {
                    content: if_any(p.rest),
                    calls: Some(calls::numbered(p.calls, first)),
                    finish: Some("tool_calls"@),
                },
            ),
            ids: tool_parser::ids_used(xml, names),
        },
        None => EndReaction {
            next: StreamView { state: empty, ..v },
            out: EndModel::Chunk(
                ChoiceModel { content: Some(buffer), calls: None, finish: own_finish(v) },
            ),
            ids: tool_parser::ids_used(xml, names),
        },
    }
}

/// The reaction to the end of the stream.
pub open spec fn react_to_end(v: StreamView, names: Seq<Seq<u8>>, first: u64) -> EndReaction {
    if v.state is Suppressing {
        end_with_element(v, names, first)
    } else if pending(v.state).len() > 0 {
        end_with_text(v, pending(v.state), names, first)
    } else if !v.finish_emitted {
        EndReaction {
            next: StreamView { finish_emitted: true, ..v },
            out: EndModel::Chunk(
                ChoiceModel { content: None, calls: None, finish: own_finish(v) },
            ),
            ids: 0,
        }
    } else {
        EndReaction { next: v, out: EndModel::Done, ids: 0 }
    }
}

/// Whether the text that the stream holds back can be parsed at the end of the stream.
pub open spec fn end_is_readable(v: StreamView, names: Seq<Seq<u8>>) -> bool {
    v.state is Suppressing || pending(v.state).len() == 0 || tool_parser::is_readable(
        decode_utf8(pending(v.state)),
        names,
    )
}

// ---------------------------------------------------------------------------
// The stream
// ---------------------------------------------------------------------------

/// What the stream holds back.
#[derive(Debug)]
pub enum ToolParseState {
    /// Looking for an opening tag.
    Normal { buffer: String },
    /// Collecting the body of a call up to its closing tag.
    Suppressing { body: String, tool_name: String, open_tag: String },
}

impl View for ToolParseState {
    type V = StateView;

    open spec fn view(&self) -> StateView {
        match self {
            ToolParseState::Normal { buffer } => StateView::Normal { buffer: encode_utf8(buffer@) },
            ToolParseState::Suppressing { body, tool_name, open_tag } => StateView::Suppressing {
                body: encode_utf8(body@),
                name: encode_utf8(tool_name@),
                open: encode_utf8(open_tag@),
            },
        }
    }
}

/// The state of a stream of chunks.
pub struct ToolCallStream {
    pub state: ToolParseState,
    pub model: String,
    pub has_tool_calls: bool,
    pub finish_emitted: bool,
    pub repair_pending: Option<String>,
    pub tag_config: Arc<TagConfig>,
    pub call_index: u32,
}

impl View for ToolCallStream {
    type V = StreamView;

    open spec fn view(&self) -> StreamView {
        StreamView {
            state: self.state@,
            has_tool_calls: self.has_tool_calls,
            finish_emitted: self.finish_emitted,
            repair_pending: match self.repair_pending {
                Some(t) => Some(encode_utf8(t@)),
                None => None,
            },
            call_index: self.call_index,
        }
    }
}

/// The fields of a choice that the stream reads and changes.
pub open spec fn choice_model(c: ChunkChoice) -> ChoiceModel {
    ChoiceModel {
        content: match c.delta.content {
            Some(t) => Some(encode_utf8(t@)),
            None => None,
        },
        calls: match c.delta.tool_calls {
            Some(v) => Some(types::call_views(v@)),
            None => None,
        },
        finish: match c.finish_reason {
            Some(f) => Some(f@),
            None => None,
        },
    }
}

/// Whether two chunks differ at most in the text, the calls and the finish reason of their
/// first choices.
pub open spec fn alike(a: ChatCompletionsResponseChunk, b: ChatCompletionsResponseChunk) -> bool {
    &&& a.id == b.id
    &&& a.object == b.object
    &&& a.created == b.created
    &&& a.model == b.model
    &&& a.usage == b.usage
    &&& a.service_tier == b.service_tier
    &&& a.system_fingerprint == b.system_fingerprint
    &&& a.choices@.len() == b.choices@.len()
    &&& forall|i: int| 1 <= i < a.choices@.len() ==> a.choices@[i] == b.choices@[i]
    &&& a.choices@.len() > 0 ==> {
        &&& a.choices@[0].index == b.choices@[0].index
        &&& a.choices@[0].logprobs == b.choices@[0].logprobs
        &&& a.choices@[0].delta.role == b.choices@[0].delta.role
    }
}

/// What the stream makes of the end.
#[derive(Debug)]
pub enum StreamEnd {
    /// A last chunk.
    Chunk(ChatCompletionsResponseChunk),
    /// The text of a call that could not be read.
    Repair(String),
    /// Nothing more.
    Done,
}

/// What a poll of the stream begins with.
#[derive(Debug)]
pub enum PollStart {
    /// Tell that a call could not be read, with its text.
    Repair(String),
    /// Send a sign of life.
    Keepalive(ChatCompletionsResponseChunk),
    /// Ask for the next chunk.
    Next,
}

/// What a poll of the stream begins with, and the stream after it.
pub enum PollModel {
    /// The text of a call that could not be read is told.
    Repair(Seq<u8>),
    /// A sign of life is sent.
    Keepalive,
    /// The next chunk is asked for.
    Next,
}

/// What a poll begins with, so many whole seconds after the last sign of life, and the stream
/// after it.
pub open spec fn poll_start(v: StreamView, first_attempt: bool, elapsed_secs: u64) -> (
    PollModel,
    StreamView,
) {
    if first_attempt && v.repair_pending is Some {
        (PollModel::Repair(v.repair_pending->0), StreamView { repair_pending: None, ..v })
    } else if v.state is Suppressing && elapsed_secs >= KEEPALIVE_INTERVAL_SECS {
        (PollModel::Keepalive, v)
    } else {
        (PollModel::Next, v)
    }
}

/// Whether a chunk is the sign of life of a model: a chunk with an empty tool call.
pub open spec fn is_keepalive(c: ChatCompletionsResponseChunk, model: Seq<char>) -> bool {
    &&& c.id@ == "chatcmpl-keepalive"@
    &&& c.object@ == "chat.completion.chunk"@
    &&& c.created == 0
    &&& c.model@ == model
    &&& c.usage is None
    &&& c.service_tier is None
    &&& c.system_fingerprint is None
    &&& c.choices@.len() == 1
    &&& c.choices@[0].index == 0
    &&& c.choices@[0].logprobs is None
    &&& c.choices@[0].delta.role is None
    &&& choice_model(c.choices@[0]) == (ChoiceModel {
        content: None,
        calls: Some(
            seq![
                ToolCallView {
                    id: Seq::empty(),
                    ty: "function"@,
                    function: Some(
                        types::FunctionCallView { name: Seq::empty(), arguments: Seq::empty() },
                    ),
                    custom: None,
                    index: 0,
                },
            ],
        ),
        finish: None,
    })
}

/// Whether a chunk is the closing chunk of a model with the given choice.
pub open spec fn is_end_chunk(
    c: ChatCompletionsResponseChunk,
    model: Seq<char>,
    choice: ChoiceModel,
) -> bool {
    &&& c.id@ == "chatcmpl-end"@
    &&& c.object@ == "chat.completion.chunk"@
    &&& c.created == 0
    &&& c.model@ == model
    &&& c.usage is None
    &&& c.service_tier is None
    &&& c.system_fingerprint is None
    &&& c.choices@.len() == 1
    &&& c.choices@[0].index == 0
    &&& c.choices@[0].logprobs is None
    &&& c.choices@[0].delta.role is None
    &&& choice_model(c.choices@[0]) == choice
}

/// The closing chunk with a delta and a finish reason.
pub fn make_end_chunk(model: &str, delta: Delta, finish_reason: &'static str) -> (r:
    ChatCompletionsResponseChunk)
    ensures
        r.id@ == "chatcmpl-end"@,
        r.object@ == "chat.completion.chunk"@,
        r.created == 0,
        r.model@ == model@,
        r.usage is None,
        r.service_tier is None,
        r.system_fingerprint is None,
        r.choices@.len() == 1,
        r.choices@[0].index == 0,
        r.choices@[0].logprobs is None,
        r.choices@[0].delta == delta,
        r.choices@[0].finish_reason == Some(finish_reason),
{
    let mut choices: Vec<ChunkChoice> = Vec::new();
    choices.push(
        ChunkChoice { index: 0, delta, finish_reason: Some(finish_reason), logprobs: None },
    );
    ChatCompletionsResponseChunk {
        id: "chatcmpl-end".to_owned(),
        object: "chat.completion.chunk",
        created: 0,
        model: model.to_owned(),
        choices,
        usage: None,
        service_tier: None,
        system_fingerprint: None,
    }
}

/// The finish reason of an answer that holds tool calls.
fn finish_with_calls(finish: Option<&'static str>) -> (r: Option<&'static str>)
    ensures
        match r {
            Some(f) => call_finish(
                match finish {
                    Some(g) => Some(g@),
                    None => None,
                },
            ) == Some(f@),
            None => finish is None,
        },
{
    match finish {
        Some(f) => if str_eq(f, "stop") {
            Some("tool_calls")
        } else {
            Some(f)
        },
        None => None,
    }
}

/// The text of an opening tag, a body and a closing tag.
fn element_text(open_tag: &str, body: &str, tool_name: &str) -> (r: String)
    ensures
        encode_utf8(r@) == encode_utf8(open_tag@) + encode_utf8(body@) + encode_utf8("</"@)
            + encode_utf8(tool_name@) + encode_utf8(">"@),
{
    let mut out = cat3(open_tag, body, "</");
    proof {
        text::lemma_encode_concat(open_tag@, body@);
        text::lemma_encode_concat(open_tag@ + body@, "</"@);
        text::lemma_encode_concat(open_tag@ + body@ + "</"@, tool_name@);
        text::lemma_encode_concat(open_tag@ + body@ + "</"@ + tool_name@, ">"@);
    }
    out.append(tool_name);
    out.append(">");
    out
}

/// The body of a call whose element may have no closing tag, and what stands behind the
/// closing tag.
fn split_body(body: &str, tool_name: &str) -> (r: (String, String))
    ensures
        encode_utf8(r.0@) == open_body(encode_utf8(body@), encode_utf8(tool_name@)),
        encode_utf8(r.1@) == behind_body(encode_utf8(body@), encode_utf8(tool_name@)),
{
    let mut single: Vec<String> = Vec::new();
    single.push(tool_name.to_owned());
    assert(tags::name_list(single@) =~= seq![encode_utf8(tool_name@)]);
    proof {
        encode_utf8_valid_utf8(body@);
        is_char_boundary_start_end_of_seq(encode_utf8(body@));
    }
    let total: usize = body.as_bytes().len();
    match find_first_xml_tool_tag(body, single.as_slice(), true, 0) {
        Some(close) => (
            slice(body, 0, close.index).to_owned(),
            slice(body, close.end_index, total).to_owned(),
        ),
        None => {
            let rest = String::new();
            assert(encode_utf8(rest@) =~= Seq::<u8>::empty());
            (body.to_owned(), rest)
        },
    }
}

/// What the text that a stream held back comes to.
struct Drained {
    shown: String,
    calls: Vec<ToolCall>,
    repair: Option<String>,
    rest: String,
}

/// How far a reading has come: what has been shown and made, the stream and the next
/// identifier after it, and what is left to read.
#[verifier::opaque]
spec fn has_read(
    whole: Reading,
    names: Seq<Seq<u8>>,
    start: StreamView,
    first: u64,
    models: Seq<CallModel>,
    shown: Seq<u8>,
    made: Seq<ToolCallView>,
    now: StreamView,
    next: u64,
    left: StateView,
) -> bool {
    &&& whole == preceded(shown, models, read_state(left, names))
    &&& made == calls::numbered_from(models, first, start.call_index)
    &&& now == after_calls(start, models.len() as int)
    &&& next == call_ids::number_after(first, models.len() as int)
}

proof fn lemma_read_nothing(names: Seq<Seq<u8>>, start: StreamView, first: u64, left: StateView)
    ensures
        has_read(
            read_state(left, names),
            names,
            start,
            first,
            Seq::empty(),
            Seq::empty(),
            Seq::empty(),
            start,
            first,
            left,
        ),
{
    reveal(has_read);
    let r = read_state(left, names);
    call_ids::lemma_number_after(first, 0, 0);
    assert(r =~= preceded(Seq::empty(), Seq::empty(), r));
    assert(calls::numbered_from(Seq::empty(), first, start.call_index) =~= Seq::<
        ToolCallView,
    >::empty());
}

proof fn lemma_read_text(
    whole: Reading,
    names: Seq<Seq<u8>>,
    start: StreamView,
    first: u64,
    models: Seq<CallModel>,
    shown: Seq<u8>,
    made: Seq<ToolCallView>,
    now: StreamView,
    next: u64,
    left: StateView,
    head: Seq<u8>,
    element: StateView,
)
    requires
        has_read(whole, names, start, first, models, shown, made, now, next, left),
        read_state(left, names) == preceded(head, Seq::empty(), read_state(element, names)),
    ensures
        has_read(whole, names, start, first, models, shown + head, made, now, next, element),
{
    reveal(has_read);
    let none = Seq::<CallModel>::empty();
    lemma_preceded(shown, models, head, none, read_state(element, names));
    assert(models + none =~= models);
}

proof fn lemma_read_call(
    whole: Reading,
    names: Seq<Seq<u8>>,
    start: StreamView,
    first: u64,
    models: Seq<CallModel>,
    shown: Seq<u8>,
    made: Seq<ToolCallView>,
    now: StreamView,
    next: u64,
    left: StateView,
    model: CallModel,
    rest: StateView,
)
    requires
        has_read(whole, names, start, first, models, shown, made, now, next, left),
        read_state(left, names) == preceded(Seq::empty(), seq![model], read_state(rest, names)),
    ensures
        has_read(
            whole,
            names,
            start,
            first,
            models.push(model),
            shown,
            made.push(calls::made_call(model, next, now.call_index)),
            after_calls(now, 1),
            call_ids::number_after(next, 1),
            rest,
        ),
{
    reveal(has_read);
    let none = Seq::<u8>::empty();
    lemma_preceded(shown, models, none, seq![model], read_state(rest, names));
    assert(shown + none =~= shown);
    assert(models + seq![model] =~= models.push(model));
    calls::lemma_numbered_push(models, model, first, start.call_index);
    call_ids::lemma_number_after(first, models.len() as int, 1);
}

proof fn lemma_read_all(
    whole: Reading,
    names: Seq<Seq<u8>>,
    start: StreamView,
    first: u64,
    models: Seq<CallModel>,
    shown: Seq<u8>,
    made: Seq<ToolCallView>,
    now: StreamView,
    next: u64,
    left: StateView,
)
    requires
        has_read(whole, names, start, first, models, shown, made, now, next, left),
        read_state(left, names).calls.len() == 0,
    ensures
        whole.shown == shown + read_state(left, names).shown,
        whole.calls == models,
        whole.repair == read_state(left, names).repair,
        whole.rest == read_state(left, names).rest,
        made == calls::numbered_from(models, first, start.call_index),
        now == after_calls(start, models.len() as int),
        next == call_ids::number_after(first, models.len() as int),
{
    reveal(has_read);
    assert(models + read_state(left, names).calls =~= models);
}

/// A text, unless it is empty.
fn some_text(s: String) -> (r: Option<String>)
    ensures
        match r {
            Some(t) => if_any(encode_utf8(s@)) == Some(encode_utf8(t@)),
            None => if_any(encode_utf8(s@)) is None,
        },
{
    proof {
        text::lemma_encode_empty(s@);
    }
    if s.as_str().is_empty() {
        None
    } else {
        Some(s)
    }
}

impl ToolCallStream {
    /// The encodings of the tool names that the stream looks for.
    pub open spec fn names(&self) -> Seq<Seq<u8>> {
        tags::name_list(self.tag_config.tool_names@)
    }

    /// A stream at its start.
    pub fn new(model: String, tag_config: Arc<TagConfig>) -> (r: Self)
        ensures
            r@ == (StreamView {
                state: StateView::Normal { buffer: Seq::empty() },
                has_tool_calls: false,
                finish_emitted: false,
                repair_pending: None,
                call_index: 0,
            }),
            r.model == model,
            r.tag_config == tag_config,
    {
        ToolCallStream {
            state: ToolParseState::Normal { buffer: String::new() },
            model,
            has_tool_calls: false,
            finish_emitted: false,
            repair_pending: None,
            tag_config,
            call_index: 0,
        }
    }

    /// The text of a call that could not be read, once.
    pub fn take_repair(&mut self) -> (r: Option<String>)
        ensures
            match r {
                Some(t) => old(self)@.repair_pending == Some(encode_utf8(t@)),
                None => old(self)@.repair_pending is None,
            },
            final(self)@ == (StreamView { repair_pending: None, ..old(self)@ }),
            final(self).model == old(self).model,
            final(self).tag_config == old(self).tag_config,
    {
        let mut taken: Option<String> = None;
        std::mem::swap(&mut taken, &mut self.repair_pending);
        taken
    }

    /// Whether a sign of life is due, so many whole seconds after the last.
    pub fn keepalive_due(&self, elapsed_secs: u64) -> (r: bool)
        ensures
            r == (self@.state is Suppressing && elapsed_secs >= KEEPALIVE_INTERVAL_SECS),
    {
        match &self.state {
            ToolParseState::Suppressing { body: _, tool_name: _, open_tag: _ } => elapsed_secs
                >= KEEPALIVE_INTERVAL_SECS,
            ToolParseState::Normal { buffer: _ } => false,
        }
    }

    /// What a poll begins with, so many whole seconds after the last sign of life. A call
    /// that could not be read is told once, at the first attempt of a poll.
    pub fn begin_poll(&mut self, first_attempt: bool, elapsed_secs: u64) -> (r: PollStart)
        ensures
            first_attempt && old(self)@.repair_pending is Some ==> r is Repair && encode_utf8(
                r->Repair_0@,
            ) == old(self)@.repair_pending->0 && final(self)@ == (StreamView {
                repair_pending: None,
                ..old(self)@
            }),
            !(first_attempt && old(self)@.repair_pending is Some) ==> {
                &&& final(self)@ == old(self)@
                &&& if old(self)@.state is Suppressing && elapsed_secs >= KEEPALIVE_INTERVAL_SECS {
                    r is Keepalive && is_keepalive(r->Keepalive_0, old(self).model@)
                } else {
                    r is Next
                }
            },
            final(self)@ == poll_start(old(self)@, first_attempt, elapsed_secs).1,
            match poll_start(old(self)@, first_attempt, elapsed_secs).0 {
                PollModel::Repair(t) => r is Repair && encode_utf8(r->Repair_0@) == t,
                PollModel::Keepalive => r is Keepalive,
                PollModel::Next => r is Next,
            },
            final(self).model == old(self).model,
            final(self).tag_config == old(self).tag_config,
    {
        if first_attempt {
            if let Some(text) = self.take_repair() {
                return PollStart::Repair(text);
            }
        }
        if self.keepalive_due(elapsed_secs) {
            PollStart::Keepalive(self.keepalive_chunk())
        } else {
            PollStart::Next
        }
    }

    /// The sign of life: a chunk with an empty tool call.
    pub fn keepalive_chunk(&self) -> (r: ChatCompletionsResponseChunk)
        ensures
            is_keepalive(r, self.model@),
    {
        let mut empty_calls: Vec<ToolCall> = Vec::new();
        empty_calls.push(
            ToolCall {
                id: String::new(),
                ty: "function".to_owned(),
                function: Some(FunctionCall { name: String::new(), arguments: String::new() }),
                custom: None,
                index: 0,
            },
        );
        let ghost views = types::call_views(empty_calls@);
        proof {
            let want = ToolCallView {
                id: Seq::empty(),
                ty: "function"@,
                function: Some(
                    types::FunctionCallView { name: Seq::empty(), arguments: Seq::empty() },
                ),
                custom: None,
                index: 0,
            };
            assert(empty_calls@[0].id@ =~= Seq::<char>::empty());
            assert(empty_calls@[0].function->0.name@ =~= Seq::<char>::empty());
            assert(empty_calls@[0].function->0.arguments@ =~= Seq::<char>::empty());
            assert(views =~= seq![want]);
        }
        let mut choices: Vec<ChunkChoice> = Vec::new();
        choices.push(
            ChunkChoice {
                index: 0,
                delta: Delta { role: None, content: None, tool_calls: Some(empty_calls) },
                finish_reason: None,
                logprobs: None,
            },
        );
        ChatCompletionsResponseChunk {
            id: "chatcmpl-keepalive".to_owned(),
            object: "chat.completion.chunk",
            created: 0,
            model: self.model.clone(),
            choices,
            usage: None,
            service_tier: None,
            system_fingerprint: None,
        }
    }

    /// Takes the state out, leaving the normal state with nothing held back.
    fn take_state(&mut self) -> (r: ToolParseState)
        ensures
            r == old(self).state,
            final(self)@ == (StreamView {
                state: StateView::Normal { buffer: Seq::empty() },
                ..old(self)@
            }),
            final(self).model == old(self).model,
            final(self).tag_config == old(self).tag_config,
    {
        let mut taken = ToolParseState::Normal { buffer: String::new() };
        std::mem::swap(&mut taken, &mut self.state);
        taken
    }

    /// Gives a call the next index and counts it.
    fn count(&mut self, call: ToolCall) -> (r: ToolCall)
        ensures
            r@ == (ToolCallView { index: old(self).call_index, ..call@ }),
            final(self)@ == after_calls(old(self)@, 1),
            final(self).model == old(self).model,
            final(self).tag_config == old(self).tag_config,
    {
        let call = ToolCall { index: self.call_index, ..call };
        self.call_index = self.call_index.wrapping_add(1);
        self.has_tool_calls = true;
        call
    }

    /// Reads a call out of a body and counts it.
    fn read_call(&mut self, tool_name: &str, body: &str, ids: &mut CallIds) -> (r: Option<ToolCall>)
        ensures
            match tool_parser::body_arguments(body@) {
                Some(arguments) => r is Some && r->0@ == calls::made_call(
                    CallModel { name: tool_name@, arguments },
                    old(ids).next,
                    old(self).call_index,
                ) && final(self)@ == after_calls(old(self)@, 1) && final(ids).next
                    == call_ids::number_after(old(ids).next, 1),
                None => r is None && final(self)@ == old(self)@ && final(ids).next == old(
                    ids,
                ).next,
            },
            final(self).model == old(self).model,
            final(self).tag_config == old(self).tag_config,
    {
        match parse_tool_call_body(tool_name, body, ids) {
            Some(call) => Some(self.count(call)),
            None => None,
        }
    }

    /// Splits a text at its first opening tag: the text before it, and the element.
    #[verifier::rlimit(40)]
    fn split_text(&self, buffer: &str) -> (r: Option<(String, ToolParseState)>)
        ensures
            match r {
                Some((head, element)) => read_state(
                    StateView::Normal { buffer: encode_utf8(buffer@) },
                    self.names(),
                ) == preceded(
                    encode_utf8(head@),
                    Seq::empty(),
                    read_state(element@, self.names()),
                ) && element@ is Suppressing && element@->body.len() < encode_utf8(buffer@).len(),
                None => read_state(
                    StateView::Normal { buffer: encode_utf8(buffer@) },
                    self.names(),
                ) == (Reading {
                    shown: encode_utf8(buffer@),
                    calls: Seq::empty(),
                    repair: None,
                    rest: Seq::empty(),
                }),
            },
    {
        let ghost b = encode_utf8(buffer@);
        let total: usize = buffer.as_bytes().len();
        proof {
            encode_utf8_valid_utf8(buffer@);
            is_char_boundary_start_end_of_seq(b);
            lemma_element_parts(b, self.names(), Seq::empty());
            reveal(read_state);
        }
        match find_first_xml_tool_tag(buffer, self.tag_config.tool_names.as_slice(), false, 0) {
            Some(open) => {
                let head = slice(buffer, 0, open.index).to_owned();
                let body = slice(buffer, open.end_index, total).to_owned();
                Some(
                    (
                        head,
                        ToolParseState::Suppressing {
                            body,
                            tool_name: open.name,
                            open_tag: open.raw,
                        },
                    ),
                )
            },
            None => None,
        }
    }

    /// Takes the first element of what is held back: its call, or its text where it is no
    /// call, and what stands behind it.
    #[verifier::rlimit(40)]
    fn take_element(
        &mut self,
        body: &str,
        tool_name: &str,
        open_tag: &str,
        ids: &mut CallIds,
    ) -> (r: (Result<ToolCall, String>, String))
        ensures
            ({
                let reading = read_state(
                    StateView::Suppressing {
                        body: encode_utf8(body@),
                        name: encode_utf8(tool_name@),
                        open: encode_utf8(open_tag@),
                    },
                    old(self).names(),
                );
                let rest = encode_utf8(r.1@);
                &&& rest.len() <= encode_utf8(body@).len()
                &&& match r.0 {
                    Ok(call) => exists|model: CallModel|
                        {
                            &&& reading == preceded(
                                Seq::empty(),
                                seq![model],
                                read_state(StateView::Normal { buffer: rest }, old(self).names()),
                            )
                            &&& call@ == #[trigger] calls::made_call(
                                model,
                                old(ids).next,
                                old(self).call_index,
                            )
                            &&& final(self)@ == after_calls(old(self)@, 1)
                            &&& final(ids).next == call_ids::number_after(old(ids).next, 1)
                        },
                    Err(t) => {
                        &&& reading == (Reading {
                            shown: Seq::empty(),
                            calls: Seq::empty(),
                            repair: Some(encode_utf8(t@)),
                            rest,
                        })
                        &&& final(self)@ == old(self)@
                        &&& final(ids).next == old(ids).next
                    },
                }
            }),
            final(self).model == old(self).model,
            final(self).tag_config == old(self).tag_config,
    {
        let (inner, rest) = split_body(body, tool_name);
        proof {
            encode_utf8_decode_utf8(inner@);
            encode_utf8_decode_utf8(tool_name@);
            lemma_element_parts(encode_utf8(body@), self.names(), encode_utf8(tool_name@));
            reveal(read_state);
        }
        match self.read_call(tool_name, inner.as_str(), ids) {
            Some(call) => {
                proof {
                    let model = CallModel {
                        name: tool_name@,
                        arguments: tool_parser::body_arguments(inner@)->0,
                    };
                    assert(call@ == calls::made_call(model, old(ids).next, old(self).call_index));
                }
                (Ok(call), rest)
            },
            None => (Err(element_text(open_tag, inner.as_str(), tool_name)), rest),
        }
    }

    /// Reads what was held back to its end, or to the first element that is no call.
    #[verifier::rlimit(60)]
    fn drain(&mut self, held: ToolParseState, ids: &mut CallIds) -> (r: Drained)
        ensures
            ({
                let reading = read_state(held@, old(self).names());
                &&& encode_utf8(r.shown@) == reading.shown
                &&& types::call_views(r.calls@) == calls::numbered_from(
                    reading.calls,
                    old(ids).next,
                    old(self).call_index,
                )
                &&& (match r.repair {
                    Some(t) => Some(encode_utf8(t@)),
                    None => None,
                }) == reading.repair
                &&& encode_utf8(r.rest@) == reading.rest
                &&& final(self)@ == after_calls(old(self)@, reading.calls.len() as int)
                &&& final(ids).next == call_ids::number_after(
                    old(ids).next,
                    reading.calls.len() as int,
                )
            }),
            final(self).model == old(self).model,
            final(self).tag_config == old(self).tag_config,
    {
        let ghost names = self.names();
        let ghost start = self@;
        let ghost first = ids.next;
        let ghost whole = read_state(held@, names);
        let ghost mut models: Seq<CallModel> = Seq::empty();
        let mut shown = String::new();
        let mut found: Vec<ToolCall> = Vec::new();
        let mut state = held;
        proof {
            lemma_read_nothing(names, start, first, held@);
            assert(encode_utf8(shown@) =~= Seq::<u8>::empty());
            assert(types::call_views(found@) =~= Seq::<ToolCallView>::empty());
        }
        loop
            invariant
                names == self.names(),
                start == old(self)@,
                first == old(ids).next,
                names == old(self).names(),
                whole == read_state(held@, names),
                has_read(
                    whole,
                    names,
                    start,
                    first,
                    models,
                    encode_utf8(shown@),
                    types::call_views(found@),
                    self@,
                    ids.next,
                    state@,
                ),
                self.model == old(self).model,
                self.tag_config == old(self).tag_config,
            decreases
                    match state@ {
                        StateView::Normal { buffer } => 2 * buffer.len(),
                        StateView::Suppressing { body, name: _, open: _ } => 2 * body.len() + 1,
                    },
        {
            let ghost so_far = encode_utf8(shown@);
            let ghost made = types::call_views(found@);
            let ghost now = self@;
            let ghost next = ids.next;
            let ghost left = state@;
            match state {
                ToolParseState::Normal { buffer } => match self.split_text(buffer.as_str()) {
                    Some((head, element)) => {
                        proof {
                            text::lemma_encode_concat(shown@, head@);
                            lemma_read_text(
                                whole,
                                names,
                                start,
                                first,
                                models,
                                so_far,
                                made,
                                now,
                                next,
                                left,
                                encode_utf8(head@),
                                element@,
                            );
                        }
                        shown.append(head.as_str());
                        state = element;
                    },
                    None => {
                        proof {
                            text::lemma_encode_concat(shown@, buffer@);
                            lemma_read_all(
                                whole,
                                names,
                                start,
                                first,
                                models,
                                so_far,
                                made,
                                now,
                                next,
                                left,
                            );
                        }
                        shown.append(buffer.as_str());
                        let rest = String::new();
                        assert(encode_utf8(rest@) =~= Seq::<u8>::empty());
                        return Drained { shown, calls: found, repair: None, rest };
                    },
                },
                ToolParseState::Suppressing { body, tool_name, open_tag } => {
                    let (taken, rest) = self.take_element(
                        body.as_str(),
                        tool_name.as_str(),
                        open_tag.as_str(),
                        ids,
                    );
                    match taken {
                        Ok(call) => {
                            proof {
                                let behind = StateView::Normal { buffer: encode_utf8(rest@) };
                                let model = choose|model: CallModel|
                                    read_state(left, names) == preceded(
                                        Seq::empty(),
                                        seq![model],
                                        read_state(behind, names),
                                    ) && call@ == #[trigger] calls::made_call(
                                        model,
                                        next,
                                        now.call_index,
                                    );
                                lemma_read_call(
                                    whole,
                                    names,
                                    start,
                                    first,
                                    models,
                                    so_far,
                                    made,
                                    now,
                                    next,
                                    left,
                                    model,
                                    behind,
                                );
                                types::lemma_call_views_push(found@, call);
                                models = models.push(model);
                            }
                            found.push(call);
                            state = ToolParseState::Normal { buffer: rest };
                        },
                        Err(t) => {
                            proof {
                                lemma_read_all(
                                    whole,
                                    names,
                                    start,
                                    first,
                                    models,
                                    so_far,
                                    made,
                                    now,
                                    next,
                                    left,
                                );
                                assert(so_far + Seq::<u8>::empty() =~= so_far);
                            }
                            return Drained { shown, calls: found, repair: Some(t), rest };
                        },
                    }
                },
            }
        }
    }

    /// The reaction to a piece of text: the choice to pass on, `None` if everything is held
    /// back.
    #[verifier::rlimit(40)]
    fn on_content(&mut self, choice: ChunkChoice, content: &str, ids: &mut CallIds) -> (r: Option<
        ChunkChoice,
    >)
        requires
            content@.len() > 0,
            choice.delta.content is None,
        ensures
            ({
                let re = react_to_content(
                    old(self)@,
                    old(self).names(),
                    encode_utf8(content@),
                    choice_model(choice),
                    old(ids).next,
                );
                &&& final(self)@ == re.next
                &&& final(ids).next == call_ids::number_after(old(ids).next, re.ids)
                &&& match re.out {
                    Some(m) => r is Some && choice_model(r->0) == m && r->0.index == choice.index
                        && r->0.logprobs == choice.logprobs && r->0.delta.role
                        == choice.delta.role,
                    None => r is None,
                }
            }),
            final(self).model == old(self).model,
            final(self).tag_config == old(self).tag_config,
    {
        let mut choice = choice;
        proof {
            call_ids::lemma_number_after(ids.next, 0, 0);
        }
        match self.take_state() {
            ToolParseState::Normal { buffer } => {
                proof {
                    text::lemma_encode_concat(buffer@, content@);
                }
                let mut buffer = buffer;
                buffer.append(content);
                let ghost b = encode_utf8(buffer@);
                let total: usize = buffer.as_str().as_bytes().len();
                proof {
                    encode_utf8_valid_utf8(buffer@);
                    is_char_boundary_start_end_of_seq(b);
                }
                match find_first_xml_tool_tag(
                    buffer.as_str(),
                    self.tag_config.tool_names.as_slice(),
                    false,
                    0,
                ) {
                    Some(open) => {
                        let before = slice(buffer.as_str(), 0, open.index).to_owned();
                        let rest = slice(buffer.as_str(), open.end_index, total).to_owned();
                        self.state = ToolParseState::Suppressing {
                            body: rest,
                            tool_name: open.name,
                            open_tag: open.raw,
                        };
                        proof {
                            text::lemma_encode_empty(before@);
                        }
                        choice.delta.content = if before.as_str().is_empty() {
                            None
                        } else {
                            Some(before)
                        };
                        Some(choice)
                    },
                    None => {
                        let tail_len: usize = get_partial_xml_tool_tag_tail_length(
                            buffer.as_str(),
                            self.tag_config.tool_names.as_slice(),
                            false,
                        );
                        let safe: usize = floor_char_boundary(buffer.as_str(), total - tail_len);
                        assert(safe == total - tail_len);
                        if safe > 0 {
                            choice.delta.content = Some(slice(buffer.as_str(), 0, safe).to_owned());
                            self.state = ToolParseState::Normal {
                                buffer: slice(buffer.as_str(), safe, total).to_owned(),
                            };
                            return Some(choice);
                        }
                        self.state = ToolParseState::Normal { buffer };
                        None
                    },
                }
            },
            ToolParseState::Suppressing { body, tool_name, open_tag } => {
                proof {
                    text::lemma_encode_concat(body@, content@);
                }
                let mut body = body;
                body.append(content);
                let ghost b = encode_utf8(body@);
                let total: usize = body.as_str().as_bytes().len();
                if total > MAX_XML_BUF_LEN {
                    proof {
                        text::lemma_encode_concat(open_tag@, body@);
                    }
                    let mut flushed = open_tag;
                    flushed.append(body.as_str());
                    choice.delta.content = Some(flushed);
                    return Some(choice);
                }
                proof {
                    encode_utf8_valid_utf8(body@);
                    is_char_boundary_start_end_of_seq(b);
                }
                let mut single: Vec<String> = Vec::new();
                single.push(tool_name.clone());
                assert(tags::name_list(single@) =~= seq![encode_utf8(tool_name@)]);
                match find_first_xml_tool_tag(body.as_str(), single.as_slice(), true, 0) {
                    Some(close) => {
                        let inner = slice(body.as_str(), 0, close.index);
                        let rest = slice(body.as_str(), close.end_index, total).to_owned();
                        proof {
                            encode_utf8_decode_utf8(inner@);
                            encode_utf8_decode_utf8(tool_name@);
                        }
                        match self.read_call(tool_name.as_str(), inner, ids) {
                            Some(call) => {
                                let mut one: Vec<ToolCall> = Vec::new();
                                let ghost view = call@;
                                one.push(call);
                                assert(types::call_views(one@) =~= seq![view]);
                                choice.delta.tool_calls = Some(one);
                                self.state = ToolParseState::Normal { buffer: rest };
                                Some(choice)
                            },
                            None => {
                                let tool_text = cat3(
                                    open_tag.as_str(),
                                    inner,
                                    close.raw.as_str(),
                                );
                                proof {
                                    text::lemma_encode_concat(open_tag@, inner@);
                                    text::lemma_encode_concat(open_tag@ + inner@, close.raw@);
                                }
                                self.state = ToolParseState::Normal { buffer: rest };
                                self.repair_pending = Some(tool_text);
                                Some(choice)
                            },
                        }
                    },
                    None => {
                        self.state = ToolParseState::Suppressing { body, tool_name, open_tag };
                        None
                    },
                }
            },
        }
    }

    /// The reaction to a choice without text that finishes the answer.
    #[verifier::rlimit(40)]
    fn on_finish(&mut self, choice: ChunkChoice, ids: &mut CallIds) -> (r: ChunkChoice)
        requires
            choice.delta.content is None,
            choice.finish_reason is Some,
        ensures
            ({
                let re = react_to_finish(
                    old(self)@,
                    old(self).names(),
                    choice_model(choice),
                    old(ids).next,
                );
                &&& final(self)@ == re.next
                &&& final(ids).next == call_ids::number_after(old(ids).next, re.ids)
                &&& re.out == Some(choice_model(r))
            }),
            r.index == choice.index,
            r.logprobs == choice.logprobs,
            r.delta.role == choice.delta.role,
            final(self).model == old(self).model,
            final(self).tag_config == old(self).tag_config,
    {
        let mut choice = choice;
        let ghost reading = read_state(self@.state, self.names());
        let held = self.take_state();
        let drained = self.drain(held, ids);
        let made: usize = drained.calls.len();
        assert(made == types::call_views(drained.calls@).len());
        assert(made == reading.calls.len());
        choice.delta.content = some_text(drained.shown);
        if made > 0 {
            choice.delta.tool_calls = Some(drained.calls);
        }
        if self.has_tool_calls && (drained.repair.is_none() || made > 0) {
            choice.finish_reason = finish_with_calls(choice.finish_reason);
        }
        match drained.repair {
            Some(t) => {
                self.repair_pending = Some(t);
            },
            None => {
                self.finish_emitted = true;
            },
        }
        self.state = ToolParseState::Normal { buffer: drained.rest };
        choice
    }

    /// The reaction to a chunk: the chunk to pass on, `None` if everything is held back.
    pub fn on_chunk(&mut self, chunk: ChatCompletionsResponseChunk, ids: &mut CallIds) -> (r:
        Option<ChatCompletionsResponseChunk>)
        ensures
            chunk.choices@.len() == 0 ==> r is Some && alike(r->0, chunk) && final(self)@ == old(
                self,
            )@ && final(ids).next == old(ids).next,
            chunk.choices@.len() > 0 ==> {
                let re = react(
                    old(self)@,
                    old(self).names(),
                    choice_model(chunk.choices@[0]),
                    old(ids).next,
                );
                &&& final(self)@ == re.next
                &&& final(ids).next == call_ids::number_after(old(ids).next, re.ids)
                &&& match re.out {
                    Some(m) => r is Some && alike(r->0, chunk) && choice_model(r->0.choices@[0])
                        == m,
                    None => r is None,
                }
            },
            final(self).model == old(self).model,
            final(self).tag_config == old(self).tag_config,
    {
        let mut chunk = chunk;
        if chunk.choices.len() == 0 {
            return Some(chunk);
        }
        proof {
            call_ids::lemma_number_after(ids.next, 0, 0);
        }
        let mut choice = chunk.choices.remove(0);
        let mut content: Option<String> = None;
        std::mem::swap(&mut content, &mut choice.delta.content);
        match content {
            Some(text) => {
                proof {
                    text::lemma_encode_empty(text@);
                }
                if text.as_str().is_empty() {
                    choice.delta.content = Some(text);
                    chunk.choices.insert(0, choice);
                    return Some(chunk);
                }
                match self.on_content(choice, text.as_str(), ids) {
                    Some(c) => {
                        chunk.choices.insert(0, c);
                        Some(chunk)
                    },
                    None => None,
                }
            },
            None => {
                if choice.finish_reason.is_some() {
                    choice = self.on_finish(choice, ids);
                }
                chunk.choices.insert(0, choice);
                Some(chunk)
            },
        }
    }

    /// Whether [`ToolCallStream::on_end`] can read what the stream holds back.
    pub fn can_end(&self) -> (r: bool)
        ensures
            r == end_is_readable(self@, self.names()),
    {
        match &self.state {
            ToolParseState::Normal { buffer } => {
                proof {
                    text::lemma_encode_empty(buffer@);
                    encode_utf8_decode_utf8(buffer@);
                }
                buffer.as_str().is_empty() || can_parse_tool_calls(
                    buffer.as_str(),
                    &self.tag_config,
                )
            },
            ToolParseState::Suppressing { body: _, tool_name: _, open_tag: _ } => true,
        }
    }

    /// The reason with which the stream itself finishes an answer.
    fn finish_reason(&self) -> (r: &'static str)
        ensures
            own_finish(self@) == Some(r@),
    {
        if self.has_tool_calls {
            "tool_calls"
        } else {
            "stop"
        }
    }

    /// The reaction to the end of the stream within an element.
    #[verifier::rlimit(40)]
    fn end_element(&mut self, ids: &mut CallIds) -> (r: StreamEnd)
        ensures
            ({
                let re = end_with_element(old(self)@, old(self).names(), old(ids).next);
                &&& final(self)@ == re.next
                &&& final(ids).next == call_ids::number_after(old(ids).next, re.ids)
                &&& match re.out {
                    EndModel::Chunk(m) => r is Chunk && is_end_chunk(r->Chunk_0, old(self).model@, m),
                    EndModel::Repair(t) => r is Repair && encode_utf8(r->Repair_0@) == t,
                    EndModel::Done => r is Done,
                }
            }),
            final(self).model == old(self).model,
            final(self).tag_config == old(self).tag_config,
    {
        let ghost reading = read_state(self@.state, self.names());
        proof {
            call_ids::lemma_number_after(ids.next, 0, 0);
        }
        let held = self.take_state();
        let drained = self.drain(held, ids);
        let made: usize = drained.calls.len();
        assert(made == types::call_views(drained.calls@).len());
        assert(made == reading.calls.len());
        self.state = ToolParseState::Normal { buffer: drained.rest };
        let content = some_text(drained.shown);
        if let Some(t) = drained.repair {
            if made == 0 && content.is_none() {
                return StreamEnd::Repair(t);
            }
            self.repair_pending = Some(t);
        }
        let tool_calls = if made > 0 {
            Some(drained.calls)
        } else {
            None
        };
        let delta = Delta { role: None, content, tool_calls };
        let finish = self.finish_reason();
        StreamEnd::Chunk(make_end_chunk(self.model.as_str(), delta, finish))
    }

    /// The reaction to the end of the stream where text is held back.
    #[verifier::rlimit(40)]
    fn end_text(&mut self, buffer: String, ids: &mut CallIds) -> (r: StreamEnd)
        requires
            old(self)@.state == (StateView::Normal { buffer: Seq::empty() }),
            tool_parser::is_readable(buffer@, old(self).names()),
        ensures
            ({
                let re = end_with_text(
                    old(self)@,
                    encode_utf8(buffer@),
                    old(self).names(),
                    old(ids).next,
                );
                &&& final(self)@ == re.next
                &&& final(ids).next == call_ids::number_after(old(ids).next, re.ids)
                &&& match re.out {
                    EndModel::Chunk(m) => r is Chunk && is_end_chunk(r->Chunk_0, old(self).model@, m),
                    EndModel::Repair(t) => r is Repair && encode_utf8(r->Repair_0@) == t,
                    EndModel::Done => r is Done,
                }
            }),
            final(self).model == old(self).model,
            final(self).tag_config == old(self).tag_config,
    {
        proof {
            encode_utf8_decode_utf8(buffer@);
        }
        match parse_tool_calls_with(buffer.as_str(), &self.tag_config, ids) {
            Some((found, remaining)) => {
                self.has_tool_calls = true;
                self.finish_emitted = true;
                let delta = Delta {
                    role: None,
                    content: some_text(remaining),
                    tool_calls: Some(found),
                };
                StreamEnd::Chunk(make_end_chunk(self.model.as_str(), delta, "tool_calls"))
            },
            None => {
                let finish = self.finish_reason();
                let delta = Delta { role: None, content: Some(buffer), tool_calls: None };
                StreamEnd::Chunk(make_end_chunk(self.model.as_str(), delta, finish))
            },
        }
    }

    /// The reaction to the end of the stream.
    #[verifier::rlimit(40)]
    pub fn on_end(&mut self, ids: &mut CallIds) -> (r: StreamEnd)
        requires
            end_is_readable(old(self)@, old(self).names()),
        ensures
            ({
                let re = react_to_end(old(self)@, old(self).names(), old(ids).next);
                &&& final(self)@ == re.next
                &&& final(ids).next == call_ids::number_after(old(ids).next, re.ids)
                &&& match re.out {
                    EndModel::Chunk(m) => r is Chunk && is_end_chunk(r->Chunk_0, old(self).model@, m),
                    EndModel::Repair(t) => r is Repair && encode_utf8(r->Repair_0@) == t,
                    EndModel::Done => r is Done,
                }
            }),
            final(self).model == old(self).model,
            final(self).tag_config == old(self).tag_config,
    {
        proof {
            call_ids::lemma_number_after(ids.next, 0, 0);
        }
        if let ToolParseState::Suppressing { body: _, tool_name: _, open_tag: _ } = &self.state {
            return self.end_element(ids);
        }
        if let ToolParseState::Normal { buffer } = self.take_state() {
            proof {
                text::lemma_encode_empty(buffer@);
                encode_utf8_decode_utf8(buffer@);
            }
            if !buffer.as_str().is_empty() {
                return self.end_text(buffer, ids);
            }
        }
        if !self.finish_emitted {
            let finish = self.finish_reason();
            self.finish_emitted = true;
            return StreamEnd::Chunk(make_end_chunk(self.model.as_str(), Delta::default(), finish));
        }
        StreamEnd::Done
    }

    /// [`ToolCallStream::on_end`] in any state: `None`, with nothing changed, where what the
    /// stream holds back cannot be read.
    pub fn try_on_end(&mut self, ids: &mut CallIds) -> (r: Option<StreamEnd>)
        ensures
            r is Some == end_is_readable(old(self)@, old(self).names()),
            r is None ==> final(self)@ == old(self)@ && final(ids).next == old(ids).next,
            r is Some ==> {
                let re = react_to_end(old(self)@, old(self).names(), old(ids).next);
                &&& final(self)@ == re.next
                &&& final(ids).next == call_ids::number_after(old(ids).next, re.ids)
                &&& match re.out {
                    EndModel::Chunk(m) => r->0 is Chunk && is_end_chunk(
                        r->0->Chunk_0,
                        old(self).model@,
                        m,
                    ),
                    EndModel::Repair(t) => r->0 is Repair && encode_utf8(r->0->Repair_0@) == t,
                    EndModel::Done => r->0 is Done,
                }
            },
            final(self).model == old(self).model,
            final(self).tag_config == old(self).tag_config,
    {
        if self.can_end() {
            Some(self.on_end(ids))
        } else {
            None
        }
    }
}

} // verus!
