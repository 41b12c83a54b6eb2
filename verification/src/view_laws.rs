//! That models show what stands in the values.

use vstd::prelude::*;
use vstd::utf8::*;

use crate::login::{InitStage, LoginPayload, StageView};
use crate::pool::{PoolError, PoolErrorView};
use crate::stream::{StateView, ToolCallStream, ToolParseState};
use crate::tags;
use crate::text;
use crate::tools;
use crate::tools::{ChoiceSpec, ToolContext};
use crate::types;
use crate::types::{Message, ToolCall, ToolChoice};

verus! {

/// A call is seen with its identifier, its type, its function and its index.
pub proof fn law_calls_are_seen(c: ToolCall)
    ensures
        c@.id == c.id@,
        c@.ty == c.ty@,
        c@.index == c.index,
        c@.function is Some == c.function is Some,
        c.function is Some ==> c@.function->0.name == c.function->0.name@
            && c@.function->0.arguments == c.function->0.arguments@,
        c@.custom is Some == c.custom is Some,
        c.custom is Some ==> c@.custom->0.name == c.custom->0.name@ && c@.custom->0.input
            == c.custom->0.input@,
{
}

/// Lists are seen item by item.
pub proof fn law_lists_are_seen(
    calls: Seq<ToolCall>,
    messages: Seq<Message>,
    strings: Seq<String>,
    i: int,
)
    ensures
        types::call_views(calls).len() == calls.len(),
        0 <= i < calls.len() ==> types::call_views(calls)[i] == calls[i]@,
        types::message_views(messages).len() == messages.len(),
        0 <= i < messages.len() ==> types::message_views(messages)[i] == messages[i]@,
        text::texts(strings).len() == strings.len(),
        0 <= i < strings.len() ==> text::texts(strings)[i] == strings[i]@,
        tags::name_list(strings).len() == strings.len(),
        0 <= i < strings.len() ==> tags::name_list(strings)[i] == encode_utf8(strings[i]@),
{
}

/// The data of a login are seen field by field.
pub proof fn law_logins_are_seen(p: LoginPayload)
    ensures
        p@.email is Some == p.email is Some,
        p.email is Some ==> p@.email->0 == p.email->0@,
        p@.mobile is Some == p.mobile is Some,
        p.mobile is Some ==> p@.mobile->0 == p.mobile->0@,
        p@.password == p.password@,
        p@.area_code is Some == p.area_code is Some,
        p.area_code is Some ==> p@.area_code->0 == p.area_code->0@,
        p@.device_id == p.device_id@,
        p@.os == p.os@,
{
}

/// A stage is seen with its token, its session and what was found.
pub proof fn law_stages_are_seen(s: InitStage)
    ensures
        match s {
            InitStage::Login => s@ is Login,
            InitStage::Session { token } => s@ == (StageView::Session { token: token@ }),
            InitStage::Challenge { token, session } => s@ == (StageView::Challenge {
                token: token@,
                session: session@,
            }),
            InitStage::Solve { token, session } => s@ == (StageView::Solve {
                token: token@,
                session: session@,
            }),
            InitStage::Completion { token, session } => s@ == (StageView::Completion {
                token: token@,
                session: session@,
            }),
            InitStage::Cleanup { token, session, error } => s@ is Cleanup && s@->Cleanup_token
                == token@ && s@->Cleanup_session == session@ && s@->Cleanup_error is Some
                == error is Some && (error is Some ==> s@->Cleanup_error->0 == error->0@),
            InitStage::Closed => s@ is Closed,
        },
{
}

/// An error is seen with what it is about.
pub proof fn law_errors_are_seen(e: PoolError)
    ensures
        match e {
            PoolError::AllAccountsFailed => e@ is AllAccountsFailed,
            PoolError::Client(c) => e@ == PoolErrorView::Client(c.message@),
            PoolError::Pow(c) => e@ == PoolErrorView::Pow(c.message@),
            PoolError::Validation(t) => e@ == PoolErrorView::Validation(t@),
            PoolError::AlreadyExists(t) => e@ == PoolErrorView::AlreadyExists(t@),
            PoolError::NotFound(t) => e@ == PoolErrorView::NotFound(t@),
            PoolError::AccountBusy(t) => e@ == PoolErrorView::AccountBusy(t@),
        },
{
}

/// What is said of tools is seen as it is said.
pub proof fn law_contexts_are_seen(c: ToolContext)
    ensures
        c@.defs is Some == c.defs_text is Some,
        c.defs_text is Some ==> c@.defs->0 == c.defs_text->0@,
        c@.instruction is Some == c.instruction_text is Some,
        c.instruction_text is Some ==> c@.instruction->0 == c.instruction_text->0@,
{
}

/// A tool choice is seen with its mode, its tools or its name.
pub proof fn law_tool_choices_are_seen(c: ToolChoice)
    ensures
        match c {
            ToolChoice::Mode(m) => tools::choice_spec(c) == ChoiceSpec::Mode(m@),
            ToolChoice::AllowedTools(a) => tools::choice_spec(c) is AllowedTools
                && tools::choice_spec(c)->mode == a.allowed_tools.mode@ && tools::choice_spec(
                c,
            )->tools is Some == a.allowed_tools.tools is Some && (a.allowed_tools.tools is Some
                ==> tools::choice_spec(c)->tools->0 == a.allowed_tools.tools->0@),
            ToolChoice::Named(n) => tools::choice_spec(c) == ChoiceSpec::Named(n.function.name@),
            ToolChoice::Custom(n) => tools::choice_spec(c) == ChoiceSpec::Custom(n.custom.name@),
        },
{
}

/// A stream is seen with what it holds back and what it has sent.
pub proof fn law_streams_are_seen(s: ToolCallStream)
    ensures
        match s.state {
            ToolParseState::Normal { buffer } => s@.state == (StateView::Normal {
                buffer: encode_utf8(buffer@),
            }),
            ToolParseState::Suppressing { body, tool_name, open_tag } => s@.state == (
            StateView::Suppressing {
                body: encode_utf8(body@),
                name: encode_utf8(tool_name@),
                open: encode_utf8(open_tag@),
            }),
        },
        s@.has_tool_calls == s.has_tool_calls,
        s@.finish_emitted == s.finish_emitted,
        s@.call_index == s.call_index,
        s@.repair_pending is Some == s.repair_pending is Some,
        s.repair_pending is Some ==> s@.repair_pending->0 == encode_utf8(s.repair_pending->0@),
{
}

} // verus!
