//! Making tool calls out of a name and arguments.

use serde_json::Value;
use vstd::prelude::*;

use crate::call_ids;
use crate::call_ids::CallIds;
use crate::json;
use crate::json::json_to_string;
use crate::types::{FunctionCall, FunctionCallView, ToolCall, ToolCallView};

verus! {

/// The name and the arguments of a call.
pub struct CallModel {
    pub name: Seq<char>,
    pub arguments: Seq<char>,
}

/// The function call with a name, arguments, an identifier number and a place in the list
/// of calls.
pub open spec fn made_call(m: CallModel, number: u64, index: u32) -> ToolCallView {
    ToolCallView {
        id: call_ids::call_id(number),
        ty: "function"@,
        function: Some(FunctionCallView { name: m.name, arguments: m.arguments }),
        custom: None,
        index,
    }
}

/// A list of calls, whose identifiers are numbered on from `first` and whose indices are
/// their places in the list.
pub open spec fn numbered(models: Seq<CallModel>, first: u64) -> Seq<ToolCallView> {
    Seq::new(
        models.len(),
        |k: int| made_call(models[k], call_ids::number_after(first, k), k as u32),
    )
}

/// The index that lies `k` places behind another, in 32 bits.
pub open spec fn index_plus(i: u32, k: int) -> u32 {
    ((i + k) % 0x1_0000_0000) as u32
}

/// A list of calls, whose identifiers are numbered on from `first` and whose indices are
/// numbered on from `start`.
pub open spec fn numbered_from(models: Seq<CallModel>, first: u64, start: u32) -> Seq<ToolCallView> {
    Seq::new(
        models.len(),
        |k: int| made_call(models[k], call_ids::number_after(first, k), index_plus(start, k)),
    )
}

/// One more call is numbered on.
pub proof fn lemma_numbered_push(
    models: Seq<CallModel>,
    model: CallModel,
    first: u64,
    start: u32,
)
    ensures
        numbered_from(models.push(model), first, start) == numbered_from(
            models,
            first,
            start,
        ).push(
            made_call(
                model,
                call_ids::number_after(first, models.len() as int),
                index_plus(start, models.len() as int),
            ),
        ),
{
    assert(numbered_from(models.push(model), first, start) =~= numbered_from(
        models,
        first,
        start,
    ).push(
        made_call(
            model,
            call_ids::number_after(first, models.len() as int),
            index_plus(start, models.len() as int),
        ),
    ));
}

/// The calls of a list have different identifiers.
pub proof fn law_listed_calls_differ(models: Seq<CallModel>, first: u64, i: int, j: int)
    requires
        0 <= i < j < models.len(),
        models.len() <= 0x1_0000_0000_0000_0000,
    ensures
        numbered(models, first)[i].id != numbered(models, first)[j].id,
{
    let a = call_ids::number_after(first, i);
    let b = call_ids::number_after(first, j);
    assert(a != b);
    if call_ids::call_id(a) == call_ids::call_id(b) {
        call_ids::law_call_ids_are_distinct(a, b);
    }
}

/// A call with the given name and arguments, with index 0.
pub fn make_tool_call(name: &str, args: &Value, ids: &mut CallIds) -> (r: ToolCall)
    ensures
        r@ == made_call(
            CallModel { name: name@, arguments: json::json_text(*args) },
            old(ids).next,
            0,
        ),
        final(ids).next == call_ids::number_after(old(ids).next, 1),
{
    let arguments = match json_to_string(args) {
        Ok(t) => t,
        Err(_) => "{}".to_owned(),
    };
    new_call(name, arguments, 0, ids)
}

/// A call with the given name, arguments and index.
pub fn new_call(name: &str, arguments: String, index: u32, ids: &mut CallIds) -> (r: ToolCall)
    ensures
        r@ == made_call(
            CallModel { name: name@, arguments: arguments@ },
            old(ids).next,
            index,
        ),
        final(ids).next == call_ids::number_after(old(ids).next, 1),
{
    let id = ids.next_call_id();
    ToolCall {
        id,
        ty: "function".to_owned(),
        function: Some(FunctionCall { name: name.to_owned(), arguments }),
        custom: None,
        index,
    }
}

/// A call has its name and its arguments, is one of a function, and has the identifier with
/// its number and its place.
pub proof fn law_calls_are_made(m: CallModel, number: u64, index: u32)
    ensures
        ({
            let c = made_call(m, number, index);
            &&& c.id == call_ids::call_id(number)
            &&& c.ty == "function"@
            &&& c.function is Some
            &&& c.function->0.name == m.name
            &&& c.function->0.arguments == m.arguments
            &&& c.custom is None
            &&& c.index == index
        }),
{
}

/// Calls are listed in order, each with its name and its arguments, with identifiers that
/// follow one another, and with indices that follow one another from 0 or from another index
/// on.
pub proof fn law_calls_are_listed(models: Seq<CallModel>, first: u64, start: u32, k: int)
    requires
        0 <= k < models.len(),
        first + k <= u64::MAX,
        start + k <= u32::MAX,
    ensures
        numbered(models, first).len() == models.len(),
        numbered(models, first)[k].function is Some,
        numbered(models, first)[k].function->0.name == models[k].name,
        numbered(models, first)[k].function->0.arguments == models[k].arguments,
        numbered(models, first)[k].id == call_ids::call_id((first + k) as u64),
        numbered(models, first)[k].index == k,
        numbered_from(models, first, start).len() == models.len(),
        numbered_from(models, first, start)[k].function is Some,
        numbered_from(models, first, start)[k].function->0.name == models[k].name,
        numbered_from(models, first, start)[k].function->0.arguments == models[k].arguments,
        numbered_from(models, first, start)[k].id == call_ids::call_id((first + k) as u64),
        numbered_from(models, first, start)[k].index == start + k,
{
}

} // verus!
