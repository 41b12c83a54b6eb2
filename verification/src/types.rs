//! Chat completion requests and response chunks.

use serde_json::Value;
use vstd::prelude::*;

verus! {

/// The text of an optional string.
pub open spec fn opt_text(s: Option<String>) -> Option<Seq<char>> {
    match s {
        Some(t) => Some(t@),
        None => None,
    }
}

/// A copy of an optional string.
pub fn clone_opt(s: &Option<String>) -> (r: Option<String>)
    ensures
        r == *s,
{
    match s {
        Some(t) => Some(t.clone()),
        None => None,
    }
}

// ---------------------------------------------------------------------------
// Tool calls
// ---------------------------------------------------------------------------

/// The call of a function: its name and its arguments as JSON text.
#[derive(Debug)]
pub struct FunctionCall {
    pub name: String,
    pub arguments: String,
}

/// The call of a custom tool.
#[derive(Debug)]
pub struct CustomToolCall {
    pub name: String,
    pub input: String,
}

/// A tool call of the model.
#[derive(Debug)]
pub struct ToolCall {
    pub id: String,
    pub ty: String,
    pub function: Option<FunctionCall>,
    pub custom: Option<CustomToolCall>,
    pub index: u32,
}

/// The contents of a [`FunctionCall`].
pub struct FunctionCallView {
    pub name: Seq<char>,
    pub arguments: Seq<char>,
}

/// The contents of a [`CustomToolCall`].
pub struct CustomToolCallView {
    pub name: Seq<char>,
    pub input: Seq<char>,
}

/// The contents of a [`ToolCall`].
pub struct ToolCallView {
    pub id: Seq<char>,
    pub ty: Seq<char>,
    pub function: Option<FunctionCallView>,
    pub custom: Option<CustomToolCallView>,
    pub index: u32,
}

impl View for FunctionCall {
    type V = FunctionCallView;

    open spec fn view(&self) -> FunctionCallView {
        FunctionCallView { name: self.name@, arguments: self.arguments@ }
    }
}

impl View for CustomToolCall {
    type V = CustomToolCallView;

    open spec fn view(&self) -> CustomToolCallView {
        CustomToolCallView { name: self.name@, input: self.input@ }
    }
}

impl View for ToolCall {
    type V = ToolCallView;

    open spec fn view(&self) -> ToolCallView {
        ToolCallView {
            id: self.id@,
            ty: self.ty@,
            function: match self.function {
                Some(f) => Some(f@),
                None => None,
            },
            custom: match self.custom {
                Some(c) => Some(c@),
                None => None,
            },
            index: self.index,
        }
    }
}

impl Clone for FunctionCall {
    fn clone(&self) -> (r: Self)
        ensures
            r == *self,
    {
        FunctionCall { name: self.name.clone(), arguments: self.arguments.clone() }
    }
}

impl Clone for CustomToolCall {
    fn clone(&self) -> (r: Self)
        ensures
            r == *self,
    {
        CustomToolCall { name: self.name.clone(), input: self.input.clone() }
    }
}

impl Clone for ToolCall {
    fn clone(&self) -> (r: Self)
        ensures
            r == *self,
    {
        ToolCall {
            id: self.id.clone(),
            ty: self.ty.clone(),
            function: match &self.function {
                Some(f) => Some(f.clone()),
                None => None,
            },
            custom: match &self.custom {
                Some(c) => Some(c.clone()),
                None => None,
            },
            index: self.index,
        }
    }
}

/// The contents of a list of tool calls.
pub open spec fn call_views(calls: Seq<ToolCall>) -> Seq<ToolCallView> {
    calls.map_values(|c: ToolCall| c@)
}

/// One more call is one more view.
pub proof fn lemma_call_views_push(calls: Seq<ToolCall>, call: ToolCall)
    ensures
        call_views(calls.push(call)) == call_views(calls).push(call@),
{
    assert(call_views(calls.push(call)) =~= call_views(calls).push(call@));
}

// ---------------------------------------------------------------------------
// Messages
// ---------------------------------------------------------------------------

/// An image in a message.
#[derive(Debug)]
pub struct ImageUrl {
    pub url: String,
    pub detail: Option<String>,
}

/// A sound recording in a message.
#[derive(Debug)]
pub struct InputAudio {
    pub data: String,
    pub format: String,
}

/// A file in a message.
#[derive(Debug)]
pub struct FileContent {
    pub file_data: Option<String>,
    pub file_id: Option<String>,
    pub filename: Option<String>,
}

/// One part of a message made of several.
#[derive(Debug)]
pub struct ContentPart {
    pub ty: String,
    pub text: Option<String>,
    pub refusal: Option<String>,
    pub image_url: Option<ImageUrl>,
    pub input_audio: Option<InputAudio>,
    pub file: Option<FileContent>,
}

/// What a message says: a text, or a list of parts.
#[derive(Debug)]
pub enum MessageContent {
    Text(String),
    Parts(Vec<ContentPart>),
}

/// A reference to a recording that the model made.
#[derive(Debug)]
pub struct MessageAudio {
    pub id: String,
}

/// A message of a conversation.
#[derive(Debug)]
pub struct Message {
    pub role: String,
    pub content: Option<MessageContent>,
    pub name: Option<String>,
    pub tool_call_id: Option<String>,
    pub tool_calls: Option<Vec<ToolCall>>,
    pub function_call: Option<FunctionCall>,
    pub refusal: Option<String>,
    pub audio: Option<MessageAudio>,
}

/// The contents of a [`MessageContent`].
pub enum ContentView {
    Text(Seq<char>),
    Parts(Seq<ContentPart>),
}

/// The contents of a [`Message`].
#[verifier::ext_equal]
pub struct MessageView {
    pub role: Seq<char>,
    pub content: Option<ContentView>,
    pub name: Option<Seq<char>>,
    pub tool_call_id: Option<Seq<char>>,
    pub tool_calls: Option<Seq<ToolCall>>,
    pub function_call: Option<FunctionCall>,
    pub refusal: Option<Seq<char>>,
    pub audio: Option<MessageAudio>,
}

impl View for MessageContent {
    type V = ContentView;

    open spec fn view(&self) -> ContentView {
        match self {
            MessageContent::Text(t) => ContentView::Text(t@),
            MessageContent::Parts(p) => ContentView::Parts(p@),
        }
    }
}

impl View for Message {
    type V = MessageView;

    open spec fn view(&self) -> MessageView {
        MessageView {
            role: self.role@,
            content: match self.content {
                Some(c) => Some(c@),
                None => None,
            },
            name: opt_text(self.name),
            tool_call_id: opt_text(self.tool_call_id),
            tool_calls: match self.tool_calls {
                Some(c) => Some(c@),
                None => None,
            },
            function_call: self.function_call,
            refusal: opt_text(self.refusal),
            audio: self.audio,
        }
    }
}

impl Clone for ImageUrl {
    fn clone(&self) -> (r: Self)
        ensures
            r == *self,
    {
        ImageUrl { url: self.url.clone(), detail: clone_opt(&self.detail) }
    }
}

impl Clone for InputAudio {
    fn clone(&self) -> (r: Self)
        ensures
            r == *self,
    {
        InputAudio { data: self.data.clone(), format: self.format.clone() }
    }
}

impl Clone for FileContent {
    fn clone(&self) -> (r: Self)
        ensures
            r == *self,
    {
        FileContent {
            file_data: clone_opt(&self.file_data),
            file_id: clone_opt(&self.file_id),
            filename: clone_opt(&self.filename),
        }
    }
}

impl Clone for ContentPart {
    fn clone(&self) -> (r: Self)
        ensures
            r == *self,
    {
        ContentPart {
            ty: self.ty.clone(),
            text: clone_opt(&self.text),
            refusal: clone_opt(&self.refusal),
            image_url: match &self.image_url {
                Some(i) => Some(i.clone()),
                None => None,
            },
            input_audio: match &self.input_audio {
                Some(a) => Some(a.clone()),
                None => None,
            },
            file: match &self.file {
                Some(f) => Some(f.clone()),
                None => None,
            },
        }
    }
}

impl Clone for MessageAudio {
    fn clone(&self) -> (r: Self)
        ensures
            r == *self,
    {
        MessageAudio { id: self.id.clone() }
    }
}

/// Appends copies of all parts of a list.
pub fn extend_parts(to: &mut Vec<ContentPart>, from: &Vec<ContentPart>)
    ensures
        final(to)@ == old(to)@ + from@,
{
    let ghost start = to@;
    let mut i: usize = 0;
    while i < from.len()
        invariant
            i <= from@.len(),
            to@ == start + from@.take(i as int),
        decreases from@.len() - i,
    {
        to.push(from[i].clone());
        assert(from@.take(i + 1) =~= from@.take(i as int).push(from@[i as int]));
        i += 1;
    }
    assert(from@.take(i as int) =~= from@);
}

/// Appends copies of all calls of a list.
pub fn extend_calls(to: &mut Vec<ToolCall>, from: &Vec<ToolCall>)
    ensures
        final(to)@ == old(to)@ + from@,
{
    let ghost start = to@;
    let mut i: usize = 0;
    while i < from.len()
        invariant
            i <= from@.len(),
            to@ == start + from@.take(i as int),
        decreases from@.len() - i,
    {
        to.push(from[i].clone());
        assert(from@.take(i + 1) =~= from@.take(i as int).push(from@[i as int]));
        i += 1;
    }
    assert(from@.take(i as int) =~= from@);
}

impl Clone for MessageContent {
    fn clone(&self) -> (r: Self)
        ensures
            r@ == self@,
    {
        match self {
            MessageContent::Text(t) => MessageContent::Text(t.clone()),
            MessageContent::Parts(p) => {
                let mut copy: Vec<ContentPart> = Vec::new();
                extend_parts(&mut copy, p);
                assert(copy@ =~= p@);
                MessageContent::Parts(copy)
            },
        }
    }
}

/// A copy of an optional content.
pub fn clone_content(c: &Option<MessageContent>) -> (r: Option<MessageContent>)
    ensures
        r is Some == c is Some,
        r is Some ==> r->0@ == c->0@,
{
    match c {
        Some(m) => Some(m.clone()),
        None => None,
    }
}

/// A copy of an optional list of calls.
pub fn clone_calls(c: &Option<Vec<ToolCall>>) -> (r: Option<Vec<ToolCall>>)
    ensures
        r is Some == c is Some,
        r is Some ==> r->0@ == c->0@,
{
    match c {
        Some(calls) => {
            let mut copy: Vec<ToolCall> = Vec::new();
            extend_calls(&mut copy, calls);
            assert(copy@ =~= calls@);
            Some(copy)
        },
        None => None,
    }
}

/// A copy of an optional function call.
pub fn clone_function_call(c: &Option<FunctionCall>) -> (r: Option<FunctionCall>)
    ensures
        r == *c,
{
    match c {
        Some(f) => Some(f.clone()),
        None => None,
    }
}

/// A copy of an optional recording.
pub fn clone_audio(a: &Option<MessageAudio>) -> (r: Option<MessageAudio>)
    ensures
        r == *a,
{
    match a {
        Some(m) => Some(m.clone()),
        None => None,
    }
}

impl Clone for Message {
    fn clone(&self) -> (r: Self)
        ensures
            r@ == self@,
    {
        Message {
            role: self.role.clone(),
            content: clone_content(&self.content),
            name: clone_opt(&self.name),
            tool_call_id: clone_opt(&self.tool_call_id),
            tool_calls: clone_calls(&self.tool_calls),
            function_call: clone_function_call(&self.function_call),
            refusal: clone_opt(&self.refusal),
            audio: clone_audio(&self.audio),
        }
    }
}

/// The contents of a list of messages.
pub open spec fn message_views(messages: Seq<Message>) -> Seq<MessageView> {
    messages.map_values(|m: Message| m@)
}

// ---------------------------------------------------------------------------
// Tools
// ---------------------------------------------------------------------------

/// A function that the model may call. Its parameters are a JSON schema.
#[derive(Debug)]
pub struct FunctionDefinition {
    pub name: String,
    pub description: Option<String>,
    pub parameters: Value,
}

/// The grammar of a custom tool's input.
#[derive(Debug)]
pub struct Grammar {
    pub definition: String,
    pub syntax: String,
}

/// The format of a custom tool's input.
#[derive(Debug)]
pub enum CustomToolFormat {
    Text,
    Grammar { grammar: Grammar },
}

/// A custom tool that the model may call.
#[derive(Debug)]
pub struct CustomTool {
    pub name: String,
    pub description: Option<String>,
    pub format: Option<CustomToolFormat>,
}

/// A tool of a request.
#[derive(Debug)]
pub struct Tool {
    pub ty: String,
    pub function: Option<FunctionDefinition>,
    pub custom: Option<CustomTool>,
}

/// The tools that a request allows, each as a JSON value.
#[derive(Debug)]
pub struct AllowedTools {
    pub mode: String,
    pub tools: Option<Vec<Value>>,
}

/// A tool choice that names the allowed tools.
#[derive(Debug)]
pub struct AllowedToolsChoice {
    pub ty: String,
    pub allowed_tools: AllowedTools,
}

/// The name of a function or a custom tool.
#[derive(Debug)]
pub struct ToolName {
    pub name: String,
}

/// A tool choice that names a function.
#[derive(Debug)]
pub struct NamedToolChoice {
    pub ty: String,
    pub function: ToolName,
}

/// A tool choice that names a custom tool.
#[derive(Debug)]
pub struct CustomToolChoice {
    pub ty: String,
    pub custom: ToolName,
}

/// Which tools the model may or must call.
#[derive(Debug)]
pub enum ToolChoice {
    Mode(String),
    AllowedTools(AllowedToolsChoice),
    Named(NamedToolChoice),
    Custom(CustomToolChoice),
}

/// The format in which the model is to answer.
#[derive(Debug)]
pub struct ResponseFormat {
    pub ty: String,
    pub json_schema: Option<Value>,
}

/// A chat completion request.
#[derive(Debug)]
pub struct ChatCompletionsRequest {
    pub model: String,
    pub messages: Vec<Message>,
    pub tools: Option<Vec<Tool>>,
    pub tool_choice: Option<ToolChoice>,
    pub parallel_tool_calls: Option<bool>,
    pub response_format: Option<ResponseFormat>,
}

// ---------------------------------------------------------------------------
// Response chunks
// ---------------------------------------------------------------------------

/// What a chunk adds to the answer.
#[derive(Debug)]
pub struct Delta {
    pub role: Option<String>,
    pub content: Option<String>,
    pub tool_calls: Option<Vec<ToolCall>>,
}

impl Default for Delta {
    fn default() -> (r: Self)
        ensures
            r.role is None,
            r.content is None,
            r.tool_calls is None,
    {
        Delta { role: None, content: None, tool_calls: None }
    }
}

/// One of the answers that a chunk belongs to.
#[derive(Debug)]
pub struct ChunkChoice {
    pub index: u32,
    pub delta: Delta,
    pub finish_reason: Option<&'static str>,
    pub logprobs: Option<Value>,
}

/// Token counts.
#[derive(Debug, Clone, Copy)]
pub struct Usage {
    pub prompt_tokens: u32,
    pub completion_tokens: u32,
    pub total_tokens: u32,
}

/// A chunk of a streamed answer.
#[derive(Debug)]
pub struct ChatCompletionsResponseChunk {
    pub id: String,
    pub object: &'static str,
    pub created: u64,
    pub model: String,
    pub choices: Vec<ChunkChoice>,
    pub usage: Option<Usage>,
    pub service_tier: Option<String>,
    pub system_fingerprint: Option<String>,
}

} // verus!
