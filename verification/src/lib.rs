//! Chat completions over a pool of accounts of a text-only service.
//!
//! The service takes one prompt and answers with text. This library holds what lies between
//! it and a client that speaks of messages, tools and chunks:
//!
//! - [`prompt`] and [`tools`] turn a request into a prompt. The tools are described in
//!   words, and a tool is called by an element of its name, `<tool_name>{json}</tool_name>`.
//! - [`tool_parser`] reads the tool calls back from a whole answer, and [`stream`] from one
//!   that arrives in pieces. They rest on [`tags`], which finds tags, [`repair`], which mends
//!   JSON that a model got slightly wrong, and [`invoke`], which reads a fallback format.
//! - [`pool`] hands out accounts, one request at a time each, and [`login`] says which calls
//!   initialise an account.
//!
//! Bytes are looked at where offsets matter and characters elsewhere; [`text`] relates the
//! two. What holds of several functions together stands in the modules whose names end in
//! `laws`, and in [`replay`].

pub mod account_laws;
pub mod accounts;
pub mod call_ids;
pub mod calls;
pub mod clock;
pub mod config;
pub mod invoke;
pub mod invoke_laws;
pub mod json;
pub mod login;
pub mod login_laws;
pub mod message_laws;
pub mod parser_laws;
pub mod pool;
pub mod pool_laws;
pub mod prompt;
pub mod prompt_laws;
pub mod repair;
pub mod replay;
pub mod stream;
pub mod stream_laws;
pub mod tag_laws;
pub mod tags;
pub mod text;
pub mod tool_laws;
pub mod tool_parser;
pub mod tools;
pub mod types;
pub mod view_laws;
