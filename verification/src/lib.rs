//! A bridge between the two request, response and streaming formats of OpenAI's interface: Chat
//! Completions and Responses.

pub mod argument_laws;
pub mod arguments;
pub mod chat_chunk;
pub mod chat_laws;
pub mod chat_messages;
pub mod chat_request;
pub mod chat_response;
pub mod chat_run_laws;
pub mod chat_stream;
pub mod chat_stream_laws;
pub mod content;
pub mod end_laws;
pub mod error;
pub mod event_laws;
pub mod input_items;
pub mod input_laws;
pub mod item_laws;
pub mod json;
pub mod keys;
pub mod machine;
pub mod message_laws;
pub mod order_laws;
pub mod output_laws;
pub mod reply_laws;
pub mod request_laws;
pub mod response_laws;
pub mod responses_event;
pub mod responses_request;
pub mod responses_response;
pub mod responses_stream;
pub mod responses_stream_laws;
pub mod schema;
pub mod setting_laws;
pub mod sse;
pub mod sse_laws;
pub mod stream_laws;
pub mod table;
pub mod text;
pub mod text_laws;
pub mod think_laws;
pub mod thinking;
pub mod tool_laws;
pub mod value;
