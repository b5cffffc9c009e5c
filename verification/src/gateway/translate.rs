//! Between the shapes clients speak and the one request workers take.
pub use crate::gateway::answer::{Answer, Usage};
pub use crate::gateway::anthropic::{
    anthropic_content, anthropic_error, anthropic_live_end, anthropic_live_error,
    anthropic_live_start, anthropic_live_text_delta, anthropic_live_text_start, anthropic_message,
    anthropic_stream,
};
pub use crate::gateway::inbound::{
    AnthropicMessage, AnthropicRequest, BadRequest, ChatRequest, OpenAiMessage, OpenAiRequest,
    ResponsesRequest, DEFAULT_MAX_TOKENS,
};
pub use crate::gateway::openai::{
    openai_completion, openai_error, openai_live_delta, openai_live_end, openai_live_error,
    openai_live_start, openai_stream,
};
pub use crate::gateway::responses::{
    openai_response, openai_response_stream, responses_error, responses_live_delta,
    responses_live_end, responses_live_error, responses_live_in_progress, responses_live_start,
    responses_live_text_start,
};
pub use crate::gateway::thinking::peel_thinking;
