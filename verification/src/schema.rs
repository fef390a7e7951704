//! The canonical request/response schemas of the API: chat messages and
//! requests, buffered and streamed completion results, and embeddings.
//! Floating-point payloads (embedding vectors, sampling temperature) are
//! carried as plain integers: a vector component as the bit pattern of its
//! 32-bit float, the temperature in thousandths.

use vstd::prelude::*;

verus! {

/// One chat message: a role (`system`, `user`, ...) and its text.
#[derive(Debug)]
pub struct Message {
    pub role: String,
    pub content: String,
}

/// The mathematical value of a message.
pub ghost struct MessageV {
    pub role: Seq<char>,
    pub content: Seq<char>,
}

impl View for Message {
    type V = MessageV;

    open spec fn view(&self) -> MessageV {
        MessageV { role: self.role@, content: self.content@ }
    }
}

impl DeepView for Message {
    type V = MessageV;

    open spec fn deep_view(&self) -> MessageV {
        self.view()
    }
}

/// A chat completion request: the ordered conversation so far, the model to
/// run, an optional sampling temperature (in thousandths, so 700 stands for
/// 0.700) and an optional streaming flag.
#[derive(Debug)]
pub struct ChatCompletionRequest {
    pub messages: Vec<Message>,
    pub model: String,
    pub temperature: Option<u32>,
    pub stream: Option<bool>,
}

/// The mathematical value of a chat completion request.
pub ghost struct ChatRequestV {
    pub messages: Seq<MessageV>,
    pub model: Seq<char>,
    pub temperature: Option<u32>,
    pub stream: Option<bool>,
}

impl View for ChatCompletionRequest {
    type V = ChatRequestV;

    open spec fn view(&self) -> ChatRequestV {
        ChatRequestV {
            messages: self.messages.deep_view(),
            model: self.model@,
            temperature: self.temperature,
            stream: self.stream,
        }
    }
}

/// The fixed two-message template: a system prompt and one user message.
#[derive(Debug)]
pub struct Simple {
    pub system: String,
    pub user: String,
    pub model: String,
}

impl Simple {
    /// Build the chat request for the template: exactly the system message
    /// followed by the user message, in that order, with streaming and
    /// temperature left unset.
    pub fn create_chat_completion_request(&self) -> (r: ChatCompletionRequest)
        ensures
            r@.messages.len() == 2,
            r@.messages[0] == (MessageV { role: "system"@, content: self.system@ }),
            r@.messages[1] == (MessageV { role: "user"@, content: self.user@ }),
            r@.model == self.model@,
            r@.temperature is None,
            r@.stream is None,
    {
        let system_message = Message { role: "system".to_owned(), content: self.system.clone() };
        let user_message = Message { role: "user".to_owned(), content: self.user.clone() };
        let mut messages: Vec<Message> = Vec::new();
        messages.push(system_message);
        messages.push(user_message);
        proof {
            assert(messages.deep_view() =~= seq![
                MessageV { role: "system"@, content: self.system@ },
                MessageV { role: "user"@, content: self.user@ },
            ]);
        }
        ChatCompletionRequest {
            messages,
            model: self.model.clone(),
            temperature: None,
            stream: None,
        }
    }
}

/// Token accounting for a completion.
#[derive(Debug)]
pub struct ChatUsage {
    pub completion_tokens: u32,
    pub prompt_tokens: u32,
    pub total_tokens: u32,
    pub completion_tokens_details: CompletionTokenDetails,
}

#[derive(Debug)]
pub struct CompletionTokenDetails {
    pub reasoning_tokens: u32,
}

/// A buffered (non-streaming) chat completion result.
#[derive(Debug)]
pub struct ChatCompletion {
    pub id: String,
    pub object: String,
    pub created: u32,
    pub model: String,
    pub system_fingerprint: String,
    pub choices: Vec<ChatCompletionChoice>,
    pub service_tier: Option<String>,
    pub usage: ChatUsage,
}

#[derive(Debug)]
pub struct ChatCompletionChoice {
    pub finish_reason: String,
    pub index: u32,
    pub message: ChatCompletionMessage,
}

#[derive(Debug)]
pub struct ChatCompletionMessage {
    pub content: Option<String>,
    pub refusal: Option<String>,
    pub role: String,
    pub tool_calls: Option<ToolCall>,
}

#[derive(Debug)]
pub struct ToolCall {
    pub id: String,
    pub tool_type: String,
    pub function: ToolCallFunction,
    pub role: String,
}

#[derive(Debug)]
pub struct ToolCallFunction {
    pub name: String,
    pub arguments: String,
}

/// One streamed completion event: the per-choice deltas of this instant.
#[derive(Debug)]
pub struct ChatCompletionChunk {
    pub id: String,
    pub choices: Vec<ChatCompletionChunkChoice>,
    pub created: u32,
    pub model: String,
    pub service_tier: Option<String>,
    pub system_fingerprint: String,
    pub object: String,
    pub usage: Option<ChatUsage>,
}

#[derive(Debug)]
pub struct ChatCompletionChunkChoice {
    pub delta: Delta,
    pub logprobs: Option<LogProbs>,
    pub finish_reason: Option<String>,
    pub index: u32,
}

/// The incremental content of one streamed choice.
#[derive(Debug)]
pub struct Delta {
    pub content: Option<String>,
    pub tool_calls: Option<ToolCall>,
    pub refusal: Option<String>,
    pub role: Option<String>,
}

#[derive(Debug)]
pub struct LogProbs {
    pub content: Vec<String>,
    pub refusal: Vec<String>,
}

/// An embedding request: one input text, the model, and optional
/// output-format, dimension and user hints.
#[derive(Debug)]
pub struct EmbeddingRequest {
    pub input: String,
    pub model: String,
    pub encoding_format: Option<String>,
    pub dimensions: Option<u32>,
    pub user: Option<String>,
}

/// The mathematical value of an embedding request.
pub ghost struct EmbeddingRequestV {
    pub input: Seq<char>,
    pub model: Seq<char>,
    pub encoding_format: Option<Seq<char>>,
    pub dimensions: Option<u32>,
    pub user: Option<Seq<char>>,
}

impl View for EmbeddingRequest {
    type V = EmbeddingRequestV;

    open spec fn view(&self) -> EmbeddingRequestV {
        EmbeddingRequestV {
            input: self.input@,
            model: self.model@,
            encoding_format: match self.encoding_format {
                Some(ref s) => Some(s@),
                None => None,
            },
            dimensions: self.dimensions,
            user: match self.user {
                Some(ref s) => Some(s@),
                None => None,
            },
        }
    }
}

impl EmbeddingRequest {
    /// An embedding request for a single input string, with every optional
    /// hint left unset.
    pub fn new(input: &str, model: &str) -> (r: Self)
        ensures
            r@.input == input@,
            r@.model == model@,
            r@.encoding_format is None,
            r@.dimensions is None,
            r@.user is None,
    {
        EmbeddingRequest {
            input: input.to_owned(),
            model: model.to_owned(),
            encoding_format: None,
            dimensions: None,
            user: None,
        }
    }
}

/// The response to an embedding request: the ordered list of embeddings and
/// the token usage.
#[derive(Debug)]
pub struct EmbeddingResponse {
    pub object: Option<String>,
    pub data: Vec<Embedding>,
    pub model: String,
    pub usage: Usage,
}

/// One embedding: its position in the request's fan-out and its vector,
/// each component the bit pattern of a 32-bit float.
#[derive(Debug)]
pub struct Embedding {
    pub index: u32,
    pub embedding: Vec<u32>,
    pub object: Option<String>,
}

#[derive(Debug)]
pub struct Usage {
    pub prompt_tokens: u32,
    pub total_tokens: u32,
}

} // verus!
