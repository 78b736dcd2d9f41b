//! Asking a model of Anthropic's over the network.

use crate::text::{joined, joined3, replace_all, replaced, same};
use vstd::prelude::*;

verus! {

/// Where requests go.
pub const CLAUDE_API_URL: &'static str = "https://api.anthropic.com/v1/messages";

/// The version of the interface that requests are written for.
pub const ANTHROPIC_VERSION: &'static str = "2023-06-01";

/// The most that an answer may hold.
pub const MAX_TOKENS: u32 = 4096;

/// One message of a conversation.
#[derive(Debug)]
pub struct ClaudeMessage {
    pub role: String,
    pub content: String,
}

/// A request.
#[derive(Debug)]
pub struct ClaudeRequest {
    pub model: String,
    pub max_tokens: u32,
    pub messages: Vec<ClaudeMessage>,
}

/// The model that is asked: the one that is named, else the default one.
pub open spec fn model_or_default(model: Seq<char>, default_model: Seq<char>) -> Seq<char> {
    if model.len() == 0 {
        default_model
    } else {
        model
    }
}

/// The request for a prompt in which the text takes the place of `{transcript}`.
pub fn build_request(prompt: &str, text: &str, model: &str, default_model: &str) -> (r: ClaudeRequest)
    ensures
        r.model@ == model_or_default(model@, default_model@),
        r.max_tokens == MAX_TOKENS,
        r.messages@.len() == 1,
        r.messages@[0].role@ == "user"@,
        r.messages@[0].content@ == replaced(prompt@, "{transcript}"@, text@),
{
    proof {
        reveal_strlit("{transcript}");
    }
    let mut messages: Vec<ClaudeMessage> = Vec::new();
    messages.push(
        ClaudeMessage {
            role: "user".to_owned(),
            content: replace_all(prompt, "{transcript}", text),
        },
    );
    let model_id = if model.is_empty() {
        default_model
    } else {
        model
    };
    ClaudeRequest { model: model_id.to_owned(), max_tokens: MAX_TOKENS, messages }
}

/// One block of an answer.
#[derive(Debug)]
pub struct ClaudeContentBlock {
    pub text: Option<String>,
    pub block_type: String,
}

/// An answer.
#[derive(Debug)]
pub struct ClaudeResponse {
    pub content: Option<Vec<ClaudeContentBlock>>,
    /// The message of an error.
    pub error: Option<String>,
}

/// The text of the first block that is of text and has one.
pub open spec fn first_text(blocks: Seq<ClaudeContentBlock>, i: int) -> Option<Seq<char>>
    decreases blocks.len() - i,
{
    if i >= blocks.len() {
        None
    } else if blocks[i].block_type@ == "text"@ && blocks[i].text is Some {
        Some(blocks[i].text->0@)
    } else {
        first_text(blocks, i + 1)
    }
}

/// What a request that was turned down says: the service's own message, where there is
/// one.
pub fn refusal(status: &str, body: &str, message: Option<&str>) -> (r: String)
    ensures
        r@ == match message {
            Some(m) => "Anthropic API error: "@ + m@,
            None => "API request failed ("@ + status@ + "): "@ + body@,
        },
{
    match message {
        Some(m) => joined("Anthropic API error: ", m),
        None => {
            let first = joined3("API request failed (", status, "): ");
            joined(first.as_str(), body)
        },
    }
}

/// Reads an answer, or the error that says why it cannot be read.
pub fn read_response(response: Result<ClaudeResponse, String>, model_id: &str) -> (r: Result<
    String,
    String,
>)
    ensures
        match response {
            Err(e) => r is Err && r->Err_0@ == "Failed to parse response: "@ + e@,
            Ok(answer) => if answer.error is Some {
                r is Err && r->Err_0@ == "Anthropic API error: "@ + answer.error->0@
            } else {
                match answer.content {
                    Some(blocks) if first_text(blocks@, 0) is Some => r is Ok && r->Ok_0@
                        == first_text(blocks@, 0)->0,
                    _ => r is Err && r->Err_0@ == "No response from Anthropic model '"@ + model_id@
                        + "'"@,
                }
            },
        },
{
    let answer = match response {
        Ok(a) => a,
        Err(e) => {
            return Err(joined("Failed to parse response: ", e.as_str()));
        },
    };
    match answer.error {
        Some(m) => {
            return Err(joined("Anthropic API error: ", m.as_str()));
        },
        None => {},
    }
    match answer.content {
        Some(blocks) => {
            let mut i: usize = 0;
            while i < blocks.len()
                invariant
                    i <= blocks@.len(),
                    first_text(blocks@, 0) == first_text(blocks@, i as int),
                    answer.error is None,
                    answer.content == Some(blocks),
                    response == Ok::<ClaudeResponse, String>(answer),
                decreases blocks@.len() - i,
            {
                if same(blocks[i].block_type.as_str(), "text") {
                    match &blocks[i].text {
                        Some(t) => {
                            return Ok(t.clone());
                        },
                        None => {},
                    }
                }
                i += 1;
            }
        },
        None => {},
    }
    Err(joined3("No response from Anthropic model '", model_id, "'"))
}

/// The message when the service cannot be reached.
pub fn network_error(error: &str) -> (r: String)
    ensures
        r@ == "Network error: "@ + error@,
{
    joined("Network error: ", error)
}

/// The answer is the first block of text that has one; other blocks do not matter.
pub proof fn law_first_text(blocks: Seq<ClaudeContentBlock>, i: int)
    requires
        0 <= i < blocks.len(),
        blocks[i].block_type@ == "text"@,
        blocks[i].text is Some,
        forall|j: int|
            0 <= j < i ==> (#[trigger] blocks[j]).block_type@ != "text"@ || blocks[j].text is None,
    ensures
        first_text(blocks, 0) == Some(blocks[i].text->0@),
{
    lemma_first_text(blocks, 0, i);
}

proof fn lemma_first_text(blocks: Seq<ClaudeContentBlock>, from: int, i: int)
    requires
        0 <= from <= i < blocks.len(),
        blocks[i].block_type@ == "text"@,
        blocks[i].text is Some,
        forall|j: int|
            0 <= j < i ==> (#[trigger] blocks[j]).block_type@ != "text"@ || blocks[j].text is None,
    ensures
        first_text(blocks, from) == Some(blocks[i].text->0@),
    decreases i - from,
{
    if from < i {
        assert(blocks[from].block_type@ != "text"@ || blocks[from].text is None);
        lemma_first_text(blocks, from + 1, i);
    }
}

/// Without a block of text that has one there is no answer.
pub proof fn law_no_text(blocks: Seq<ClaudeContentBlock>, from: int)
    requires
        0 <= from,
        forall|j: int|
            from <= j < blocks.len() ==> (#[trigger] blocks[j]).block_type@ != "text"@
                || blocks[j].text is None,
    ensures
        first_text(blocks, from) is None,
    decreases blocks.len() - from,
{
    if from < blocks.len() {
        assert(blocks[from].block_type@ != "text"@ || blocks[from].text is None);
        law_no_text(blocks, from + 1);
    }
}

/// The model that is named is asked; the default one only where none is.
pub proof fn law_named_model_is_asked(model: Seq<char>, default_model: Seq<char>)
    ensures
        model.len() > 0 ==> model_or_default(model, default_model) == model,
        model.len() == 0 ==> model_or_default(model, default_model) == default_model,
{
}

} // verus!
