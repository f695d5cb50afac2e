//! Configuration of the OpenAI-backed embedding and chat provider.
//!
//! The configuration itself is plain data. The one piece of provider logic
//! that is pure is the token budget a prompt needs under a configuration;
//! the unverified shell that performs the HTTP requests checks it before
//! every chat call.

use vstd::prelude::*;

use crate::error::Error;
use crate::prompt::Prompt;

verus! {

/// Connection and model parameters for the OpenAI-backed provider.
#[derive(Clone, Debug, PartialEq)]
pub struct OpenAIConfig {
    pub validation_url: String,
    pub embedding_model: String,
    pub smart_text_model: String,
    pub cheap_text_model: String,
    pub smart_model_max_tokens: u32,
    pub cheap_model_max_tokens: u32,
    pub embedding_url: String,
    pub chat_url: String,
    pub api_key: String,
    pub characters_per_token: u32,
}

impl OpenAIConfig {
    /// The token budget a prompt needs: its character cap divided by this
    /// configuration's characters-per-token; `None` when the prompt is
    /// uncapped. A budget over `model_max_tokens` is rejected, carrying the
    /// prompt in the error.
    pub fn token_budget(&self, prompt: &Prompt, model_max_tokens: u32) -> (r: Result<
        Option<u32>,
        Error,
    >)
        requires
            self.characters_per_token > 0,
        ensures
            match r {
                Ok(Some(t)) => prompt.max_characters matches Some(mc) && t == mc
                    / self.characters_per_token && t <= model_max_tokens,
                Ok(None) => prompt.max_characters is None,
                Err(e) => {
                    &&& prompt.max_characters matches Some(mc) && mc / self.characters_per_token
                        > model_max_tokens
                    &&& e matches Error::PromptExceedsModelTokenLimit(p) && p.system_prompt@
                        == prompt.system_prompt@ && p.user_prompt@ == prompt.user_prompt@
                        && p.max_characters == prompt.max_characters
                },
            },
    {
        match prompt.max_characters {
            Some(mc) => {
                let tokens = mc / self.characters_per_token;
                if tokens > model_max_tokens {
                    Err(
                        Error::PromptExceedsModelTokenLimit(
                            Prompt::new(
                                prompt.system_prompt.as_str(),
                                prompt.user_prompt.as_str(),
                                prompt.max_characters,
                            ),
                        ),
                    )
                } else {
                    Ok(Some(tokens))
                }
            },
            None => Ok(None),
        }
    }
}

} // verus!
