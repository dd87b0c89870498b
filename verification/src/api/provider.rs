//! Provider kinds and the API type a model is spoken to with.

use vstd::prelude::*;
use crate::text::{contains, has_sub, is_prefix, lowercase, starts_with, str_eq, to_lowercase};
use super::response::{ApiError, ApiErrorV, ApiMessage, ApiUsage, ReplyV, blocks_view};
use crate::types::opt_view;

verus! {

/// API type identifier.
#[derive(Clone, Copy, Debug, PartialEq, Eq, Structural)]
pub enum ApiType {
    AnthropicMessages,
    OpenAICompletions,
}

#[derive(Clone, Copy, Debug, PartialEq, Eq, Structural)]
pub enum ProviderKind {
    Anthropic,
    OpenAi,
}

pub open spec fn api_type_of(p: ProviderKind) -> ApiType {
    match p {
        ProviderKind::Anthropic => ApiType::AnthropicMessages,
        ProviderKind::OpenAi => ApiType::OpenAICompletions,
    }
}

impl ProviderKind {
    pub fn api_type(&self) -> (r: ApiType)
        ensures
            r == api_type_of(*self),
    {
        match self {
            ProviderKind::Anthropic => ApiType::AnthropicMessages,
            ProviderKind::OpenAi => ApiType::OpenAICompletions,
        }
    }
}

/// Normalized response from any model provider.
pub struct ProviderResponse {
    pub message: ApiMessage,
    pub usage: ApiUsage,
    pub stop_reason: Option<String>,
}

/// What a parse gives, viewed: the reply's blocks, usage and stop reason, or
/// the error.
pub open spec fn parsed_view(r: Result<ProviderResponse, ApiError>) -> Result<ReplyV, ApiErrorV> {
    match r {
        Ok(p) => Ok(
            ReplyV {
                content: blocks_view(p.message.content@),
                usage: p.usage,
                stop_reason: opt_view(p.stop_reason),
            },
        ),
        Err(e) => Err(e@),
    }
}

/// The API type an explicit setting names, if it names one.
pub open spec fn named_api_type(s: Seq<char>) -> Option<ApiType> {
    if s == "openai-completions"@ {
        Some(ApiType::OpenAICompletions)
    } else if s == "anthropic-messages"@ {
        Some(ApiType::AnthropicMessages)
    } else {
        None
    }
}

/// Model names (lowercased) served over the OpenAI-compatible protocol.
pub open spec fn openai_family(m: Seq<char>) -> bool {
    has_sub(m, "gpt-"@) || is_prefix("o1"@, m) || is_prefix("o3"@, m) || is_prefix("o4"@, m) || has_sub(m, "deepseek"@)
        || has_sub(m, "qwen"@) || has_sub(m, "yi-"@) || has_sub(m, "glm"@) || has_sub(m, "mistral"@) || has_sub(
        m,
        "gemma"@,
    ) || has_sub(m, "mimo"@) || has_sub(m, "llama"@) || has_sub(m, "gemini"@)
}

/// The API type to use: the provider's when one is configured, else the
/// one an explicit setting names (`env_api_type`, then the
/// `CODEANY_API_TYPE` environment variable's value), else a guess from the
/// model name, Anthropic's protocol by default.
pub open spec fn resolve_spec(provider: Option<ProviderKind>, model: Seq<char>, setting: Option<Seq<char>>, env_var: Option<Seq<char>>) -> ApiType {
    match provider {
        Some(p) => api_type_of(p),
        None => {
            let from_setting = match setting {
                Some(s) => named_api_type(s),
                None => None,
            };
            let from_env = match env_var {
                Some(s) => named_api_type(s),
                None => None,
            };
            match from_setting {
                Some(t) => t,
                None => match from_env {
                    Some(t) => t,
                    None => if openai_family(lowercase(model)) {
                        ApiType::OpenAICompletions
                    } else {
                        ApiType::AnthropicMessages
                    },
                },
            }
        },
    }
}

fn named(s: &str) -> (r: Option<ApiType>)
    ensures
        r == named_api_type(s@),
{
    if str_eq(s, "openai-completions") {
        Some(ApiType::OpenAICompletions)
    } else if str_eq(s, "anthropic-messages") {
        Some(ApiType::AnthropicMessages)
    } else {
        None
    }
}

/// Resolves the API type. `env_var` is the value of the `CODEANY_API_TYPE`
/// environment variable, when it is set.
pub fn resolve_api_type(provider: Option<&ProviderKind>, model: &str, env_api_type: Option<&str>, env_var: Option<&str>) -> (r: ApiType)
    ensures
        r == resolve_spec(
            match provider {
                Some(p) => Some(*p),
                None => None,
            },
            model@,
            match env_api_type {
                Some(s) => Some(s@),
                None => None,
            },
            match env_var {
                Some(s) => Some(s@),
                None => None,
            },
        ),
{
    if let Some(p) = provider {
        return p.api_type();
    }
    if let Some(t) = env_api_type {
        if let Some(a) = named(t) {
            return a;
        }
    }
    if let Some(t) = env_var {
        if let Some(a) = named(t) {
            return a;
        }
    }
    let m = to_lowercase(model);
    let ms = m.as_str();
    if contains(ms, "gpt-") || starts_with(ms, "o1") || starts_with(ms, "o3") || starts_with(ms, "o4") || contains(ms, "deepseek")
        || contains(ms, "qwen") || contains(ms, "yi-") || contains(ms, "glm") || contains(ms, "mistral") || contains(
        ms,
        "gemma",
    ) || contains(ms, "mimo") || contains(ms, "llama") || contains(ms, "gemini") {
        return ApiType::OpenAICompletions;
    }
    ApiType::AnthropicMessages
}

} // verus!
