//! What the engine asks a provider for: the model, the conversation, the
//! system prompt and the tools.

use vstd::prelude::*;
use super::response::{ApiMessage, ApiMessageV};

verus! {

/// One block of the system prompt.
pub struct SystemBlock {
    pub text: String,
}

/// A tool the model may call; its input schema is compact JSON text.
pub struct ApiToolParam {
    pub name: String,
    pub description: String,
    pub input_schema: String,
}

/// Mathematical view of a tool.
pub ghost struct ToolParamV {
    pub name: Seq<char>,
    pub description: Seq<char>,
    pub input_schema: Seq<char>,
}

impl View for ApiToolParam {
    type V = ToolParamV;

    open spec fn view(&self) -> ToolParamV {
        ToolParamV { name: self.name@, description: self.description@, input_schema: self.input_schema@ }
    }
}

/// Extended thinking, for providers that offer it: the tokens the model may
/// think with.
#[derive(Clone, Copy, Debug, PartialEq, Eq, Structural)]
pub struct ThinkingConfig {
    pub budget_tokens: u64,
}

/// One request to a provider.
pub struct ProviderRequest {
    pub model: String,
    pub max_tokens: u64,
    pub messages: Vec<ApiMessage>,
    pub system: Option<Vec<SystemBlock>>,
    pub tools: Option<Vec<ApiToolParam>>,
    pub thinking: Option<ThinkingConfig>,
}

/// Mathematical view of a request.
pub ghost struct ProviderRequestV {
    pub model: Seq<char>,
    pub max_tokens: u64,
    pub messages: Seq<ApiMessageV>,
    pub system: Option<Seq<Seq<char>>>,
    pub tools: Option<Seq<ToolParamV>>,
    pub thinking: Option<ThinkingConfig>,
}

impl View for ProviderRequest {
    type V = ProviderRequestV;

    open spec fn view(&self) -> ProviderRequestV {
        ProviderRequestV {
            model: self.model@,
            max_tokens: self.max_tokens,
            messages: self.messages@.map_values(|m: ApiMessage| m@),
            system: match self.system {
                Some(bs) => Some(bs@.map_values(|b: SystemBlock| b.text@)),
                None => None,
            },
            tools: match self.tools {
                Some(ts) => Some(ts@.map_values(|t: ApiToolParam| t@)),
                None => None,
            },
            thinking: self.thinking,
        }
    }
}

} // verus!
