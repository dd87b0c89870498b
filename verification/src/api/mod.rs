//! Model providers: which wire protocol a model speaks.

pub mod anthropic;
pub mod openai;
pub mod provider;
pub mod request;
pub mod response;
