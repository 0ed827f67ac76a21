//! Configurations of OpenAI-compatible providers.
//!
//! The API key is an argument: reading it from the environment is the
//! caller's part.

use vstd::prelude::*;
use crate::types::ModelInfo;
use crate::text::push_str;

verus! {

/// Connection settings of an OpenAI-compatible endpoint.
#[derive(Debug)]
pub struct OpenAiCompatConfig {
    /// Base URL of the API.
    pub base_url: String,
    /// Bearer key (empty for none).
    pub api_key: String,
    /// Model identifier.
    pub model: String,
    /// Model description, when known.
    pub model_info: Option<ModelInfo>,
}

/// A configuration with no model description.
pub open spec fn is_config(c: OpenAiCompatConfig, base_url: Seq<char>, api_key: Seq<char>, model: Seq<char>) -> bool {
    c.base_url@ == base_url && c.api_key@ == api_key && c.model@ == model && c.model_info is None
}

fn config(base_url: &str, api_key: &str, model: &str) -> (c: OpenAiCompatConfig)
    ensures
        is_config(c, base_url@, api_key@, model@),
{
    OpenAiCompatConfig {
        base_url: base_url.to_owned(),
        api_key: api_key.to_owned(),
        model: model.to_owned(),
        model_info: None,
    }
}

/// OpenAI (`https://api.openai.com/v1`).
pub fn openai(model: &str, api_key: &str) -> (c: OpenAiCompatConfig)
    ensures
        is_config(c, "https://api.openai.com/v1"@, api_key@, model@),
{
    config("https://api.openai.com/v1", api_key, model)
}

/// Groq (`https://api.groq.com/openai/v1`).
pub fn groq(model: &str, api_key: &str) -> (c: OpenAiCompatConfig)
    ensures
        is_config(c, "https://api.groq.com/openai/v1"@, api_key@, model@),
{
    config("https://api.groq.com/openai/v1", api_key, model)
}

/// Together AI (`https://api.together.xyz/v1`).
pub fn together(model: &str, api_key: &str) -> (c: OpenAiCompatConfig)
    ensures
        is_config(c, "https://api.together.xyz/v1"@, api_key@, model@),
{
    config("https://api.together.xyz/v1", api_key, model)
}

/// Mistral (`https://api.mistral.ai/v1`).
pub fn mistral(model: &str, api_key: &str) -> (c: OpenAiCompatConfig)
    ensures
        is_config(c, "https://api.mistral.ai/v1"@, api_key@, model@),
{
    config("https://api.mistral.ai/v1", api_key, model)
}

/// A local Ollama server (`http://localhost:11434/v1`, no key).
pub fn ollama(model: &str) -> (c: OpenAiCompatConfig)
    ensures
        is_config(c, "http://localhost:11434/v1"@, ""@, model@),
{
    config("http://localhost:11434/v1", "", model)
}

/// The endpoint of an Azure OpenAI deployment.
pub open spec fn azure_url(resource: Seq<char>, deployment: Seq<char>, api_version: Seq<char>) -> Seq<char> {
    "https://"@ + resource + ".openai.azure.com/openai/deployments/"@ + deployment + "?api-version="@
        + api_version
}

/// Azure OpenAI: the deployment is the model; the API version defaults to
/// `2024-02-01`.
pub fn azure_openai(resource: &str, deployment: &str, api_version: Option<&str>, api_key: &str) -> (c: OpenAiCompatConfig)
    ensures
        is_config(
            c,
            azure_url(resource@, deployment@, match api_version { Some(v) => v@, None => "2024-02-01"@ }),
            api_key@,
            deployment@,
        ),
{
    let version = match api_version {
        Some(v) => v,
        None => "2024-02-01",
    };
    let mut url = String::new();
    push_str(&mut url, "https://");
    push_str(&mut url, resource);
    push_str(&mut url, ".openai.azure.com/openai/deployments/");
    push_str(&mut url, deployment);
    push_str(&mut url, "?api-version=");
    push_str(&mut url, version);
    proof {
        assert(url@ =~= azure_url(resource@, deployment@, version@));
    }
    OpenAiCompatConfig { base_url: url, api_key: api_key.to_owned(), model: deployment.to_owned(), model_info: None }
}

/// Any OpenAI-compatible endpoint.
pub fn custom(base_url: &str, model: &str, api_key: &str) -> (c: OpenAiCompatConfig)
    ensures
        is_config(c, base_url@, api_key@, model@),
{
    config(base_url, api_key, model)
}

} // verus!
