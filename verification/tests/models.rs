use traitclaw::models::{azure_openai, custom, groq, mistral, ollama, openai, together};

#[test]
fn provider_base_urls() {
    let c = openai("gpt-4o", "k1");
    assert_eq!(c.base_url, "https://api.openai.com/v1");
    assert_eq!(c.api_key, "k1");
    assert_eq!(c.model, "gpt-4o");
    assert!(c.model_info.is_none());
    assert_eq!(groq("m", "").base_url, "https://api.groq.com/openai/v1");
    assert_eq!(together("m", "").base_url, "https://api.together.xyz/v1");
    assert_eq!(mistral("m", "").base_url, "https://api.mistral.ai/v1");
    let o = ollama("llama3");
    assert_eq!(o.base_url, "http://localhost:11434/v1");
    assert_eq!(o.api_key, "");
}

#[test]
fn azure_url_and_default_version() {
    let c = azure_openai("res", "dep", None, "key");
    assert_eq!(c.base_url, "https://res.openai.azure.com/openai/deployments/dep?api-version=2024-02-01");
    assert_eq!(c.model, "dep");
    let d = azure_openai("res", "dep", Some("2025-01-01"), "key");
    assert!(d.base_url.ends_with("api-version=2025-01-01"));
}

#[test]
fn custom_endpoint() {
    let c = custom("http://localhost:8000/v1", "my-model", "");
    assert_eq!(c.base_url, "http://localhost:8000/v1");
    assert_eq!(c.model, "my-model");
}
