//! Request settings carried by AI task payloads.
use vstd::prelude::*;
use crate::text::owned;

verus! {

/// Timeout of a task when its payload names none: five minutes.
pub fn default_timeout_ms() -> (r: u64)
    ensures
        r == 300_000,
{
    300_000
}

/// Configuration for preprocessing requests.
pub struct PreprocessConfig {
    pub input_path: String,
    pub output_path: String,
    pub format: String,
}

/// Configuration for evaluation requests.
pub struct EvalConfig {
    pub model_path: String,
    pub dataset_path: String,
    pub metrics: Vec<String>,
    pub output_path: Option<String>,
}

/// Configuration for RAG requests.
pub struct RagConfig {
    pub query: String,
    pub index_path: String,
    pub model_path: Option<String>,
    pub top_k: u32,
}

impl Default for RagConfig {
    fn default() -> (r: Self)
        ensures
            r.query@ == Seq::<char>::empty(),
            r.index_path@ == Seq::<char>::empty(),
            r.model_path is None,
            r.top_k == 5,
    {
        RagConfig { query: String::new(), index_path: String::new(), model_path: None, top_k: 5 }
    }
}

/// Configuration for embedding requests.
pub struct EmbedConfig {
    pub input: String,
    pub model_path: Option<String>,
    pub index_path: Option<String>,
    pub operation: String,
}

impl EmbedConfig {
    /// An embedding request for the given input, with the default `embed` operation.
    pub fn for_input(input: String) -> (r: Self)
        ensures
            r.input@ == input@,
            r.model_path is None,
            r.index_path is None,
            r.operation@ == "embed"@,
    {
        EmbedConfig { input, model_path: None, index_path: None, operation: owned("embed") }
    }
}

} // verus!
