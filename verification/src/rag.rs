//! Configuration and decisions of the retrieval pipeline: the endpoints, the
//! error messages of OpenAI-compatible APIs, and whether the vector store
//! matches the configured embedding model.
use vstd::prelude::*;
use vstd::string::*;
use crate::settings::RagSettings;
use crate::text::{self, chars_of, owned, parse_usize, push_char, push_decimal};

verus! {

/// Configuration of the retrieval and chat pipeline.
#[derive(Debug)]
pub struct RagConfig {
    pub embeddings_url: String,
    pub embeddings_api_key: String,
    pub embeddings_model: String,
    pub chat_url: String,
    pub chat_api_key: String,
    pub chat_model: String,
    pub chunk_size: usize,
    pub top_k: usize,
}

impl Default for RagConfig {
    /// Empty endpoints, chunks of 500 tokens, five excerpts per question.
    fn default() -> (c: Self)
        ensures
            c.embeddings_url@ == Seq::<char>::empty(),
            c.embeddings_api_key@ == Seq::<char>::empty(),
            c.embeddings_model@ == Seq::<char>::empty(),
            c.chat_url@ == Seq::<char>::empty(),
            c.chat_api_key@ == Seq::<char>::empty(),
            c.chat_model@ == Seq::<char>::empty(),
            c.chunk_size == 500,
            c.top_k == 5,
    {
        RagConfig {
            embeddings_url: String::new(),
            embeddings_api_key: String::new(),
            embeddings_model: String::new(),
            chat_url: String::new(),
            chat_api_key: String::new(),
            chat_model: String::new(),
            chunk_size: 500,
            top_k: 5,
        }
    }
}

impl RagConfig {
    /// Builds the configuration from the application's settings.
    pub fn from_settings(settings: &RagSettings) -> (c: Self)
        ensures
            c.embeddings_url == settings.embeddings_url,
            c.embeddings_api_key == settings.embeddings_api_key,
            c.embeddings_model == settings.embeddings_model,
            c.chat_url == settings.chat_url,
            c.chat_api_key == settings.chat_api_key,
            c.chat_model == settings.chat_model,
            c.chunk_size == settings.chunk_size,
            c.top_k == settings.top_k,
    {
        RagConfig {
            embeddings_url: settings.embeddings_url.clone(),
            embeddings_api_key: settings.embeddings_api_key.clone(),
            embeddings_model: settings.embeddings_model.clone(),
            chat_url: settings.chat_url.clone(),
            chat_api_key: settings.chat_api_key.clone(),
            chat_model: settings.chat_model.clone(),
            chunk_size: settings.chunk_size as usize,
            top_k: settings.top_k as usize,
        }
    }

    /// Checks that both endpoints are configured.
    pub fn validate(&self) -> (r: Result<(), String>)
        ensures
            self.embeddings_url@.len() == 0 ==> (r matches Err(m) && m@
                == "Embeddings URL is not configured"@),
            self.embeddings_url@.len() > 0 && self.chat_url@.len() == 0 ==> (r matches Err(m) && m@
                == "Chat URL is not configured"@),
            self.embeddings_url@.len() > 0 && self.chat_url@.len() > 0 ==> r is Ok,
    {
        if self.embeddings_url.as_str().is_empty() {
            return Err(owned("Embeddings URL is not configured"));
        }
        if self.chat_url.as_str().is_empty() {
            return Err(owned("Chat URL is not configured"));
        }
        Ok(())
    }
}

/// `s` without its trailing `/` characters.
pub open spec fn trim_trailing_slashes(s: Seq<char>) -> Seq<char>
    decreases s.len(),
{
    if s.len() > 0 && s.last() == '/' {
        trim_trailing_slashes(s.drop_last())
    } else {
        s
    }
}

/// The URL of an endpoint: the base URL without trailing slashes, then `suffix`.
pub fn endpoint_url(base: &str, suffix: &str) -> (u: String)
    ensures
        u@ == trim_trailing_slashes(base@) + suffix@,
{
    let cs = chars_of(base);
    let mut j = cs.len();
    assert(base@.take(j as int) =~= base@);
    while j > 0 && cs[j - 1] == '/'
        invariant
            cs@ == base@,
            j <= cs.len(),
            trim_trailing_slashes(base@) == trim_trailing_slashes(base@.take(j as int)),
        decreases j,
    {
        assert(base@.take(j as int).drop_last() =~= base@.take(j - 1));
        j -= 1;
    }
    let mut u = String::new();
    let mut k: usize = 0;
    while k < j
        invariant
            cs@ == base@,
            j <= cs.len(),
            k <= j,
            u@ == base@.take(k as int),
        decreases j - k,
    {
        push_char(&mut u, cs[k]);
        assert(base@.take(k + 1) =~= base@.take(k as int).push(base@[k as int]));
        k += 1;
    }
    assert(trim_trailing_slashes(base@.take(j as int)) == base@.take(j as int));
    u.append(suffix);
    u
}

/// Error detail of an OpenAI-compatible API error body.
#[derive(Debug)]
pub struct ApiErrorDetail {
    pub message: Option<String>,
}

/// Error response body of an OpenAI-compatible API.
#[derive(Debug)]
pub struct ApiErrorBody {
    pub error: Option<ApiErrorDetail>,
}

/// `HTTP <status>`.
pub open spec fn http_status_text(status: u16) -> Seq<char> {
    "HTTP "@ + text::decimal(status as nat)
}

/// The message of a failed request: the body's `error.message` when the body
/// parsed and has one, otherwise `HTTP <status>`.
pub open spec fn api_error_text(body: Option<ApiErrorBody>, status: u16) -> Seq<char> {
    match body {
        Some(ApiErrorBody { error: Some(ApiErrorDetail { message: Some(m) }) }) => m@,
        _ => http_status_text(status),
    }
}

/// Extracts a human-readable error message from a parsed error body (`None`
/// when the body did not parse).
pub fn api_error_message(body: Option<ApiErrorBody>, status_code: u16) -> (m: String)
    ensures
        m@ == api_error_text(body, status_code),
{
    match body {
        Some(ApiErrorBody { error: Some(ApiErrorDetail { message: Some(m) }) }) => m,
        _ => {
            let mut s = owned("HTTP ");
            push_decimal(&mut s, status_code as u64);
            s
        },
    }
}

/// Result of comparing the stored embedding model with the configured one.
#[derive(Debug)]
pub enum ModelStatus {
    /// No model stored yet (fresh database).
    Fresh,
    /// Stored model matches the configured model.
    Match,
    /// Stored model differs; a reindex is needed.
    Changed { stored: String },
}

/// Compares the stored embedding model (if any) with the configured one.
pub fn model_status(stored: Option<String>, configured: &str) -> (r: ModelStatus)
    ensures
        stored is None ==> r is Fresh,
        stored matches Some(s) ==> (s@ == configured@ ==> r is Match),
        stored matches Some(s) ==> (s@ != configured@ ==> (r matches ModelStatus::Changed { stored: t }
            && t == s)),
{
    match stored {
        None => ModelStatus::Fresh,
        Some(s) => {
            if s == owned(configured) {
                ModelStatus::Match
            } else {
                ModelStatus::Changed { stored: s }
            }
        },
    }
}

/// Errors of the vector store.
#[derive(Debug)]
pub enum VectorStoreError {
    Db(String),
    Io(String),
    ModelChanged { stored: String, configured: String },
    NoDimension,
}

/// The message of a vector store error.
pub open spec fn vector_store_error_text(e: VectorStoreError) -> Seq<char> {
    match e {
        VectorStoreError::Db(m) => "Database error: "@ + m@,
        VectorStoreError::Io(m) => "IO error: "@ + m@,
        VectorStoreError::ModelChanged { stored, configured } => "Model changed: stored="@ + stored@
            + ", configured="@ + configured@ + ". Reindex required."@,
        VectorStoreError::NoDimension => "No embedding dimension stored \u{2014} database needs initialisation"@,
    }
}

impl VectorStoreError {
    /// The error's message.
    pub fn message(&self) -> (s: String)
        ensures
            s@ == vector_store_error_text(*self),
    {
        match self {
            VectorStoreError::Db(m) => {
                let mut s = owned("Database error: ");
                s.append(m.as_str());
                s
            },
            VectorStoreError::Io(m) => {
                let mut s = owned("IO error: ");
                s.append(m.as_str());
                s
            },
            VectorStoreError::ModelChanged { stored, configured } => {
                let mut s = owned("Model changed: stored=");
                s.append(stored.as_str());
                s.append(", configured=");
                s.append(configured.as_str());
                s.append(". Reindex required.");
                s
            },
            VectorStoreError::NoDimension => owned(
                "No embedding dimension stored \u{2014} database needs initialisation",
            ),
        }
    }
}

/// The embedding dimension kept in the store's metadata, if one is stored: its
/// decimal value, or a database error naming a stored value that is not one.
pub fn dimension_from_meta(stored: Option<String>) -> (r: Result<Option<usize>, VectorStoreError>)
    ensures
        stored is None ==> r matches Ok(None),
        stored matches Some(d) ==> (text::unsigned_text(d@) && text::digits_value(text::unsigned_digits(d@))
            <= usize::MAX ==> (r matches Ok(Some(n)) && n == text::digits_value(text::unsigned_digits(d@)))),
        stored matches Some(d) ==> (!(text::unsigned_text(d@) && text::digits_value(text::unsigned_digits(d@))
            <= usize::MAX) ==> (r matches Err(VectorStoreError::Db(m)) && text::has_prefix(
            m@,
            "Invalid parameter name: invalid embedding_dimension '"@ + d@ + "': "@,
        ))),
{
    match stored {
        None => Ok(None),
        Some(d) => match parse_usize(d.as_str()) {
            Ok(n) => Ok(Some(n)),
            Err(e) => {
                let mut m = owned("Invalid parameter name: invalid embedding_dimension '");
                m.append(d.as_str());
                m.append("': ");
                let ghost prefix = m@;
                m.append(e.as_str());
                assert(m@.subrange(0, prefix.len() as int) =~= prefix);
                Err(VectorStoreError::Db(m))
            },
        },
    }
}

/// What to do before indexing: `Ok(true)` to create the vector table for a
/// fresh store, `Ok(false)` when the store already matches, and a
/// `ModelChanged` error when it was built with another model.
pub fn ensure_ready_action(status: ModelStatus, model: &str) -> (r: Result<bool, VectorStoreError>)
    ensures
        status is Fresh ==> r == Ok::<bool, VectorStoreError>(true),
        status is Match ==> r == Ok::<bool, VectorStoreError>(false),
        status matches ModelStatus::Changed { stored } ==> (r matches Err(
            VectorStoreError::ModelChanged { stored: s, configured: c },
        ) && s == stored && c@ == model@),
{
    match status {
        ModelStatus::Fresh => Ok(true),
        ModelStatus::Match => Ok(false),
        ModelStatus::Changed { stored } => Err(
            VectorStoreError::ModelChanged { stored, configured: owned(model) },
        ),
    }
}

/// The statement that creates the vector table for embeddings of `dimension` floats.
pub fn vector_table_sql(dimension: usize) -> (s: String)
    ensures
        s@ == "CREATE VIRTUAL TABLE chunks_vec USING vec0(\n                chunk_id TEXT PRIMARY KEY,\n                embedding float["@
            + text::decimal(dimension as nat) + "]\n            );"@,
{
    let mut s = owned(
        "CREATE VIRTUAL TABLE chunks_vec USING vec0(\n                chunk_id TEXT PRIMARY KEY,\n                embedding float[",
    );
    push_decimal(&mut s, dimension as u64);
    s.append("]\n            );");
    s
}

} // verus!
