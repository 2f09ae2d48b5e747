//! The retrieval-augmentation configuration stores: the per-project
//! config kept under the project's directory and the global settings.
//!
//! All remote operations belong to callers; this module owns the local
//! state: initialisation, lookup priority for the worker URL, and the
//! admin key in the global settings.

use vstd::prelude::*;

use crate::errors::ErrorKind;
use crate::errors::RhinolabsError;
use crate::text::concat2;

verus! {

/// The per-project configuration.
#[derive(Debug, Clone)]
pub struct RagConfig {
    /// Unique project identifier.
    pub project_id: String,
    /// API key for the worker.
    pub api_key: String,
    /// Optional worker URL override.
    pub mcp_url: Option<String>,
}

/// The global settings.
#[derive(Debug, Clone)]
pub struct RagSettings {
    /// Default worker URL, when set.
    pub default_mcp_url: Option<String>,
    /// Admin key for key management, when set.
    pub admin_key: Option<String>,
}

impl Default for RagSettings {
    /// The default settings have neither field set.
    fn default() -> (s: Self)
        ensures
            s.default_mcp_url is None,
            s.admin_key is None,
    {
        RagSettings { default_mcp_url: None, admin_key: None }
    }
}

/// Duplicate an optional string.
fn dup_opt(o: &Option<String>) -> (r: Option<String>)
    ensures
        r == *o,
{
    match o {
        Some(s) => Some(s.clone()),
        None => None,
    }
}

/// The configuration store.
pub struct Rag;

impl Rag {
    /// The worker URL used when neither the project nor the settings
    /// name one.
    pub fn default_mcp_url() -> (r: String)
        ensures
            r@ == "https://rhinolabs-rag-mcp.rhinolabs.workers.dev"@,
    {
        String::from_str("https://rhinolabs-rag-mcp.rhinolabs.workers.dev")
    }

    /// The location of a project's configuration file.
    pub fn project_config_path(project_path: &str) -> (r: String)
        ensures
            r@ == project_path@ + "/.rhinolabs/rag.json"@,
    {
        concat2(project_path, "/.rhinolabs/rag.json")
    }

    /// The location of the global settings file under the home directory.
    pub fn settings_path(home: &str) -> (r: String)
        ensures
            r@ == home@ + "/.config/rhinolabs-ai/rag-settings.json"@,
    {
        concat2(home, "/.config/rhinolabs-ai/rag-settings.json")
    }

    /// Initialise a project: refused when a configuration already exists,
    /// otherwise the new configuration with no URL override.
    pub fn init(existing: &Option<RagConfig>, project_id: &str, api_key: &str) -> (r: Result<
        RagConfig,
        RhinolabsError,
    >)
        ensures
            existing is Some ==> (r matches Err(e) && e.kind == ErrorKind::AlreadyExists),
            existing is None ==> (r matches Ok(c) && c.project_id@ == project_id@ && c.api_key@
                == api_key@ && c.mcp_url is None),
    {
        match existing {
            Some(_) => Err(
                RhinolabsError::new(
                    ErrorKind::AlreadyExists,
                    String::from_str("RAG already initialized for this project"),
                ),
            ),
            None => Ok(
                RagConfig {
                    project_id: project_id.to_owned(),
                    api_key: api_key.to_owned(),
                    mcp_url: None,
                },
            ),
        }
    }

    /// The worker URL for a project: the project's override first, then
    /// the settings' default, then the fixed default.
    pub fn get_mcp_url(config: &RagConfig, settings: &RagSettings) -> (r: String)
        ensures
            config.mcp_url matches Some(u) ==> r@ == u@,
            config.mcp_url is None ==> (settings.default_mcp_url matches Some(u) ==> r@ == u@),
            config.mcp_url is None && settings.default_mcp_url is None ==> r@
                == "https://rhinolabs-rag-mcp.rhinolabs.workers.dev"@,
    {
        match &config.mcp_url {
            Some(u) => u.clone(),
            None => match &settings.default_mcp_url {
                Some(u) => u.clone(),
                None => Self::default_mcp_url(),
            },
        }
    }

    /// Whether a project holds a configuration.
    pub fn is_configured(existing: &Option<RagConfig>) -> (r: bool)
        ensures
            r == (existing is Some),
    {
        existing.is_some()
    }

    /// Remove a project's configuration; refused when none exists.
    pub fn remove(state: &mut Option<RagConfig>) -> (r: Result<(), RhinolabsError>)
        ensures
            (*old(state)) is None ==> (r matches Err(e) && e.kind == ErrorKind::NotFound
                && *final(state) == *old(state)),
            (*old(state)) is Some ==> r is Ok && (*final(state)) is None,
    {
        match state {
            None => Err(
                RhinolabsError::new(
                    ErrorKind::NotFound,
                    String::from_str("RAG not configured for this project"),
                ),
            ),
            Some(_) => {
                *state = None;
                Ok(())
            },
        }
    }

    /// Record the admin key in the global settings.
    pub fn set_admin_key(settings: &mut RagSettings, admin_key: &str)
        ensures
            final(settings).admin_key matches Some(k) && k@ == admin_key@,
            final(settings).default_mcp_url == old(settings).default_mcp_url,
    {
        settings.admin_key = Some(admin_key.to_owned());
    }

    /// The admin key from the global settings, when set.
    pub fn get_admin_key(settings: &RagSettings) -> (r: Option<String>)
        ensures
            r == settings.admin_key,
    {
        dup_opt(&settings.admin_key)
    }
}

/// `n` asterisks.
pub open spec fn stars(n: int) -> Seq<char>
    decreases n,
{
    if n <= 0 {
        Seq::empty()
    } else {
        stars(n - 1).push('*')
    }
}

/// Mask an API key for display: short keys are fully starred, longer
/// ones keep their first seven and last four characters.
pub fn mask_key(key: &str) -> (r: String)
    ensures
        key@.len() <= 10 ==> r@ == stars(key@.len() as int),
        key@.len() > 10 ==> r@ == key@.subrange(0, 7) + "..."@ + key@.subrange(
            key@.len() - 4,
            key@.len() as int,
        ),
{
    let n = key.unicode_len();
    if n <= 10 {
        let mut r = String::new();
        proof {
            reveal_strlit("*");
        }
        let mut i: usize = 0;
        while i < n
            invariant
                0 <= i <= n,
                "*"@ == seq!['*'],
                r@ == stars(i as int),
            decreases n - i,
        {
            r.append("*");
            proof {
                assert(r@ =~= stars(i as int).push('*'));
            }
            i = i + 1;
        }
        r
    } else {
        let head = key.substring_char(0, 7);
        let tail = key.substring_char(n - 4, n);
        let mut r = head.to_owned();
        r.append("...");
        r.append(tail);
        proof {
            assert(r@ =~= key@.subrange(0, 7) + "..."@ + key@.subrange(
                key@.len() - 4,
                key@.len() as int,
            ));
        }
        r
    }
}

} // verus!
