//! A local, file-backed catalog of reusable skill documents and named
//! profiles that bundle skills for installation into a target location.
//!
//! The library holds the verified logic: the skill store with its
//! identity and category invariants, the front-matter document format,
//! the profile registry and installer, and the sidecar configuration
//! stores. Callers load state from disk, run the operations here, and
//! persist the results.

pub mod docfmt;
pub mod errors;
pub mod manifest;
pub mod mcp;
pub mod paths;
pub mod profiles;
pub mod rag;
pub mod seqtools;
pub mod skills;
pub mod text;

pub use docfmt::SkillFrontmatter;
pub use errors::ErrorKind;
pub use errors::RhinolabsError;
pub use manifest::Author;
pub use manifest::Manifest;
pub use manifest::PluginManifest;
pub use mcp::McpConfig;
pub use mcp::McpConfigManager;
pub use mcp::McpServer;
pub use mcp::McpServerEntry;
pub use mcp::McpSettings;
pub use paths::Paths;
pub use profiles::InstallPlan;
pub use profiles::InstallResult;
pub use profiles::Profile;
pub use profiles::Profiles;
pub use profiles::ProfileType;
pub use profiles::ScaffoldState;
pub use profiles::SkillInstallError;
pub use profiles::SkillWrite;
pub use profiles::UninstallPlan;
pub use rag::mask_key;
pub use rag::Rag;
pub use rag::RagConfig;
pub use rag::RagSettings;
pub use skills::CreateSkillInput;
pub use skills::Skill;
pub use skills::SkillCategory;
pub use skills::Skills;
pub use skills::SkillsConfig;
pub use skills::UpdateSkillInput;
