//! The plugin manifest store: the descriptor of the installed plugin.
//!
//! The manifest lives in one file under the plugin directory; callers
//! load it into an `Option<PluginManifest>` — `None` when the plugin is
//! not installed — and persist it after an update.

use vstd::prelude::*;

use crate::errors::ErrorKind;
use crate::errors::RhinolabsError;
use crate::text::concat2;

verus! {

/// The manifest's author block.
#[derive(Debug, Clone)]
pub struct Author {
    pub name: String,
}

/// The plugin descriptor.
#[derive(Debug, Clone)]
pub struct PluginManifest {
    pub name: String,
    pub description: String,
    pub version: String,
    pub author: Author,
}

impl Default for PluginManifest {
    /// The manifest the installer writes when none exists yet.
    fn default() -> (m: Self)
        ensures
            m.name@ == "rhinolabs-plugin"@,
            m.description@ == "Rhinolabs agency standards and best practices"@,
            m.version@ == "1.0.0"@,
            m.author.name@ == "Rhinolabs"@,
    {
        PluginManifest {
            name: String::from_str("rhinolabs-plugin"),
            description: String::from_str(
                "Rhinolabs agency standards and best practices",
            ),
            version: String::from_str("1.0.0"),
            author: Author { name: String::from_str("Rhinolabs") },
        }
    }
}

/// Duplicate a manifest value.
fn dup_manifest(m: &PluginManifest) -> (r: PluginManifest)
    ensures
        r == *m,
{
    PluginManifest {
        name: m.name.clone(),
        description: m.description.clone(),
        version: m.version.clone(),
        author: Author { name: m.author.name.clone() },
    }
}

/// The manifest store.
pub struct Manifest;

impl Manifest {
    /// The location of the manifest file under the home directory.
    pub fn manifest_path(home: &str) -> (r: String)
        ensures
            r@ == home@ + "/.rhinolabs/.plugin/plugin.json"@,
    {
        concat2(home, "/.rhinolabs/.plugin/plugin.json")
    }

    /// Read the manifest; fails with `NotFound` when the plugin is not
    /// installed.
    pub fn get(state: &Option<PluginManifest>) -> (r: Result<PluginManifest, RhinolabsError>)
        ensures
            state is None ==> (r matches Err(e) && e.kind == ErrorKind::NotFound),
            state matches Some(m) ==> (r matches Ok(v) && v == m),
    {
        match state {
            None => Err(
                RhinolabsError::new(
                    ErrorKind::NotFound,
                    String::from_str("Plugin is not installed"),
                ),
            ),
            Some(m) => Ok(dup_manifest(m)),
        }
    }

    /// Replace the manifest; fails with `NotFound` when the plugin is not
    /// installed.
    pub fn update(state: &mut Option<PluginManifest>, manifest: &PluginManifest) -> (r: Result<
        (),
        RhinolabsError,
    >)
        ensures
            (*old(state)) is None ==> (r matches Err(e) && e.kind == ErrorKind::NotFound
                && *final(state) == *old(state)),
            (*old(state)) is Some ==> r is Ok && *final(state) == Some(*manifest),
    {
        match state {
            None => Err(
                RhinolabsError::new(
                    ErrorKind::NotFound,
                    String::from_str("Plugin is not installed"),
                ),
            ),
            Some(_) => {
                *state = Some(dup_manifest(manifest));
                Ok(())
            },
        }
    }
}

} // verus!
