//! The skill store: the catalog of skill documents, their categories,
//! enabled state, and the create/update/toggle/delete lifecycle.
//!
//! The store holds the catalog state in memory: one entry per skill
//! folder, with the raw document text, beside the sidecar configuration
//! (the `disabled` and `custom` id sets). Callers load that state from
//! disk, run the operations here, and persist what changed.

use vstd::prelude::*;

use crate::docfmt;
use crate::docfmt::spec_parse;
use crate::docfmt::SkillFrontmatter;
use crate::errors::ErrorKind;
use crate::errors::RhinolabsError;
use crate::text::str_eq;

verus! {

/// The fixed categories a skill can belong to.
#[derive(Debug, Clone, Copy, PartialEq, Eq, Structural)]
pub enum SkillCategory {
    Corporate,
    Frontend,
    Testing,
    AiSdk,
    Utilities,
    Custom,
}

impl Default for SkillCategory {
    /// The default category is `Custom`.
    fn default() -> (c: Self)
        ensures
            c == SkillCategory::Custom,
    {
        Self::Custom
    }
}

/// A skill as callers see it: identity, metadata, derived state.
#[derive(Debug, Clone)]
pub struct Skill {
    pub id: String,
    pub name: String,
    pub description: String,
    pub enabled: bool,
    pub category: SkillCategory,
    pub path: String,
    pub content: String,
    pub created_at: Option<String>,
    pub is_custom: bool,
}

/// The fields needed to create a custom skill.
#[derive(Debug, Clone)]
pub struct CreateSkillInput {
    pub id: String,
    pub name: String,
    pub description: String,
    pub category: SkillCategory,
    pub content: String,
}

/// The optional fields an update may supply.
#[derive(Debug, Clone)]
pub struct UpdateSkillInput {
    pub name: Option<String>,
    pub description: Option<String>,
    pub content: Option<String>,
    pub enabled: Option<bool>,
}

/// The sidecar configuration: the persisted `disabled` and `custom` id
/// sets.
#[derive(Debug, Clone)]
pub struct SkillsConfig {
    pub disabled: Vec<String>,
    pub custom: Vec<String>,
}

impl Default for SkillsConfig {
    /// The default configuration has both sets empty.
    fn default() -> (c: Self)
        ensures
            c.disabled@.len() == 0,
            c.custom@.len() == 0,
    {
        SkillsConfig { disabled: Vec::new(), custom: Vec::new() }
    }
}

/// One skill folder as loaded from disk: the folder name, the raw
/// document text, and the folder's creation time if known.
#[derive(Debug, Clone)]
pub struct SkillEntry {
    pub id: String,
    pub document: String,
    pub created_at: Option<String>,
}

/// The id lists of the built-in categories.
pub open spec fn spec_is_corporate(id: Seq<char>) -> bool {
    id == "rhinolabs-standards"@ || id == "rhinolabs-architecture"@ || id == "rhinolabs-security"@
}

pub open spec fn spec_is_frontend(id: Seq<char>) -> bool {
    id == "react-patterns"@ || id == "typescript-best-practices"@ || id == "tailwind-4"@ || id
        == "zod-4"@ || id == "zustand-5"@
}

pub open spec fn spec_is_testing(id: Seq<char>) -> bool {
    id == "testing-strategies"@ || id == "playwright"@
}

pub open spec fn spec_is_ai_sdk(id: Seq<char>) -> bool {
    id == "ai-sdk-core"@ || id == "ai-sdk-react"@ || id == "nextjs-integration"@
}

pub open spec fn spec_is_utilities(id: Seq<char>) -> bool {
    id == "skill-creator"@
}

/// The category of an id: the fixed lookup over the built-in lists, with
/// `Custom` for an id in none of them.
pub open spec fn spec_category_of(id: Seq<char>) -> SkillCategory {
    if spec_is_corporate(id) {
        SkillCategory::Corporate
    } else if spec_is_frontend(id) {
        SkillCategory::Frontend
    } else if spec_is_testing(id) {
        SkillCategory::Testing
    } else if spec_is_ai_sdk(id) {
        SkillCategory::AiSdk
    } else if spec_is_utilities(id) {
        SkillCategory::Utilities
    } else {
        SkillCategory::Custom
    }
}

/// The view of an optional string.
pub open spec fn opt_view(o: Option<String>) -> Option<Seq<char>> {
    match o {
        Some(s) => Some(s@),
        None => None,
    }
}

/// A built-in id: one whose category lookup lands outside `Custom`.
pub open spec fn spec_is_builtin(id: Seq<char>) -> bool {
    spec_category_of(id) != SkillCategory::Custom
}

/// The state `create` leaves behind on success: the new folder with its
/// generated document, the id appended to the custom set, everything
/// else untouched.
pub open spec fn spec_create_ok(
    pre: Skills,
    post: Skills,
    input: CreateSkillInput,
    created_at: Option<String>,
) -> bool {
    &&& post.dir == pre.dir
    &&& post.ids() == pre.ids().push(input.id@)
    &&& post.has_folder(input.id@)
    &&& post.doc_of(input.id@) == docfmt::spec_generate(
        input.name@,
        input.description@,
        input.content@,
    )
    &&& post.created_of(input.id@) == opt_view(created_at)
    &&& forall|other: Seq<char>|
        other != input.id@ && pre.has_folder(other) ==> #[trigger] post.doc_of(other) == pre.doc_of(
            other,
        ) && post.created_of(other) == pre.created_of(other)
    &&& post.config.custom.deep_view() == pre.config.custom.deep_view().push(input.id@)
    &&& post.is_custom_id(input.id@)
    &&& post.config.disabled == pre.config.disabled
}

/// The state `toggle` leaves behind on success: the documents untouched,
/// the disabled set filtered or extended.
pub open spec fn spec_toggle_effect(pre: Skills, post: Skills, id: Seq<char>, enabled: bool) -> bool {
    &&& post.dir == pre.dir
    &&& post.entries == pre.entries
    &&& post.config.custom == pre.config.custom
    &&& if enabled {
        post.config.disabled.deep_view() == crate::seqtools::without_id(
            pre.config.disabled.deep_view(),
            id,
        )
    } else if pre.is_disabled(id) {
        post.config.disabled == pre.config.disabled
    } else {
        post.config.disabled.deep_view() == pre.config.disabled.deep_view().push(id)
    }
}

/// Why `delete` refuses, if it does: `PermissionDenied` for an id not
/// registered custom, `NotFound` for a registered id without a folder.
pub open spec fn spec_delete_error(s: Skills, id: Seq<char>) -> Option<ErrorKind> {
    if !s.is_custom_id(id) {
        Some(ErrorKind::PermissionDenied)
    } else if !s.has_folder(id) {
        Some(ErrorKind::NotFound)
    } else {
        None
    }
}

/// The state `delete` leaves behind on success: the entry removed and the
/// id filtered out of both sidecar sets.
pub open spec fn spec_delete_ok(pre: Skills, post: Skills, id: Seq<char>) -> bool {
    &&& post.dir == pre.dir
    &&& post.entries@ == pre.entries@.remove(pre.idx_of(id))
    &&& post.config.custom.deep_view() == crate::seqtools::without_id(
        pre.config.custom.deep_view(),
        id,
    )
    &&& post.config.disabled.deep_view() == crate::seqtools::without_id(
        pre.config.disabled.deep_view(),
        id,
    )
}

/// The state `update` leaves behind on success: the document rewritten
/// from the supplied fields, falling back to the parsed ones; the
/// disabled set routed through the toggle semantics when `enabled` is
/// supplied.
pub open spec fn spec_update_ok(
    pre: Skills,
    post: Skills,
    id: Seq<char>,
    input: UpdateSkillInput,
) -> bool {
    let p = spec_parse(pre.doc_of(id))->0;
    let new_name = match input.name {
        Some(n) => n@,
        None => p.0,
    };
    let new_desc = match input.description {
        Some(d) => d@,
        None => p.1,
    };
    let new_content = match input.content {
        Some(c) => c@,
        None => p.2,
    };
    &&& post.dir == pre.dir
    &&& post.ids() == pre.ids()
    &&& post.doc_of(id) == docfmt::spec_generate(new_name, new_desc, new_content)
    &&& post.created_of(id) == pre.created_of(id)
    &&& forall|other: Seq<char>|
        other != id && pre.has_folder(other) ==> #[trigger] post.doc_of(other) == pre.doc_of(other)
            && post.created_of(other) == pre.created_of(other)
    &&& post.config.custom == pre.config.custom
    &&& match input.enabled {
        None => post.config.disabled == pre.config.disabled,
        Some(true) => post.config.disabled.deep_view() == crate::seqtools::without_id(
            pre.config.disabled.deep_view(),
            id,
        ),
        Some(false) => if pre.is_disabled(id) {
            post.config.disabled == pre.config.disabled
        } else {
            post.config.disabled.deep_view() == pre.config.disabled.deep_view().push(id)
        },
    }
}

/// True when `v` holds a string equal to `id`.
fn contains_str(v: &Vec<String>, id: &str) -> (r: bool)
    ensures
        r == v.deep_view().contains(id@),
{
    let mut i: usize = 0;
    while i < v.len()
        invariant
            0 <= i <= v@.len(),
            forall|m: int| 0 <= m < i ==> #[trigger] v.deep_view()[m] != id@,
        decreases v@.len() - i,
    {
        if str_eq(v[i].as_str(), id) {
            assert(v.deep_view()[i as int] == id@);
            return true;
        }
        i = i + 1;
    }
    proof {
        if v.deep_view().contains(id@) {
            let k = choose|k: int| 0 <= k < v.deep_view().len() && v.deep_view()[k] == id@;
            assert(v.deep_view()[k] != id@);
        }
    }
    false
}

/// Remove every occurrence of `id` from `v`.
fn remove_all_str(v: &mut Vec<String>, id: &str)
    ensures
        final(v).deep_view() == crate::seqtools::without_id(old(v).deep_view(), id@),
{
    let ghost idv = id@;
    let ghost dv = v.deep_view();
    let mut out: Vec<String> = Vec::new();
    proof {
        reveal(Seq::filter);
        assert(dv.subrange(0, 0) =~= Seq::<Seq<char>>::empty());
        assert(out.deep_view() =~= Seq::<Seq<char>>::empty());
        assert(crate::seqtools::without_id(dv.subrange(0, 0), idv) == dv.subrange(0, 0));
    }
    let mut i: usize = 0;
    while i < v.len()
        invariant
            0 <= i <= v@.len(),
            idv == id@,
            dv == v.deep_view(),
            dv.len() == v@.len(),
            out.deep_view() == crate::seqtools::without_id(dv.subrange(0, i as int), idv),
        decreases v@.len() - i,
    {
        let keep = !str_eq(v[i].as_str(), id);
        proof {
            assert(v.deep_view()[i as int] == v@[i as int].deep_view());
            assert(dv[i as int] == v@[i as int]@);
            assert(keep == (dv[i as int] != idv));
            crate::seqtools::lemma_without_id_push(dv.subrange(0, i as int), dv[i as int], idv);
            assert(dv.subrange(0, i + 1) =~= dv.subrange(0, i as int).push(dv[i as int]));
        }
        if keep {
            let s = v[i].clone();
            out.push(s);
            proof {
                assert(out.deep_view() =~= crate::seqtools::without_id(
                    dv.subrange(0, i as int),
                    idv,
                ).push(dv[i as int]));
            }
        }
        i = i + 1;
    }
    proof {
        assert(dv.subrange(0, dv.len() as int) =~= dv);
    }
    *v = out;
}

/// Duplicate an optional string.
fn dup_opt(o: &Option<String>) -> (r: Option<String>)
    ensures
        r == *o,
{
    match o {
        Some(s) => Some(s.clone()),
        None => None,
    }
}

/// The path of the document inside a skill's folder.
fn skill_path(dir: &str, id: &str) -> (r: String)
    ensures
        r@ == dir@ + "/"@ + id@ + "/SKILL.md"@,
{
    let mut r = String::new();
    r.append(dir);
    r.append("/");
    r.append(id);
    r.append("/SKILL.md");
    proof {
        assert(r@ =~= dir@ + "/"@ + id@ + "/SKILL.md"@);
    }
    r
}

/// An error message of the shape `before'id'after`.
fn quoted_msg(before: &str, id: &str, after: &str) -> (r: String) {
    let mut r = String::new();
    r.append(before);
    r.append(id);
    r.append(after);
    r
}

/// The skill store.
pub struct Skills {
    /// The resolved skills directory.
    pub dir: String,
    /// One entry per skill folder; folder names are unique.
    pub entries: Vec<SkillEntry>,
    /// The sidecar configuration.
    pub config: SkillsConfig,
}

impl Skills {
    /// The folder names in the store, in load order.
    pub open spec fn ids(&self) -> Seq<Seq<char>> {
        self.entries@.map_values(|e: SkillEntry| e.id@)
    }

    /// Well-formedness: folder names are unique.
    pub open spec fn wf(&self) -> bool {
        self.ids().no_duplicates()
    }

    /// A folder for `id` exists.
    pub open spec fn has_folder(&self, id: Seq<char>) -> bool {
        self.ids().contains(id)
    }

    /// The position of `id` among the entries.
    pub open spec fn idx_of(&self, id: Seq<char>) -> int {
        self.ids().index_of(id)
    }

    /// The document text stored for `id`.
    pub open spec fn doc_of(&self, id: Seq<char>) -> Seq<char> {
        self.entries@[self.idx_of(id)].document@
    }

    /// The recorded creation time for `id`.
    pub open spec fn created_of(&self, id: Seq<char>) -> Option<Seq<char>> {
        opt_view(self.entries@[self.idx_of(id)].created_at)
    }

    /// `id` is registered in the sidecar's custom set.
    pub open spec fn is_custom_id(&self, id: Seq<char>) -> bool {
        self.config.custom.deep_view().contains(id)
    }

    /// `id` is in the sidecar's disabled set.
    pub open spec fn is_disabled(&self, id: Seq<char>) -> bool {
        self.config.disabled.deep_view().contains(id)
    }

    /// A skill is enabled unless its id is in the disabled set.
    pub open spec fn is_enabled(&self, id: Seq<char>) -> bool {
        !self.is_disabled(id)
    }

    /// The folder for `id` exists and its document parses.
    pub open spec fn loadable(&self, id: Seq<char>) -> bool {
        self.has_folder(id) && spec_parse(self.doc_of(id)) is Some
    }

    /// `sk` is exactly the skill the store derives for `id`.
    pub open spec fn skill_model(&self, id: Seq<char>, sk: Skill) -> bool {
        let p = spec_parse(self.doc_of(id))->0;
        &&& sk.id@ == id
        &&& sk.name@ == p.0
        &&& sk.description@ == p.1
        &&& sk.content@ == p.2
        &&& sk.enabled == self.is_enabled(id)
        &&& sk.is_custom == self.is_custom_id(id)
        &&& sk.category == if self.is_custom_id(id) {
            SkillCategory::Custom
        } else {
            spec_category_of(id)
        }
        &&& opt_view(sk.created_at) == if self.is_custom_id(id) {
            self.created_of(id)
        } else {
            None::<Seq<char>>
        }
        &&& sk.path@ == self.dir@ + "/"@ + id + "/SKILL.md"@
    }

    /// An empty store over the given skills directory.
    pub fn new(dir: String) -> (s: Skills)
        ensures
            s.wf(),
            s.ids().len() == 0,
            s.config.disabled@.len() == 0,
            s.config.custom@.len() == 0,
            s.dir == dir,
    {
        let s = Skills { dir, entries: Vec::new(), config: SkillsConfig::default() };
        proof {
            assert(s.ids() =~= Seq::<Seq<char>>::empty());
        }
        s
    }

    /// Replace the sidecar configuration wholesale.
    pub fn set_config(&mut self, config: SkillsConfig)
        ensures
            final(self).config == config,
            final(self).entries == old(self).entries,
            final(self).dir == old(self).dir,
    {
        self.config = config;
    }

    /// Record one skill folder as found on disk. An entry with the same
    /// folder name, if present, is replaced.
    pub fn insert_entry(&mut self, id: String, document: String, created_at: Option<String>)
        requires
            old(self).wf(),
        ensures
            final(self).wf(),
            final(self).dir == old(self).dir,
            final(self).config == old(self).config,
            final(self).has_folder(id@),
            final(self).doc_of(id@) == document@,
            final(self).created_of(id@) == opt_view(created_at),
            forall|other: Seq<char>|
                other != id@ ==> #[trigger] final(self).has_folder(other) == old(self).has_folder(
                    other,
                ),
            forall|other: Seq<char>|
                other != id@ && old(self).has_folder(other) ==> #[trigger] final(self).doc_of(other)
                    == old(self).doc_of(other) && final(self).created_of(other) == old(
                    self,
                ).created_of(other),
    {
        let found = self.find_entry(id.as_str());
        let entry = SkillEntry { id, document, created_at };
        match found {
            Some(i) => {
                proof {
                    self.lemma_idx_unique(i as int, entry.id@);
                }
                self.entries.set(i, entry);
                proof {
                    let pre = old(self);
                    assert(self.ids() =~= pre.ids().update(i as int, entry.id@));
                    assert(self.ids() =~= pre.ids());
                    self.lemma_idx_unique(i as int, entry.id@);
                    assert forall|other: Seq<char>|
                        other != entry.id@ && pre.has_folder(other) implies #[trigger] self.doc_of(
                        other,
                    ) == pre.doc_of(other) && self.created_of(other) == pre.created_of(other) by {
                        let k = pre.idx_of(other);
                        pre.lemma_idx_unique(k, other);
                        self.lemma_idx_unique(k, other);
                    }
                }
            },
            None => {
                proof {
                    let pre = old(self);
                    assert(!pre.has_folder(entry.id@));
                }
                self.entries.push(entry);
                proof {
                    let pre = old(self);
                    let n = pre.entries@.len() as int;
                    assert(self.ids() =~= pre.ids().push(entry.id@));
                    assert(self.ids()[n] == entry.id@);
                    assert(forall|m: int| 0 <= m < n ==> #[trigger] self.ids()[m] == pre.ids()[m]);
                    assert(self.wf());
                    self.lemma_idx_unique(n, entry.id@);
                    assert forall|other: Seq<char>|
                        other != entry.id@ && pre.has_folder(other) implies #[trigger] self.doc_of(
                        other,
                    ) == pre.doc_of(other) && self.created_of(other) == pre.created_of(other) by {
                        let k = pre.idx_of(other);
                        pre.lemma_idx_unique(k, other);
                        self.lemma_idx_unique(k, other);
                    }
                    assert forall|other: Seq<char>|
                        other != entry.id@ implies #[trigger] self.has_folder(other)
                        == pre.has_folder(other) by {
                        if self.has_folder(other) {
                            let k = choose|k: int|
                                0 <= k < self.ids().len() && self.ids()[k] == other;
                            assert(k < n);
                            assert(pre.ids()[k] == other);
                        }
                        if pre.has_folder(other) {
                            let k = choose|k: int| 0 <= k < pre.ids().len() && pre.ids()[k] == other;
                            assert(self.ids()[k] == other);
                        }
                    }
                }
            },
        }
    }

    /// With unique ids, an entry holding `id` at position `i` is the one
    /// `idx_of` picks.
    proof fn lemma_idx_unique(&self, i: int, id: Seq<char>)
        requires
            self.wf(),
            0 <= i < self.ids().len(),
            self.ids()[i] == id,
        ensures
            self.has_folder(id),
            self.idx_of(id) == i,
    {
        assert(self.ids().contains(id));
        let k = self.ids().index_of(id);
        assert(self.ids()[k] == id);
        if k != i {
            assert(false);
        }
    }

    /// Find the entry whose folder name is `id`.
    fn find_entry(&self, id: &str) -> (r: Option<usize>)
        ensures
            match r {
                Some(i) => i < self.entries@.len() && self.entries@[i as int].id@ == id@,
                None => !self.has_folder(id@),
            },
    {
        let mut i: usize = 0;
        while i < self.entries.len()
            invariant
                0 <= i <= self.entries@.len(),
                forall|m: int| 0 <= m < i ==> #[trigger] self.entries@[m].id@ != id@,
            decreases self.entries@.len() - i,
        {
            if str_eq(self.entries[i].id.as_str(), id) {
                return Some(i);
            }
            i = i + 1;
        }
        proof {
            if self.has_folder(id@) {
                let k = choose|k: int| 0 <= k < self.ids().len() && self.ids()[k] == id@;
                assert(self.entries@[k].id@ == id@);
            }
        }
        None
    }

    /// The skills directory under the home directory.
    pub fn skills_dir(home: &str) -> (r: String)
        ensures
            r@ == home@ + "/.rhinolabs/skills"@,
    {
        crate::text::concat2(home, "/.rhinolabs/skills")
    }

    /// The sidecar configuration file under the home directory.
    pub fn config_path(home: &str) -> (r: String)
        ensures
            r@ == home@ + "/.rhinolabs/.skills-config.json"@,
    {
        crate::text::concat2(home, "/.rhinolabs/.skills-config.json")
    }

    /// Determine the category of a skill id.
    pub fn get_category(id: &str) -> (c: SkillCategory)
        ensures
            c == spec_category_of(id@),
    {
        if str_eq(id, "rhinolabs-standards") || str_eq(id, "rhinolabs-architecture") || str_eq(
            id,
            "rhinolabs-security",
        ) {
            SkillCategory::Corporate
        } else if str_eq(id, "react-patterns") || str_eq(id, "typescript-best-practices") || str_eq(
            id,
            "tailwind-4",
        ) || str_eq(id, "zod-4") || str_eq(id, "zustand-5") {
            SkillCategory::Frontend
        } else if str_eq(id, "testing-strategies") || str_eq(id, "playwright") {
            SkillCategory::Testing
        } else if str_eq(id, "ai-sdk-core") || str_eq(id, "ai-sdk-react") || str_eq(
            id,
            "nextjs-integration",
        ) {
            SkillCategory::AiSdk
        } else if str_eq(id, "skill-creator") {
            SkillCategory::Utilities
        } else {
            SkillCategory::Custom
        }
    }

    /// Generate a skill document from its metadata and body.
    pub fn generate_skill_file(name: &str, description: &str, content: &str) -> (r: String)
        ensures
            r@ == docfmt::spec_generate(name@, description@, content@),
    {
        docfmt::generate_doc(name, description, content)
    }

    /// Parse a skill document into its metadata and body.
    pub fn parse_skill_file(content: &str) -> (r: Result<
        (SkillFrontmatter, String),
        RhinolabsError,
    >)
        ensures
            r is Ok <==> spec_parse(content@) is Some,
            r matches Ok(v) ==> {
                let p = spec_parse(content@)->0;
                v.0.name@ == p.0 && v.0.description@ == p.1 && v.1@ == p.2
            },
            r matches Err(e) ==> e.kind == ErrorKind::MalformedDocument,
    {
        docfmt::parse_doc(content)
    }

    /// Look up a skill by id: absent folder gives `Ok(None)`, a parse
    /// failure is surfaced, and otherwise the derived skill is returned.
    pub fn get(&self, id: &str) -> (r: Result<Option<Skill>, RhinolabsError>)
        requires
            self.wf(),
        ensures
            !self.has_folder(id@) ==> (r matches Ok(o) && o is None),
            self.loadable(id@) ==> (r matches Ok(o) && o matches Some(sk) && self.skill_model(
                id@,
                sk,
            )),
            self.has_folder(id@) && !self.loadable(id@) ==> (r matches Err(e) && e.kind
                == ErrorKind::MalformedDocument),
    {
        match self.find_entry(id) {
            None => Ok(None),
            Some(i) => {
                proof {
                    self.lemma_idx_unique(i as int, id@);
                }
                match docfmt::parse_doc(self.entries[i].document.as_str()) {
                    Err(e) => Err(e),
                    Ok((fm, body)) => {
                        let is_custom = contains_str(&self.config.custom, id);
                        let enabled = !contains_str(&self.config.disabled, id);
                        let category = if is_custom {
                            SkillCategory::Custom
                        } else {
                            Self::get_category(id)
                        };
                        let created_at = if is_custom {
                            dup_opt(&self.entries[i].created_at)
                        } else {
                            None
                        };
                        let path = skill_path(self.dir.as_str(), id);
                        Ok(
                            Some(
                                Skill {
                                    id: id.to_owned(),
                                    name: fm.name,
                                    description: fm.description,
                                    enabled,
                                    category,
                                    path,
                                    content: body,
                                    created_at,
                                    is_custom,
                                },
                            ),
                        )
                    },
                }
            },
        }
    }

    /// Create a new custom skill: refused with `AlreadyExists` when the
    /// folder is already there, whatever the sidecar holds; otherwise the
    /// folder is added with a generated document and the id is registered
    /// custom.
    pub fn create(&mut self, input: CreateSkillInput, created_at: Option<String>) -> (r: Result<
        Skill,
        RhinolabsError,
    >)
        requires
            old(self).wf(),
        ensures
            final(self).wf(),
            old(self).has_folder(input.id@) ==> (r matches Err(e) && e.kind
                == ErrorKind::AlreadyExists && *final(self) == *old(self)),
            !old(self).has_folder(input.id@) ==> r is Ok && spec_create_ok(
                *old(self),
                *final(self),
                input,
                created_at,
            ),
            !old(self).has_folder(input.id@) ==> (r matches Ok(sk) && sk.id@ == input.id@
                && sk.name@ == input.name@ && sk.description@ == input.description@ && sk.content@
                == input.content@ && sk.is_custom && sk.category == SkillCategory::Custom
                && sk.enabled == !old(self).is_disabled(input.id@) && opt_view(sk.created_at)
                == opt_view(created_at)),
            !old(self).has_folder(input.id@) && docfmt::round_trip_safe(
                input.name@,
                input.description@,
            ) && crate::text::spec_trim(input.content@) == input.content@ ==> (r matches Ok(sk)
                && final(self).skill_model(input.id@, sk)),
    {
        match self.find_entry(input.id.as_str()) {
            Some(i) => {
                proof {
                    assert(self.ids()[i as int] == input.id@);
                }
                Err(
                    RhinolabsError::new(
                        ErrorKind::AlreadyExists,
                        quoted_msg("Skill '", input.id.as_str(), "' already exists"),
                    ),
                )
            },
            None => {
                let doc = docfmt::generate_doc(
                    input.name.as_str(),
                    input.description.as_str(),
                    input.content.as_str(),
                );
                let entry = SkillEntry {
                    id: input.id.clone(),
                    document: doc,
                    created_at: dup_opt(&created_at),
                };
                let ghost pre = *self;
                self.entries.push(entry);
                self.config.custom.push(input.id.clone());
                proof {
                    let n = pre.entries@.len() as int;
                    assert(self.ids() =~= pre.ids().push(input.id@));
                    assert(self.ids()[n] == input.id@);
                    assert(forall|m: int| 0 <= m < n ==> #[trigger] self.ids()[m] == pre.ids()[m]);
                    assert(self.wf());
                    self.lemma_idx_unique(n, input.id@);
                    assert(self.config.custom.deep_view() =~= pre.config.custom.deep_view().push(
                        input.id@,
                    ));
                    assert(self.config.custom.deep_view().last() == input.id@);
                    assert forall|other: Seq<char>|
                        other != input.id@ && pre.has_folder(other) implies #[trigger] self.doc_of(
                        other,
                    ) == pre.doc_of(other) && self.created_of(other) == pre.created_of(other) by {
                        let k = pre.idx_of(other);
                        pre.lemma_idx_unique(k, other);
                        self.lemma_idx_unique(k, other);
                    }
                }
                let enabled = !contains_str(&self.config.disabled, input.id.as_str());
                let path = skill_path(self.dir.as_str(), input.id.as_str());
                let sk = Skill {
                    id: input.id,
                    name: input.name,
                    description: input.description,
                    enabled,
                    category: SkillCategory::Custom,
                    path,
                    content: input.content,
                    created_at,
                    is_custom: true,
                };
                proof {
                    if docfmt::round_trip_safe(sk.name@, sk.description@) && crate::text::spec_trim(
                        sk.content@,
                    ) == sk.content@ {
                        docfmt::lemma_generate_parse_round_trip(sk.name@, sk.description@, sk.content@);
                    }
                }
                Ok(sk)
            },
        }
    }

    /// Enable or disable a skill. Fails with `NotFound` when the folder
    /// is absent; otherwise idempotent in either direction.
    pub fn toggle(&mut self, id: &str, enabled: bool) -> (r: Result<(), RhinolabsError>)
        requires
            old(self).wf(),
        ensures
            final(self).wf(),
            !old(self).has_folder(id@) ==> (r matches Err(e) && e.kind == ErrorKind::NotFound
                && *final(self) == *old(self)),
            old(self).has_folder(id@) ==> r is Ok && spec_toggle_effect(
                *old(self),
                *final(self),
                id@,
                enabled,
            ),
            old(self).has_folder(id@) && enabled ==> final(self).is_enabled(id@),
            old(self).has_folder(id@) && !enabled ==> final(self).is_disabled(id@),
    {
        match self.find_entry(id) {
            None => Err(
                RhinolabsError::new(
                    ErrorKind::NotFound,
                    quoted_msg("Skill '", id, "' not found"),
                ),
            ),
            Some(i) => {
                proof {
                    assert(self.ids()[i as int] == id@);
                }
                if enabled {
                    remove_all_str(&mut self.config.disabled, id);
                    proof {
                        crate::seqtools::lemma_without_id_excludes(
                            old(self).config.disabled.deep_view(),
                            id@,
                        );
                    }
                } else {
                    if !contains_str(&self.config.disabled, id) {
                        let ghost pre = *self;
                        self.config.disabled.push(id.to_owned());
                        proof {
                            assert(self.config.disabled.deep_view()
                                =~= pre.config.disabled.deep_view().push(id@));
                            assert(self.config.disabled.deep_view().last() == id@);
                        }
                    }
                }
                Ok(())
            },
        }
    }

    /// Delete a custom skill. Built-ins — ids not registered custom — are
    /// refused with `PermissionDenied`; a custom registration without a
    /// folder is `NotFound`; otherwise the folder is removed and the id
    /// leaves both sidecar sets.
    pub fn delete(&mut self, id: &str) -> (r: Result<(), RhinolabsError>)
        requires
            old(self).wf(),
        ensures
            final(self).wf(),
            match spec_delete_error(*old(self), id@) {
                Some(k) => r matches Err(e) && e.kind == k && *final(self) == *old(self),
                None => r is Ok && spec_delete_ok(*old(self), *final(self), id@)
                    && !final(self).has_folder(id@),
            },
    {
        if !contains_str(&self.config.custom, id) {
            return Err(
                RhinolabsError::new(
                    ErrorKind::PermissionDenied,
                    quoted_msg(
                        "Cannot delete built-in skill '",
                        id,
                        "'. You can only disable it.",
                    ),
                ),
            );
        }
        match self.find_entry(id) {
            None => Err(
                RhinolabsError::new(
                    ErrorKind::NotFound,
                    quoted_msg("Skill '", id, "' not found"),
                ),
            ),
            Some(i) => {
                proof {
                    self.lemma_idx_unique(i as int, id@);
                }
                let ghost pre = *self;
                self.entries.remove(i);
                remove_all_str(&mut self.config.custom, id);
                remove_all_str(&mut self.config.disabled, id);
                proof {
                    assert(self.ids() =~= pre.ids().remove(i as int));
                    pre.lemma_remove_keeps_unique(i as int);
                    assert(self.wf());
                    if self.has_folder(id@) {
                        let k = choose|k: int| 0 <= k < self.ids().len() && self.ids()[k] == id@;
                        if k < i {
                            assert(pre.ids()[k] == id@);
                            assert(false);
                        } else {
                            assert(pre.ids()[k + 1] == id@);
                            assert(false);
                        }
                    }
                }
                Ok(())
            },
        }
    }

    /// Update an existing skill. Fails with `NotFound` when the folder is
    /// absent and surfaces a malformed document; otherwise only the
    /// supplied fields change, and a supplied `enabled` flag is routed
    /// through the toggle semantics.
    pub fn update(&mut self, id: &str, input: UpdateSkillInput) -> (r: Result<(), RhinolabsError>)
        requires
            old(self).wf(),
        ensures
            final(self).wf(),
            !old(self).has_folder(id@) ==> (r matches Err(e) && e.kind == ErrorKind::NotFound
                && *final(self) == *old(self)),
            old(self).has_folder(id@) && !old(self).loadable(id@) ==> (r matches Err(e) && e.kind
                == ErrorKind::MalformedDocument && *final(self) == *old(self)),
            old(self).loadable(id@) ==> r is Ok && spec_update_ok(
                *old(self),
                *final(self),
                id@,
                input,
            ),
    {
        match self.find_entry(id) {
            None => Err(
                RhinolabsError::new(
                    ErrorKind::NotFound,
                    quoted_msg("Skill '", id, "' not found"),
                ),
            ),
            Some(i) => {
                proof {
                    self.lemma_idx_unique(i as int, id@);
                }
                match docfmt::parse_doc(self.entries[i].document.as_str()) {
                    Err(e) => Err(e),
                    Ok((fm, body)) => {
                        let new_name = match input.name {
                            Some(n) => n,
                            None => fm.name,
                        };
                        let new_desc = match input.description {
                            Some(d) => d,
                            None => fm.description,
                        };
                        let new_content = match input.content {
                            Some(c) => c,
                            None => body,
                        };
                        let doc = docfmt::generate_doc(
                            new_name.as_str(),
                            new_desc.as_str(),
                            new_content.as_str(),
                        );
                        let entry = SkillEntry {
                            id: self.entries[i].id.clone(),
                            document: doc,
                            created_at: dup_opt(&self.entries[i].created_at),
                        };
                        let ghost pre = *self;
                        self.entries.set(i, entry);
                        proof {
                            assert(self.ids() =~= pre.ids().update(i as int, id@));
                            assert(self.ids() =~= pre.ids());
                            self.lemma_idx_unique(i as int, id@);
                            assert forall|other: Seq<char>|
                                other != id@ && pre.has_folder(other) implies #[trigger] self.doc_of(
                                other,
                            ) == pre.doc_of(other) && self.created_of(other) == pre.created_of(
                                other,
                            ) by {
                                let k = pre.idx_of(other);
                                pre.lemma_idx_unique(k, other);
                                self.lemma_idx_unique(k, other);
                            }
                        }
                        match input.enabled {
                            Some(b) => {
                                let tr = self.toggle(id, b);
                                proof {
                                    assert(tr is Ok);
                                }
                            },
                            None => {},
                        }
                        Ok(())
                    },
                }
            },
        }
    }

    /// Removing one entry keeps the remaining folder names unique.
    proof fn lemma_remove_keeps_unique(&self, i: int)
        requires
            self.wf(),
            0 <= i < self.ids().len(),
        ensures
            self.ids().remove(i).no_duplicates(),
    {
        let r = self.ids().remove(i);
        assert forall|p: int, q: int| 0 <= p < q < r.len() implies r[p] != r[q] by {
            let p0 = if p < i {
                p
            } else {
                p + 1
            };
            let q0 = if q < i {
                q
            } else {
                q + 1
            };
            assert(r[p] == self.ids()[p0]);
            assert(r[q] == self.ids()[q0]);
        }
    }
}

/// The list order's category ranks: the fixed priority of categories.
pub open spec fn cat_rank(c: SkillCategory) -> int {
    match c {
        SkillCategory::Corporate => 0,
        SkillCategory::Frontend => 1,
        SkillCategory::Testing => 2,
        SkillCategory::AiSdk => 3,
        SkillCategory::Utilities => 4,
        SkillCategory::Custom => 5,
    }
}

/// The list order: category first, then name, lexicographically.
pub open spec fn skill_le(a: Skill, b: Skill) -> bool {
    cat_rank(a.category) < cat_rank(b.category) || (cat_rank(a.category) == cat_rank(b.category)
        && crate::text::lex_le(a.name@, b.name@))
}

/// A sequence of skills in list order.
pub open spec fn skills_sorted(s: Seq<Skill>) -> bool {
    forall|i: int, j: int| 0 <= i < j < s.len() ==> skill_le(s[i], s[j])
}

/// The ids of a sequence of skills, in the same order.
pub open spec fn id_seq(sks: Seq<Skill>) -> Seq<Seq<char>> {
    sks.map_values(|sk: Skill| sk.id@)
}

/// The predicate selecting the ids `list` can load.
pub open spec fn loadable_pred(s: Skills) -> spec_fn(Seq<char>) -> bool {
    |id: Seq<char>| s.loadable(id)
}

/// The ids `list` reports: those whose folder exists and whose document
/// parses.
pub open spec fn listable_ids(s: Skills) -> Seq<Seq<char>> {
    s.ids().filter(loadable_pred(s))
}

proof fn lemma_id_seq_push(sks: Seq<Skill>, sk: Skill)
    ensures
        id_seq(sks.push(sk)) == id_seq(sks).push(sk.id@),
{
    assert(id_seq(sks.push(sk)) =~= id_seq(sks).push(sk.id@));
}

proof fn lemma_id_seq_remove(sks: Seq<Skill>, i: int)
    requires
        0 <= i < sks.len(),
    ensures
        id_seq(sks.remove(i)) == id_seq(sks).remove(i),
{
    assert(id_seq(sks.remove(i)) =~= id_seq(sks).remove(i));
}

proof fn lemma_skill_le_total(a: Skill, b: Skill)
    ensures
        skill_le(a, b) || skill_le(b, a),
{
    crate::text::lemma_lex_le_total(a.name@, b.name@);
}

proof fn lemma_skill_le_trans(a: Skill, b: Skill, c: Skill)
    requires
        skill_le(a, b),
        skill_le(b, c),
    ensures
        skill_le(a, c),
{
    if cat_rank(a.category) == cat_rank(b.category) && cat_rank(b.category) == cat_rank(
        c.category,
    ) {
        crate::text::lemma_lex_le_trans(a.name@, b.name@, c.name@);
    }
}

/// Executable comparison in list order.
fn skill_le_exec(a: &Skill, b: &Skill) -> (r: bool)
    ensures
        r == skill_le(*a, *b),
{
    let ra = cat_rank_exec(a.category);
    let rb = cat_rank_exec(b.category);
    if ra < rb {
        true
    } else if ra > rb {
        false
    } else {
        crate::text::str_le(a.name.as_str(), b.name.as_str())
    }
}

fn cat_rank_exec(c: SkillCategory) -> (r: u8)
    ensures
        r as int == cat_rank(c),
{
    match c {
        SkillCategory::Corporate => 0,
        SkillCategory::Frontend => 1,
        SkillCategory::Testing => 2,
        SkillCategory::AiSdk => 3,
        SkillCategory::Utilities => 4,
        SkillCategory::Custom => 5,
    }
}

impl Skills {
    /// List the catalog: one skill per folder whose document parses —
    /// folders that fail to parse are skipped, not surfaced — ordered by
    /// category priority, then name.
    pub fn list(&self) -> (r: Vec<Skill>)
        requires
            self.wf(),
        ensures
            skills_sorted(r@),
            id_seq(r@).to_multiset() == listable_ids(*self).to_multiset(),
            forall|k: int|
                0 <= k < r@.len() ==> self.skill_model((#[trigger] r@[k]).id@, r@[k]),
    {
        broadcast use vstd::seq_lib::group_to_multiset_ensures;

        let ghost pred = loadable_pred(*self);
        let mut col: Vec<Skill> = Vec::new();
        let mut i: usize = 0;
        proof {
            reveal(Seq::filter);
            assert(self.ids().take(0) =~= Seq::<Seq<char>>::empty());
            assert(id_seq(col@) =~= Seq::<Seq<char>>::empty());
        }
        while i < self.entries.len()
            invariant
                self.wf(),
                pred == loadable_pred(*self),
                0 <= i <= self.entries@.len(),
                id_seq(col@) == self.ids().take(i as int).filter(pred),
                forall|k: int|
                    0 <= k < col@.len() ==> self.skill_model((#[trigger] col@[k]).id@, col@[k]),
            decreases self.entries@.len() - i,
        {
            let ghost idv = self.ids()[i as int];
            proof {
                self.lemma_idx_unique(i as int, idv);
                crate::seqtools::lemma_filter_push(self.ids().take(i as int), idv, pred);
                assert(self.ids().take(i + 1) =~= self.ids().take(i as int).push(idv));
            }
            match self.get(self.entries[i].id.as_str()) {
                Ok(Some(sk)) => {
                    proof {
                        lemma_id_seq_push(col@, sk);
                    }
                    col.push(sk);
                },
                Ok(None) => {
                    proof {
                        assert(false);
                    }
                },
                Err(_) => {
                    proof {
                        assert(!pred(idv));
                    }
                },
            }
            i = i + 1;
        }
        proof {
            assert(self.ids().take(self.ids().len() as int) =~= self.ids());
        }
        // selection sort into list order
        let mut rem = col;
        let ghost all = id_seq(rem@).to_multiset();
        let mut out: Vec<Skill> = Vec::new();
        proof {
            assert(id_seq(out@) =~= Seq::<Seq<char>>::empty());
            assert(id_seq(out@).to_multiset().add(id_seq(rem@).to_multiset()) =~= all);
        }
        while rem.len() > 0
            invariant
                skills_sorted(out@),
                forall|p: int, q: int|
                    0 <= p < out@.len() && 0 <= q < rem@.len() ==> skill_le(
                        #[trigger] out@[p],
                        #[trigger] rem@[q],
                    ),
                id_seq(out@).to_multiset().add(id_seq(rem@).to_multiset()) == all,
                forall|k: int|
                    0 <= k < out@.len() ==> self.skill_model((#[trigger] out@[k]).id@, out@[k]),
                forall|k: int|
                    0 <= k < rem@.len() ==> self.skill_model((#[trigger] rem@[k]).id@, rem@[k]),
            decreases rem@.len(),
        {
            let mut best: usize = 0;
            let mut j: usize = 1;
            proof {
                lemma_skill_le_total(rem@[0], rem@[0]);
            }
            while j < rem.len()
                invariant
                    0 <= best < j <= rem@.len(),
                    rem@.len() > 0,
                    forall|k: int| 0 <= k < j ==> skill_le(rem@[best as int], #[trigger] rem@[k]),
                decreases rem@.len() - j,
            {
                if skill_le_exec(&rem[j], &rem[best]) {
                    proof {
                        assert forall|k: int| 0 <= k < j + 1 implies skill_le(
                            rem@[j as int],
                            #[trigger] rem@[k],
                        ) by {
                            if k < j {
                                lemma_skill_le_trans(rem@[j as int], rem@[best as int], rem@[k]);
                            } else {
                                lemma_skill_le_total(rem@[j as int], rem@[j as int]);
                            }
                        }
                    }
                    best = j;
                } else {
                    proof {
                        lemma_skill_le_total(rem@[best as int], rem@[j as int]);
                    }
                }
                j = j + 1;
            }
            let ghost pre_rem = rem@;
            let ghost pre_out = out@;
            let x = rem.remove(best);
            proof {
                lemma_id_seq_remove(pre_rem, best as int);
                assert(id_seq(pre_rem)[best as int] == x.id@);
            }
            out.push(x);
            proof {
                lemma_id_seq_push(pre_out, x);
                id_seq(pre_out).to_multiset_ensures();
                id_seq(pre_rem).to_multiset_ensures();
                let a = id_seq(pre_out).to_multiset();
                let b = id_seq(pre_rem).to_multiset();
                assert(id_seq(out@).to_multiset() =~= a.insert(x.id@));
                assert(id_seq(rem@).to_multiset() =~= b.remove(x.id@));
                assert(id_seq(pre_rem).contains(x.id@));
                assert(b.count(x.id@) > 0);
                assert(a.insert(x.id@).add(b.remove(x.id@)) =~= a.add(b));
                assert(id_seq(out@).to_multiset().add(id_seq(rem@).to_multiset()) =~= all);
                assert forall|p: int, q: int|
                    0 <= p < out@.len() && 0 <= q < rem@.len() implies skill_le(
                    #[trigger] out@[p],
                    #[trigger] rem@[q],
                ) by {
                    let q0 = if q < best {
                        q
                    } else {
                        q + 1
                    };
                    assert(rem@[q] == pre_rem[q0]);
                    if p < pre_out.len() {
                        assert(skill_le(out@[p], rem@[q]));
                    } else {
                        assert(out@[p] == x);
                        assert(skill_le(x, pre_rem[q0]));
                    }
                }
            }
        }
        out
    }
}

/// Every created custom skill can be deleted. A state in which a skill's
/// folder exists and its id is registered custom — exactly what `create`
/// leaves behind — satisfies `delete`'s success condition, and the state
/// `delete` then produces no longer holds the folder, so `get` reports
/// the skill absent by its own contract.
pub proof fn lemma_created_custom_skill_deletable(pre: Skills, post: Skills, id: Seq<char>)
    requires
        pre.wf(),
        pre.has_folder(id),
        pre.is_custom_id(id),
        spec_delete_ok(pre, post, id),
    ensures
        spec_delete_error(pre, id) is None,
        !post.has_folder(id),
{
    let i = pre.idx_of(id);
    assert(pre.ids().contains(id));
    assert(0 <= i < pre.ids().len() && pre.ids()[i] == id);
    assert(post.ids() =~= pre.ids().remove(i));
    if post.has_folder(id) {
        let k = choose|k: int| 0 <= k < post.ids().len() && post.ids()[k] == id;
        if k < i {
            assert(pre.ids()[k] == id);
            assert(false);
        } else {
            assert(pre.ids()[k + 1] == id);
            assert(false);
        }
    }
}

/// A built-in skill id that is not registered custom can never be
/// deleted, whatever the disabled set holds: `delete` refuses it with
/// `PermissionDenied`.
pub proof fn lemma_builtin_skill_protected(s: Skills, id: Seq<char>)
    requires
        spec_is_builtin(id),
        !s.is_custom_id(id),
    ensures
        spec_delete_error(s, id) == Some(ErrorKind::PermissionDenied),
{
}

/// Disabling a skill and then enabling it again restores `enabled` for
/// every existing id.
pub proof fn lemma_toggle_round_trip(s0: Skills, s1: Skills, s2: Skills, id: Seq<char>)
    requires
        s0.wf(),
        s0.has_folder(id),
        spec_toggle_effect(s0, s1, id, false),
        spec_toggle_effect(s1, s2, id, true),
    ensures
        s2.is_enabled(id),
{
    crate::seqtools::lemma_without_id_excludes(s1.config.disabled.deep_view(), id);
}

} // verus!
