//! The profile registry and installer.
//!
//! A profile is a named, typed, ordered bundle of skill ids. The
//! registry owns profile identity and the default-profile mark; the
//! installer turns a profile into a plan of filesystem writes against a
//! target location, isolating per-skill failure and keeping scaffold
//! creation idempotent. Callers execute the returned plans.

use vstd::prelude::*;

use crate::docfmt;
use crate::errors::ErrorKind;
use crate::errors::RhinolabsError;
use crate::paths::Paths;
use crate::skills::loadable_pred;
use crate::skills::opt_view;
use crate::skills::Skills;
use crate::text::str_eq;

verus! {

/// Whether a profile installs user-globally or into a project.
#[derive(Debug, Clone, Copy, PartialEq, Eq, Structural)]
pub enum ProfileType {
    User,
    Project,
}

/// An installable bundle of skills.
#[derive(Debug, Clone)]
pub struct Profile {
    pub id: String,
    pub name: String,
    pub description: String,
    pub profile_type: ProfileType,
    pub skills: Vec<String>,
    pub created_at: String,
    pub updated_at: String,
}

/// One skill that could not be installed, with the reason.
#[derive(Debug, Clone)]
pub struct SkillInstallError {
    pub skill_id: String,
    pub error: String,
}

/// The outcome of one install or update: every referenced skill id
/// appears in exactly one of the two lists.
#[derive(Debug, Clone)]
pub struct InstallResult {
    pub target_path: String,
    pub skills_installed: Vec<String>,
    pub skills_failed: Vec<SkillInstallError>,
}

/// What already exists at a project target.
#[derive(Debug, Clone, Copy, PartialEq, Eq, Structural)]
pub struct ScaffoldState {
    pub has_plugin_manifest: bool,
    pub has_skills_dir: bool,
    pub has_instructions: bool,
}

/// One document to write under the target's skills directory.
#[derive(Debug, Clone)]
pub struct SkillWrite {
    pub skill_id: String,
    pub document: String,
}

/// The filesystem work an install or update asks its caller to do.
#[derive(Debug, Clone)]
pub struct InstallPlan {
    /// A caller-supplied path was ignored because the profile is
    /// user-typed.
    pub path_ignored: bool,
    /// The profile has no skills: nothing is to be touched.
    pub empty_profile: bool,
    /// Create the plugin-descriptor file (only when absent).
    pub create_plugin_manifest: bool,
    /// Create the skills sub-directory (only when absent).
    pub create_skills_dir: bool,
    /// Create the instructions file (only when absent).
    pub create_instructions: bool,
    /// The documents to write, one per installed skill, in order.
    pub writes: Vec<SkillWrite>,
}

/// The removals an uninstall asks its caller to do.
#[derive(Debug, Clone, Copy, PartialEq, Eq, Structural)]
pub struct UninstallPlan {
    /// No generated artifacts were present: leave the path untouched.
    pub nothing_to_do: bool,
    pub remove_skills_dir: bool,
    pub remove_plugin_dir: bool,
    pub remove_instructions: bool,
}

/// The profile registry: the known profiles and the default mark.
pub struct Profiles {
    pub profiles: Vec<Profile>,
    pub default_user_id: Option<String>,
}

/// The profile ids in the registry, in order.
pub open spec fn profile_ids(s: Profiles) -> Seq<Seq<char>> {
    s.profiles@.map_values(|p: Profile| p.id@)
}

/// The ids of a list of failed skills, in order.
pub open spec fn err_ids(v: Seq<SkillInstallError>) -> Seq<Seq<char>> {
    v.map_values(|e: SkillInstallError| e.skill_id@)
}

/// The predicate selecting ids the store cannot load.
pub open spec fn unloadable_pred(s: Skills) -> spec_fn(Seq<char>) -> bool {
    |id: Seq<char>| !s.loadable(id)
}

/// Two profiles carrying the same data.
pub open spec fn profile_like(a: Profile, b: Profile) -> bool {
    &&& a.id@ == b.id@
    &&& a.name@ == b.name@
    &&& a.description@ == b.description@
    &&& a.profile_type == b.profile_type
    &&& a.skills.deep_view() == b.skills.deep_view()
    &&& a.created_at@ == b.created_at@
    &&& a.updated_at@ == b.updated_at@
}

/// The effective install target: user profiles always use the global
/// location; project profiles use the supplied path, else the working
/// directory.
pub open spec fn spec_target(
    ptype: ProfileType,
    target: Option<Seq<char>>,
    home: Seq<char>,
    cwd: Seq<char>,
) -> Seq<char> {
    if ptype == ProfileType::User {
        home + "/.rhinolabs"@
    } else {
        match target {
            Some(t) => t,
            None => cwd,
        }
    }
}

/// A write the plan may carry: its document is the one the store derives
/// for its id.
pub open spec fn write_ok(store: Skills, w: SkillWrite) -> bool {
    &&& store.loadable(w.skill_id@)
    &&& w.document@ == {
        let q = crate::docfmt::spec_parse(store.doc_of(w.skill_id@))->0;
        docfmt::spec_generate(q.0, q.1, q.2)
    }
}

/// What a successful install or update reports: the resolved target, the
/// partition of the profile's skill ids into installed and failed —
/// each id in exactly one list, in profile order — and one write per
/// installed skill.
pub open spec fn install_outcome(
    reg: Profiles,
    store: Skills,
    profile_id: Seq<char>,
    target: Option<Seq<char>>,
    home: Seq<char>,
    cwd: Seq<char>,
    res: InstallResult,
    plan: InstallPlan,
) -> bool {
    let p = reg.profile_of(profile_id);
    let ids = p.skills.deep_view();
    &&& res.target_path@ == spec_target(p.profile_type, target, home, cwd)
    &&& plan.path_ignored == (p.profile_type == ProfileType::User && target is Some)
    &&& plan.empty_profile == (ids.len() == 0)
    &&& res.skills_installed.deep_view() == ids.filter(loadable_pred(store))
    &&& err_ids(res.skills_failed@) == ids.filter(unloadable_pred(store))
    &&& res.skills_installed@.len() + res.skills_failed@.len() == ids.len()
    &&& plan.writes@.len() == res.skills_installed@.len()
    &&& forall|k: int|
        0 <= k < plan.writes@.len() ==> write_ok(store, #[trigger] plan.writes@[k])
            && plan.writes@[k].skill_id@ == res.skills_installed.deep_view()[k]
}

/// Every skill id of the profile lands in exactly one of the two result
/// lists of an install or update: ids the store can load are installed,
/// the rest fail, the two memberships never overlap, and together they
/// are exactly the profile's skill ids.
pub proof fn lemma_install_partition(
    reg: Profiles,
    store: Skills,
    profile_id: Seq<char>,
    target: Option<Seq<char>>,
    home: Seq<char>,
    cwd: Seq<char>,
    res: InstallResult,
    plan: InstallPlan,
)
    requires
        install_outcome(reg, store, profile_id, target, home, cwd, res, plan),
    ensures
        forall|id: Seq<char>| #![auto]
            res.skills_installed.deep_view().contains(id) ==> store.loadable(id),
        forall|id: Seq<char>| #![auto] err_ids(res.skills_failed@).contains(id) ==> !store.loadable(
            id,
        ),
        forall|id: Seq<char>| #![auto]
            (res.skills_installed.deep_view().contains(id) || err_ids(
                res.skills_failed@,
            ).contains(id)) <==> reg.profile_of(profile_id).skills.deep_view().contains(id),
        res.skills_installed@.len() + res.skills_failed@.len() == reg.profile_of(
            profile_id,
        ).skills.deep_view().len(),
{
    let ids = reg.profile_of(profile_id).skills.deep_view();
    let inst = res.skills_installed.deep_view();
    let fail = err_ids(res.skills_failed@);
    assert forall|id: Seq<char>| #![auto] inst.contains(id) implies store.loadable(id) by {
        crate::seqtools::lemma_filter_elem(ids, loadable_pred(store), id);
    }
    assert forall|id: Seq<char>| #![auto] fail.contains(id) implies !store.loadable(id) by {
        crate::seqtools::lemma_filter_elem(ids, unloadable_pred(store), id);
    }
    assert forall|id: Seq<char>| #![auto] (inst.contains(id) || fail.contains(id)) implies
        ids.contains(id) by {
        if inst.contains(id) {
            crate::seqtools::lemma_filter_elem(ids, loadable_pred(store), id);
        } else {
            crate::seqtools::lemma_filter_elem(ids, unloadable_pred(store), id);
        }
    }
    assert forall|id: Seq<char>| #![auto] ids.contains(id) implies (inst.contains(id)
        || fail.contains(id)) by {
        let i = choose|i: int| 0 <= i < ids.len() && ids[i] == id;
        broadcast use vstd::seq_lib::group_filter_ensures;

        if store.loadable(id) {
            assert(loadable_pred(store)(ids[i]));
            assert(ids.filter(loadable_pred(store)).contains(ids[i]));
        } else {
            assert(unloadable_pred(store)(ids[i]));
            assert(ids.filter(unloadable_pred(store)).contains(ids[i]));
        }
    }
}

/// Duplicate a list of strings.
fn dup_strs(v: &Vec<String>) -> (r: Vec<String>)
    ensures
        r@ == v@,
{
    let mut r: Vec<String> = Vec::new();
    let mut i: usize = 0;
    while i < v.len()
        invariant
            0 <= i <= v@.len(),
            r@ == v@.subrange(0, i as int),
        decreases v@.len() - i,
    {
        r.push(v[i].clone());
        proof {
            assert(r@ =~= v@.subrange(0, i + 1));
        }
        i = i + 1;
    }
    proof {
        assert(v@.subrange(0, v@.len() as int) =~= v@);
    }
    r
}

/// Duplicate a profile value.
fn dup_profile(p: &Profile) -> (r: Profile)
    ensures
        profile_like(r, *p),
{
    Profile {
        id: p.id.clone(),
        name: p.name.clone(),
        description: p.description.clone(),
        profile_type: p.profile_type,
        skills: dup_strs(&p.skills),
        created_at: p.created_at.clone(),
        updated_at: p.updated_at.clone(),
    }
}

impl Profiles {
    /// Well-formedness: profile ids are unique.
    pub open spec fn wf(&self) -> bool {
        profile_ids(*self).no_duplicates()
    }

    /// A profile under `id` exists.
    pub open spec fn has_profile(&self, id: Seq<char>) -> bool {
        profile_ids(*self).contains(id)
    }

    /// The position of `id` among the profiles.
    pub open spec fn profile_idx(&self, id: Seq<char>) -> int {
        profile_ids(*self).index_of(id)
    }

    /// The profile stored under `id`.
    pub open spec fn profile_of(&self, id: Seq<char>) -> Profile {
        self.profiles@[self.profile_idx(id)]
    }

    /// The registry has a valid default: a marked id that names an
    /// existing user-typed profile.
    pub open spec fn default_ok(&self) -> bool {
        &&& self.default_user_id matches Some(d) && self.has_profile(d@) && self.profile_of(
            d@,
        ).profile_type == ProfileType::User
    }

    /// An empty registry.
    pub fn new() -> (s: Profiles)
        ensures
            s.wf(),
            profile_ids(s).len() == 0,
            s.default_user_id is None,
    {
        let s = Profiles { profiles: Vec::new(), default_user_id: None };
        proof {
            assert(profile_ids(s) =~= Seq::<Seq<char>>::empty());
        }
        s
    }

    /// Find the position of the profile carrying `id`.
    fn find_profile(&self, id: &str) -> (r: Option<usize>)
        ensures
            match r {
                Some(i) => i < self.profiles@.len() && self.profiles@[i as int].id@ == id@,
                None => !self.has_profile(id@),
            },
    {
        let mut i: usize = 0;
        while i < self.profiles.len()
            invariant
                0 <= i <= self.profiles@.len(),
                forall|m: int| 0 <= m < i ==> #[trigger] self.profiles@[m].id@ != id@,
            decreases self.profiles@.len() - i,
        {
            if str_eq(self.profiles[i].id.as_str(), id) {
                return Some(i);
            }
            i = i + 1;
        }
        proof {
            if self.has_profile(id@) {
                let k = choose|k: int|
                    0 <= k < profile_ids(*self).len() && profile_ids(*self)[k] == id@;
                assert(self.profiles@[k].id@ == id@);
            }
        }
        None
    }

    proof fn lemma_profile_idx(&self, i: int, id: Seq<char>)
        requires
            self.wf(),
            0 <= i < profile_ids(*self).len(),
            profile_ids(*self)[i] == id,
        ensures
            self.has_profile(id),
            self.profile_idx(id) == i,
    {
        assert(profile_ids(*self).contains(id));
        let k = profile_ids(*self).index_of(id);
        assert(profile_ids(*self)[k] == id);
        if k != i {
            assert(false);
        }
    }

    /// All profiles, in store order.
    pub fn list(&self) -> (r: Vec<Profile>)
        ensures
            r@.len() == self.profiles@.len(),
            forall|k: int|
                0 <= k < r@.len() ==> profile_like(#[trigger] r@[k], self.profiles@[k]),
    {
        let mut r: Vec<Profile> = Vec::new();
        let mut i: usize = 0;
        while i < self.profiles.len()
            invariant
                0 <= i <= self.profiles@.len(),
                r@.len() == i,
                forall|k: int|
                    0 <= k < i ==> profile_like(#[trigger] r@[k], self.profiles@[k]),
            decreases self.profiles@.len() - i,
        {
            let p = dup_profile(&self.profiles[i]);
            r.push(p);
            i = i + 1;
        }
        r
    }

    /// Look up one profile by id.
    pub fn get(&self, id: &str) -> (r: Option<Profile>)
        requires
            self.wf(),
        ensures
            r is Some <==> self.has_profile(id@),
            r matches Some(p) ==> profile_like(p, self.profile_of(id@)),
    {
        match self.find_profile(id) {
            None => None,
            Some(i) => {
                proof {
                    self.lemma_profile_idx(i as int, id@);
                }
                Some(dup_profile(&self.profiles[i]))
            },
        }
    }

    /// Register a new profile; refused with `AlreadyExists` when the id
    /// is taken.
    pub fn create(&mut self, profile: Profile) -> (r: Result<(), RhinolabsError>)
        requires
            old(self).wf(),
        ensures
            final(self).wf(),
            old(self).has_profile(profile.id@) ==> (r matches Err(e) && e.kind
                == ErrorKind::AlreadyExists && *final(self) == *old(self)),
            !old(self).has_profile(profile.id@) ==> r is Ok && final(self).profiles@ == old(
                self,
            ).profiles@.push(profile) && final(self).default_user_id == old(self).default_user_id,
    {
        match self.find_profile(profile.id.as_str()) {
            Some(i) => {
                proof {
                    assert(profile_ids(*self)[i as int] == profile.id@);
                }
                Err(
                    RhinolabsError::new(
                        ErrorKind::AlreadyExists,
                        crate::text::concat2("Profile already exists: ", profile.id.as_str()),
                    ),
                )
            },
            None => {
                let ghost pre = *self;
                self.profiles.push(profile);
                proof {
                    let n = pre.profiles@.len() as int;
                    assert(profile_ids(*self) =~= profile_ids(pre).push(profile.id@));
                    assert(profile_ids(*self)[n] == profile.id@);
                    assert(forall|m: int|
                        0 <= m < n ==> #[trigger] profile_ids(*self)[m] == profile_ids(pre)[m]);
                    assert(self.wf());
                }
                Ok(())
            },
        }
    }

    /// Mark a user-typed profile as the default; refused with `NotFound`
    /// for an unknown id and with a configuration error for a
    /// project-typed profile.
    pub fn set_default(&mut self, id: &str) -> (r: Result<(), RhinolabsError>)
        requires
            old(self).wf(),
        ensures
            final(self).wf(),
            final(self).profiles == old(self).profiles,
            !old(self).has_profile(id@) ==> (r matches Err(e) && e.kind == ErrorKind::NotFound
                && *final(self) == *old(self)),
            old(self).has_profile(id@) && old(self).profile_of(id@).profile_type
                != ProfileType::User ==> (r matches Err(e) && e.kind == ErrorKind::Configuration
                && *final(self) == *old(self)),
            old(self).has_profile(id@) && old(self).profile_of(id@).profile_type
                == ProfileType::User ==> r is Ok && (final(self).default_user_id matches Some(d)
                && d@ == id@) && final(self).default_ok(),
    {
        match self.find_profile(id) {
            None => Err(
                RhinolabsError::new(
                    ErrorKind::NotFound,
                    crate::text::concat2("Profile not found: ", id),
                ),
            ),
            Some(i) => {
                proof {
                    self.lemma_profile_idx(i as int, id@);
                }
                match self.profiles[i].profile_type {
                    ProfileType::Project => Err(
                        RhinolabsError::new(
                            ErrorKind::Configuration,
                            String::from_str("Only user profiles can be the default"),
                        ),
                    ),
                    ProfileType::User => {
                        self.default_user_id = Some(id.to_owned());
                        Ok(())
                    },
                }
            },
        }
    }

    /// Materialize a profile's skills at a target. The profile must
    /// exist; the effective target follows the profile type; an empty
    /// profile touches nothing and is reported as such; scaffold
    /// artifacts are created only where `state` says they are missing;
    /// and every skill id lands in exactly one of the two result lists —
    /// a failure on one id never aborts the rest.
    pub fn install(
        &self,
        store: &Skills,
        profile_id: &str,
        target_path: Option<String>,
        home: &str,
        cwd: &str,
        state: &ScaffoldState,
    ) -> (r: Result<(InstallResult, InstallPlan), RhinolabsError>)
        requires
            self.wf(),
            store.wf(),
        ensures
            r is Ok <==> self.has_profile(profile_id@),
            r matches Err(e) ==> e.kind == ErrorKind::NotFound,
            r matches Ok(v) ==> install_outcome(
                *self,
                *store,
                profile_id@,
                opt_view(target_path),
                home@,
                cwd@,
                v.0,
                v.1,
            ),
            r matches Ok(v) ==> ({
                let p = self.profile_of(profile_id@);
                if p.skills@.len() > 0 && p.profile_type == ProfileType::Project {
                    v.1.create_plugin_manifest == !state.has_plugin_manifest
                        && v.1.create_skills_dir == !state.has_skills_dir
                        && v.1.create_instructions == !state.has_instructions
                } else {
                    !v.1.create_plugin_manifest && !v.1.create_skills_dir
                        && !v.1.create_instructions
                }
            }),
    {
        self.materialize(store, profile_id, target_path, home, cwd, state, true)
    }

    /// Re-run the per-skill writes of an install with current content:
    /// the scaffold is never recreated, every loadable skill is
    /// rewritten, and the result partitions the profile's ids as
    /// `install` does.
    pub fn update_installed(
        &self,
        store: &Skills,
        profile_id: &str,
        target_path: Option<String>,
        home: &str,
        cwd: &str,
    ) -> (r: Result<(InstallResult, InstallPlan), RhinolabsError>)
        requires
            self.wf(),
            store.wf(),
        ensures
            r is Ok <==> self.has_profile(profile_id@),
            r matches Err(e) ==> e.kind == ErrorKind::NotFound,
            r matches Ok(v) ==> install_outcome(
                *self,
                *store,
                profile_id@,
                opt_view(target_path),
                home@,
                cwd@,
                v.0,
                v.1,
            ),
            r matches Ok(v) ==> !v.1.create_plugin_manifest && !v.1.create_skills_dir
                && !v.1.create_instructions,
    {
        let state = ScaffoldState {
            has_plugin_manifest: true,
            has_skills_dir: true,
            has_instructions: true,
        };
        self.materialize(store, profile_id, target_path, home, cwd, &state, false)
    }

    /// The shared body of `install` and `update_installed`.
    fn materialize(
        &self,
        store: &Skills,
        profile_id: &str,
        target_path: Option<String>,
        home: &str,
        cwd: &str,
        state: &ScaffoldState,
        scaffold: bool,
    ) -> (r: Result<(InstallResult, InstallPlan), RhinolabsError>)
        requires
            self.wf(),
            store.wf(),
        ensures
            r is Ok <==> self.has_profile(profile_id@),
            r matches Err(e) ==> e.kind == ErrorKind::NotFound,
            r matches Ok(v) ==> install_outcome(
                *self,
                *store,
                profile_id@,
                opt_view(target_path),
                home@,
                cwd@,
                v.0,
                v.1,
            ),
            r matches Ok(v) ==> ({
                let p = self.profile_of(profile_id@);
                if scaffold && p.skills@.len() > 0 && p.profile_type == ProfileType::Project {
                    v.1.create_plugin_manifest == !state.has_plugin_manifest
                        && v.1.create_skills_dir == !state.has_skills_dir
                        && v.1.create_instructions == !state.has_instructions
                } else {
                    !v.1.create_plugin_manifest && !v.1.create_skills_dir
                        && !v.1.create_instructions
                }
            }),
    {
        let pi = match self.find_profile(profile_id) {
            None => {
                return Err(
                    RhinolabsError::new(
                        ErrorKind::NotFound,
                        crate::text::concat2("Profile not found: ", profile_id),
                    ),
                );
            },
            Some(i) => i,
        };
        proof {
            self.lemma_profile_idx(pi as int, profile_id@);
        }
        let ghost p = self.profile_of(profile_id@);
        let is_user = match self.profiles[pi].profile_type {
            ProfileType::User => true,
            ProfileType::Project => false,
        };
        let path_ignored = is_user && target_path.is_some();
        let tgt: String = if is_user {
            Paths::plugin_dir(home)
        } else {
            match target_path {
                Some(t) => t,
                None => cwd.to_owned(),
            }
        };
        let nskills = self.profiles[pi].skills.len();
        let ghost ids = self.profiles@[pi as int].skills.deep_view();
        proof {
            reveal(Seq::filter);
        }
        if nskills == 0 {
            let res = InstallResult {
                target_path: tgt,
                skills_installed: Vec::new(),
                skills_failed: Vec::new(),
            };
            let plan = InstallPlan {
                path_ignored,
                empty_profile: true,
                create_plugin_manifest: false,
                create_skills_dir: false,
                create_instructions: false,
                writes: Vec::new(),
            };
            proof {
                assert(ids.len() == 0);
                assert(res.skills_installed.deep_view() =~= ids.filter(loadable_pred(*store)));
                assert(err_ids(res.skills_failed@) =~= ids.filter(unloadable_pred(*store)));
            }
            return Ok((res, plan));
        }
        let do_scaffold = scaffold && !is_user;
        let create_plugin_manifest = do_scaffold && !state.has_plugin_manifest;
        let create_skills_dir = do_scaffold && !state.has_skills_dir;
        let create_instructions = do_scaffold && !state.has_instructions;
        let mut installed: Vec<String> = Vec::new();
        let mut failed: Vec<SkillInstallError> = Vec::new();
        let mut writes: Vec<SkillWrite> = Vec::new();
        let mut i: usize = 0;
        proof {
            assert(ids.take(0) =~= Seq::<Seq<char>>::empty());
            assert(installed.deep_view() =~= Seq::<Seq<char>>::empty());
            assert(err_ids(failed@) =~= Seq::<Seq<char>>::empty());
        }
        while i < nskills
            invariant
                self.wf(),
                store.wf(),
                0 <= i <= nskills,
                pi < self.profiles@.len(),
                nskills == self.profiles@[pi as int].skills@.len(),
                ids == self.profiles@[pi as int].skills.deep_view(),
                ids.len() == nskills,
                installed.deep_view() == ids.take(i as int).filter(loadable_pred(*store)),
                err_ids(failed@) == ids.take(i as int).filter(unloadable_pred(*store)),
                installed@.len() + failed@.len() == i,
                writes@.len() == installed@.len(),
                forall|k: int|
                    0 <= k < writes@.len() ==> write_ok(*store, #[trigger] writes@[k])
                        && writes@[k].skill_id@ == installed.deep_view()[k],
            decreases nskills - i,
        {
            let ghost idv = ids[i as int];
            proof {
                assert(self.profiles@[pi as int].skills.deep_view()[i as int]
                    == self.profiles@[pi as int].skills@[i as int]@);
                crate::seqtools::lemma_filter_push(
                    ids.take(i as int),
                    idv,
                    loadable_pred(*store),
                );
                crate::seqtools::lemma_filter_push(
                    ids.take(i as int),
                    idv,
                    unloadable_pred(*store),
                );
                assert(ids.take(i + 1) =~= ids.take(i as int).push(idv));
            }
            let ghost pre_installed = installed.deep_view();
            let ghost pre_failed = failed@;
            match store.get(self.profiles[pi].skills[i].as_str()) {
                Ok(Some(sk)) => {
                    proof {
                        assert(store.loadable(idv));
                    }
                    let doc = docfmt::generate_doc(
                        sk.name.as_str(),
                        sk.description.as_str(),
                        sk.content.as_str(),
                    );
                    writes.push(
                        SkillWrite { skill_id: self.profiles[pi].skills[i].clone(), document: doc },
                    );
                    installed.push(self.profiles[pi].skills[i].clone());
                    proof {
                        assert(installed.deep_view() =~= pre_installed.push(idv));
                    }
                },
                Ok(None) => {
                    proof {
                        assert(!store.loadable(idv));
                    }
                    failed.push(
                        SkillInstallError {
                            skill_id: self.profiles[pi].skills[i].clone(),
                            error: crate::text::concat2("Skill not found: ", self.profiles[pi].skills[i].as_str()),
                        },
                    );
                    proof {
                        assert(err_ids(failed@) =~= err_ids(pre_failed).push(idv));
                    }
                },
                Err(e) => {
                    proof {
                        assert(!store.loadable(idv));
                    }
                    failed.push(
                        SkillInstallError {
                            skill_id: self.profiles[pi].skills[i].clone(),
                            error: e.message,
                        },
                    );
                    proof {
                        assert(err_ids(failed@) =~= err_ids(pre_failed).push(idv));
                    }
                },
            }
            i = i + 1;
        }
        proof {
            assert(ids.take(nskills as int) =~= ids);
        }
        let res = InstallResult { target_path: tgt, skills_installed: installed, skills_failed: failed };
        let plan = InstallPlan {
            path_ignored,
            empty_profile: false,
            create_plugin_manifest,
            create_skills_dir,
            create_instructions,
            writes,
        };
        Ok((res, plan))
    }

    /// Plan the removal of generated artifacts at a path. An absent path
    /// is a hard error; a path with no artifacts is a no-op that leaves
    /// everything untouched; otherwise exactly the generated artifacts —
    /// the skills directory, the plugin-descriptor directory, and the
    /// instructions file — are removed, and nothing else.
    pub fn uninstall(exists: bool, has_skills_dir: bool, has_plugin_dir: bool) -> (r: Result<
        UninstallPlan,
        RhinolabsError,
    >)
        ensures
            !exists ==> (r matches Err(e) && e.kind == ErrorKind::NotFound),
            exists && !has_skills_dir && !has_plugin_dir ==> r == Ok::<_, RhinolabsError>(
                UninstallPlan {
                    nothing_to_do: true,
                    remove_skills_dir: false,
                    remove_plugin_dir: false,
                    remove_instructions: false,
                },
            ),
            exists && (has_skills_dir || has_plugin_dir) ==> r == Ok::<_, RhinolabsError>(
                UninstallPlan {
                    nothing_to_do: false,
                    remove_skills_dir: has_skills_dir,
                    remove_plugin_dir: has_plugin_dir,
                    remove_instructions: true,
                },
            ),
    {
        if !exists {
            return Err(
                RhinolabsError::new(
                    ErrorKind::NotFound,
                    String::from_str("Target path does not exist"),
                ),
            );
        }
        if !has_skills_dir && !has_plugin_dir {
            return Ok(
                UninstallPlan {
                    nothing_to_do: true,
                    remove_skills_dir: false,
                    remove_plugin_dir: false,
                    remove_instructions: false,
                },
            );
        }
        Ok(
            UninstallPlan {
                nothing_to_do: false,
                remove_skills_dir: has_skills_dir,
                remove_plugin_dir: has_plugin_dir,
                remove_instructions: true,
            },
        )
    }

    /// The user-typed profile marked default, when the mark is valid.
    pub fn get_default_user_profile(&self) -> (r: Option<Profile>)
        requires
            self.wf(),
        ensures
            r is Some <==> self.default_ok(),
            r matches Some(p) ==> (self.default_user_id matches Some(d) && profile_like(
                p,
                self.profile_of(d@),
            ) && p.profile_type == ProfileType::User),
    {
        match &self.default_user_id {
            None => None,
            Some(d) => {
                match self.find_profile(d.as_str()) {
                    None => None,
                    Some(i) => {
                        proof {
                            self.lemma_profile_idx(i as int, d@);
                        }
                        match self.profiles[i].profile_type {
                            ProfileType::User => Some(dup_profile(&self.profiles[i])),
                            ProfileType::Project => None,
                        }
                    },
                }
            },
        }
    }
}

} // verus!
