//! The activation engine: per-directory transitions between "nothing
//! active" and "one environment active".
//!
//! Each directory is in one of two states: inactive (no records) or
//! active (records for exactly one previously selected environment).
//! The engine computes, over the persisted state and a filesystem
//! snapshot, what must happen to switch: which variables to unset, which
//! symlinks to remove, which records to delete, which new records to
//! write and which symlinks to create.  It returns plans; performing
//! them is the caller's job.

use vstd::prelude::*;

use crate::config::Environments;
use crate::errors::LinkError;
use crate::errors::SelectionError;
use crate::errors::SelectionErrorView;
use crate::links::plan_add_links;
use crate::links::plan_remove_links;
use crate::links::spec_clear_paths;
use crate::links::spec_plan_creates;
use crate::links::spec_plan_removals;
use crate::links::FsEntry;
use crate::links::FsSnapshot;
use crate::links::LinkCreate;
use crate::smap::StrMap;
use crate::state::ActiveState;

verus! {

/// One directory's activation result: the variables no longer active
/// and the variables newly active.
#[derive(Debug)]
pub struct NewAndOldEnv {
    /// The directory the declaration source lives in.
    pub activate_toml_file_directory: String,
    /// The variables that were active before, to be unset.
    pub old_env: StrMap,
    /// The variables active now, to be exported.
    pub new_env: StrMap,
}

impl NewAndOldEnv {
    pub open spec fn wf(self) -> bool {
        self.old_env.wf() && self.new_env.wf()
    }
}

/// The plan that reverses a directory's recorded activation.
pub struct DeactivatePlan {
    /// What the variables record held; `None` when no record existed.
    pub old_vars: Option<StrMap>,
    /// The symlinks to delete, in record order.
    pub removals: Vec<String>,
    /// The recorded target that stopped the walk, if one was met.
    pub failure: Option<LinkError>,
    /// Whether the variables record is to be deleted.
    pub delete_vars_record: bool,
    /// Whether the links record is to be deleted.
    pub delete_links_record: bool,
}

/// Everything `decativate_current` promises of its plan.
pub open spec fn deactivate_post(
    st: ActiveState,
    m: Map<Seq<char>, FsEntry>,
    dir: Seq<char>,
    p: DeactivatePlan,
) -> bool {
    &&& (match st.vars {
        Some(v) => p.old_vars matches Some(w) && w.kvs() == v.kvs() && w@ == v@,
        None => p.old_vars is None,
    })
    &&& p.delete_vars_record == (st.vars is Some)
    &&& (match st.links {
        Some(l) => {
            let plan = spec_plan_removals(l.kvs(), m, dir);
            &&& p.removals.deep_view() == plan.0
            &&& (match p.failure {
                Some(e) => plan.1 == Some(e@),
                None => plan.1 is None,
            })
            &&& p.delete_links_record == (plan.1 is None)
        },
        None => {
            &&& p.removals.deep_view() == Seq::<Seq<char>>::empty()
            &&& p.failure is None
            &&& !p.delete_links_record
        },
    })
}

/// Plans the deactivation of whatever is recorded for a directory:
/// returns the recorded variables for unsetting, the recorded symlinks
/// that may be deleted, and which records go away.
pub fn decativate_current(state: &ActiveState, fs: &FsSnapshot, dir: &str) -> (p: DeactivatePlan)
    requires
        state.wf(),
        fs.wf(),
    ensures
        deactivate_post(*state, fs@, dir@, p),
{
    let old_vars = match &state.vars {
        Some(v) => Some(v.clone_map()),
        None => None,
    };
    let delete_vars_record = match &state.vars {
        Some(_) => true,
        None => false,
    };
    match &state.links {
        Some(l) => {
            let rp = plan_remove_links(l, fs, dir);
            proof {
                assert(rp.plan_view().0 == spec_plan_removals(l.kvs(), fs@, dir@).0);
                assert(rp.plan_view().1 == spec_plan_removals(l.kvs(), fs@, dir@).1);
            }
            let delete_links_record = match &rp.failure {
                Some(_) => false,
                None => true,
            };
            DeactivatePlan {
                old_vars,
                removals: rp.removals,
                failure: rp.failure,
                delete_vars_record,
                delete_links_record,
            }
        },
        None => {
            let removals: Vec<String> = Vec::new();
            proof {
                assert(removals.deep_view() =~= Seq::<Seq<char>>::empty());
            }
            DeactivatePlan {
                old_vars,
                removals,
                failure: None,
                delete_vars_record,
                delete_links_record: false,
            }
        },
    }
}

/// The plan that applies a selected environment to a directory.
pub struct ActivationPlan {
    /// The content of the variables record to write; `None` when the
    /// environment declares no variables.
    pub vars_record: Option<StrMap>,
    /// The symlink creations to perform, in declaration order; each
    /// carries the record line persisting it.
    pub creates: Vec<LinkCreate>,
    /// The refusal that stopped link creation, after the listed
    /// creations.
    pub failure: Option<LinkError>,
}

/// Everything `activate_new` promises of its plan.
pub open spec fn activation_plan_post(
    vars: Option<StrMap>,
    links: Option<StrMap>,
    m: Map<Seq<char>, FsEntry>,
    dir: Seq<char>,
    p: ActivationPlan,
) -> bool {
    &&& (match vars {
        Some(v) => p.vars_record matches Some(w) && w.kvs() == v.kvs() && w@ == v@,
        None => p.vars_record is None,
    })
    &&& (match links {
        Some(l) => {
            let plan = spec_plan_creates(l.kvs(), m, dir);
            &&& Seq::new(p.creates@.len(), |i: int| p.creates@[i]@) == plan.0
            &&& (match p.failure {
                Some(e) => plan.1 == Some(e@),
                None => plan.1 is None,
            })
        },
        None => p.creates@.len() == 0 && p.failure is None,
    })
}

/// Plans the application of an environment's variables and links to a
/// directory, against the snapshot `fs`.
pub fn activate_new(
    vars: &Option<StrMap>,
    links: &Option<StrMap>,
    fs: &FsSnapshot,
    dir: &str,
) -> (p: ActivationPlan)
    requires
        fs.wf(),
    ensures
        activation_plan_post(*vars, *links, fs@, dir@, p),
{
    let vars_record = match vars {
        Some(v) => Some(v.clone_map()),
        None => None,
    };
    match links {
        Some(l) => {
            let ap = plan_add_links(l, fs, dir);
            ActivationPlan { vars_record, creates: ap.creates, failure: ap.failure }
        },
        None => ActivationPlan { vars_record, creates: Vec::new(), failure: None },
    }
}

/// The full outcome of one directory's transition.
pub struct ActivationOutcome {
    /// The old and new variables, for the caller-facing output.
    pub summary: NewAndOldEnv,
    /// What reverses the previous activation; performed first.
    pub deactivation: DeactivatePlan,
    /// What applies the selected environment; `None` when no environment
    /// was selected or deactivation stopped on a refusal.
    pub activation: Option<ActivationPlan>,
}

/// The selected name, as a character sequence.
pub open spec fn selected_view(selected: Option<&String>) -> Option<Seq<char>> {
    match selected {
        Some(n) => Some(n@),
        None => None,
    }
}

/// Everything `activate` promises of a returned outcome.
pub open spec fn activate_post(
    cfg: Environments,
    selected: Option<Seq<char>>,
    st: ActiveState,
    m: Map<Seq<char>, FsEntry>,
    dir: Seq<char>,
    o: ActivationOutcome,
) -> bool {
    &&& o.summary.activate_toml_file_directory@ == dir
    &&& deactivate_post(st, m, dir, o.deactivation)
    &&& o.summary.old_env.wf()
    &&& o.summary.old_env@ == (match o.deactivation.old_vars {
        Some(v) => v@,
        None => Map::<Seq<char>, Seq<char>>::empty(),
    })
    &&& (match selected {
        None => {
            &&& o.activation is None
            &&& o.summary.new_env.wf()
            &&& o.summary.new_env@ == Map::<Seq<char>, Seq<char>>::empty()
        },
        Some(name) => {
            let d = cfg.env_named(name);
            &&& cfg.has_env(name)
            &&& o.summary.new_env.wf()
            &&& o.summary.new_env@ == (match d.vars {
                Some(v) => v@,
                None => Map::<Seq<char>, Seq<char>>::empty(),
            })
            &&& (if o.deactivation.failure is Some {
                o.activation is None
            } else {
                o.activation matches Some(a) && activation_plan_post(
                    d.vars,
                    d.links,
                    spec_clear_paths(m, o.deactivation.removals.deep_view()),
                    dir,
                    a,
                )
            })
        },
    })
}

/// One directory's full transition: reverse whatever is recorded, then,
/// when a name was selected, apply that environment against the
/// filesystem as the reversal leaves it.  Selection is checked first: an
/// undeclared name changes nothing.
pub fn activate(
    config: &Environments,
    selected: Option<&String>,
    state: &ActiveState,
    fs: &FsSnapshot,
    dir: &String,
) -> (r: Result<ActivationOutcome, SelectionError>)
    requires
        config.wf(),
        state.wf(),
        fs.wf(),
    ensures
        r matches Ok(o) ==> activate_post(*config, selected_view(selected), *state, fs@, dir@, o),
        r matches Err(e) ==> {
            &&& selected matches Some(n)
            &&& (selected matches Some(n) ==> {
                ||| (!config.is_declared() && e@ == SelectionErrorView::NoEnvironmentsDeclared)
                ||| (config.is_declared() && !config.has_env(n@) && e@
                    == SelectionErrorView::UnknownEnvironment(n@))
            })
        },
        selected is None ==> r is Ok,
        (selected matches Some(n) && config.has_env(n@)) ==> r is Ok,
{
    match selected {
        None => {
            let deactivation = decativate_current(state, fs, dir.as_str());
            let old_env = match &deactivation.old_vars {
                Some(v) => v.clone_map(),
                None => StrMap::new(),
            };
            Ok(
                ActivationOutcome {
                    summary: NewAndOldEnv {
                        activate_toml_file_directory: dir.clone(),
                        old_env,
                        new_env: StrMap::new(),
                    },
                    deactivation,
                    activation: None,
                },
            )
        },
        Some(name) => {
            let data = match config.select(name) {
                Ok(d) => d,
                Err(e) => {
                    return Err(e);
                },
            };
            let deactivation = decativate_current(state, fs, dir.as_str());
            let old_env = match &deactivation.old_vars {
                Some(v) => v.clone_map(),
                None => StrMap::new(),
            };
            let new_env = match &data.vars {
                Some(v) => v.clone_map(),
                None => StrMap::new(),
            };
            let halted = match &deactivation.failure {
                Some(_) => true,
                None => false,
            };
            if halted {
                return Ok(
                    ActivationOutcome {
                        summary: NewAndOldEnv {
                            activate_toml_file_directory: dir.clone(),
                            old_env,
                            new_env,
                        },
                        deactivation,
                        activation: None,
                    },
                );
            }
            let mut fs_after = fs.clone_snapshot();
            fs_after.clear_paths(&deactivation.removals);
            let plan = activate_new(&data.vars, &data.links, &fs_after, dir.as_str());
            Ok(
                ActivationOutcome {
                    summary: NewAndOldEnv {
                        activate_toml_file_directory: dir.clone(),
                        old_env,
                        new_env,
                    },
                    deactivation,
                    activation: Some(plan),
                },
            )
        },
    }
}

/// Deactivating a directory with no recorded state is a no-op: nothing
/// to unset, nothing to delete, nothing that can fail.
pub proof fn lemma_deactivate_inactive_is_noop(
    st: ActiveState,
    m: Map<Seq<char>, FsEntry>,
    dir: Seq<char>,
    p: DeactivatePlan,
)
    requires
        st.is_inactive(),
        deactivate_post(st, m, dir, p),
    ensures
        p.old_vars is None,
        p.removals.deep_view() == Seq::<Seq<char>>::empty(),
        p.failure is None,
        !p.delete_vars_record,
        !p.delete_links_record,
{
}

/// At most one environment is ever recorded per directory: a transition
/// that passed deactivation replaces the records with exactly the
/// selected declaration's variables and links — whatever was active
/// before, and never a union of two environments.
pub proof fn lemma_at_most_one_active(
    cfg: Environments,
    name: Seq<char>,
    st: ActiveState,
    m: Map<Seq<char>, FsEntry>,
    dir: Seq<char>,
    o: ActivationOutcome,
)
    requires
        activate_post(cfg, Some(name), st, m, dir, o),
        o.deactivation.failure is None,
    ensures
        o.deactivation.delete_vars_record == (st.vars is Some),
        o.activation matches Some(a) && (match cfg.env_named(name).vars {
            Some(v) => a.vars_record matches Some(w) && w@ == v@,
            None => a.vars_record is None,
        }),
        (match o.activation {
            Some(a) => a.failure is None ==> (match cfg.env_named(name).links {
                Some(l) => {
                    &&& a.creates@.len() == l.kvs().len()
                    &&& forall|i: int|
                        0 <= i < l.kvs().len() ==> (#[trigger] a.creates@[i]@)
                            == crate::links::link_create_view(l.kvs()[i], dir)
                },
                None => a.creates@.len() == 0,
            }),
            None => true,
        }),
{
    let d = cfg.env_named(name);
    let a = o.activation->Some_0;
    if a.failure is None {
        match d.links {
            Some(l) => {
                let m2 = spec_clear_paths(m, o.deactivation.removals.deep_view());
                crate::links::lemma_plan_creates_complete(l.kvs(), m2, dir);
                assert(Seq::new(a.creates@.len(), |i: int| a.creates@[i]@) == spec_plan_creates(
                    l.kvs(),
                    m2,
                    dir,
                ).0);
                assert forall|i: int| 0 <= i < l.kvs().len() implies (#[trigger] a.creates@[i]@)
                    == crate::links::link_create_view(l.kvs()[i], dir) by {
                    assert(Seq::new(a.creates@.len(), |k: int| a.creates@[k]@)[i]
                        == a.creates@[i]@);
                }
            },
            None => {},
        }
    }
}

/// Round trip: activating an environment that declares variables and no
/// links on an inactive directory, then deactivating what that wrote,
/// returns exactly those variables as the old state and deletes the
/// record, leaving the directory inactive again.
pub proof fn lemma_round_trip(
    cfg: Environments,
    name: Seq<char>,
    st1: ActiveState,
    m1: Map<Seq<char>, FsEntry>,
    dir: Seq<char>,
    o: ActivationOutcome,
    st2: ActiveState,
    m2: Map<Seq<char>, FsEntry>,
    p2: DeactivatePlan,
)
    requires
        st1.is_inactive(),
        cfg.env_named(name).vars matches Some(v),
        cfg.env_named(name).links is None,
        activate_post(cfg, Some(name), st1, m1, dir, o),
        o.activation matches Some(a) && st2.vars == a.vars_record,
        st2.links is None,
        deactivate_post(st2, m2, dir, p2),
    ensures
        p2.old_vars matches Some(w) && w@ == cfg.env_named(name).vars->Some_0@,
        p2.removals.deep_view() == Seq::<Seq<char>>::empty(),
        p2.failure is None,
        p2.delete_vars_record,
        !p2.delete_links_record,
{
}

} // verus!
