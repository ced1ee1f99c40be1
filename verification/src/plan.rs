//! The ordered plans of filesystem actions behind each bootstrap phase.
//!
//! Each phase of the bootstrap is a fixed sequence of actions on the
//! filesystem; the functions here compute those sequences from the
//! resolved layout, and `apply_plan` gives them their meaning on a model
//! tree. An unverified driver carries the same actions out against the
//! real filesystem, aborting at the first failing action.

use vstd::prelude::*;

use crate::context::EnvironmentContext;
use crate::fs_model::{
    clean_of_suffix, create_dir, delete_suffix, lemma_create_dir_properties,
    lemma_delete_suffix_cleans, lemma_delete_suffix_subset, lemma_force_remove_absent,
    lemma_remove_at_or_under_subset, lemma_subset_clean_of_suffix, lemma_subset_none_at_or_under,
    none_at_or_under, remove_at_or_under, sync_into, view_has_at, FsTree, TreeView,
};
use crate::path::{path_join, spec_join};

verus! {

/// One step of a bootstrap phase, acting on the filesystem.
pub enum Action {
    /// Recursively remove the path if it exists; an absent path is not
    /// an error.
    ForceRemove {
        /// The path to remove.
        path: String,
    },
    /// Create the directory and any missing parents; an existing
    /// directory is not an error.
    CreateDirAll {
        /// The path to create.
        path: String,
    },
    /// One-way additive mirror of `source` into the directory
    /// `destination`.
    Sync {
        /// The tree to copy.
        source: String,
        /// The directory that receives it.
        destination: String,
    },
    /// Delete every file under `root` whose name ends with `suffix`.
    DeleteSuffix {
        /// The tree to search.
        root: String,
        /// The file-name suffix to match.
        suffix: String,
    },
    /// Strip debug symbols from the files directly inside `directory`.
    StripLibraries {
        /// The directory whose files are stripped.
        directory: String,
    },
    /// Strip unneeded symbols from the files directly inside
    /// `directory`, the mode safe for executables.
    StripBinaries {
        /// The directory whose files are stripped.
        directory: String,
    },
}

/// `a` forcibly removes `p`.
pub open spec fn is_force_remove(a: Action, p: Seq<char>) -> bool {
    a matches Action::ForceRemove { path } && path@ == p
}

/// `a` creates the directory `p`.
pub open spec fn is_create_dir_all(a: Action, p: Seq<char>) -> bool {
    a matches Action::CreateDirAll { path } && path@ == p
}

/// `a` mirrors `s` into `d`.
pub open spec fn is_sync(a: Action, s: Seq<char>, d: Seq<char>) -> bool {
    a matches Action::Sync { source, destination } && source@ == s && destination@ == d
}

/// `a` deletes the files with suffix `x` under `r`.
pub open spec fn is_delete_suffix(a: Action, r: Seq<char>, x: Seq<char>) -> bool {
    a matches Action::DeleteSuffix { root, suffix } && root@ == r && suffix@ == x
}

/// `a` strips debug symbols inside `d`.
pub open spec fn is_strip_libraries(a: Action, d: Seq<char>) -> bool {
    a matches Action::StripLibraries { directory } && directory@ == d
}

/// `a` strips unneeded symbols inside `d`.
pub open spec fn is_strip_binaries(a: Action, d: Seq<char>) -> bool {
    a matches Action::StripBinaries { directory } && directory@ == d
}

/// The effect of one action on a model tree. Stripping rewrites file
/// bytes in place and neither adds nor removes an entry, so it leaves
/// the model unchanged.
pub open spec fn apply_action_view(t: TreeView, a: Action) -> TreeView {
    match a {
        Action::ForceRemove { path } => remove_at_or_under(t, path@),
        Action::CreateDirAll { path } => create_dir(t, path@),
        Action::Sync { source, destination } => sync_into(t, source@, destination@),
        Action::DeleteSuffix { root, suffix } => delete_suffix(t, root@, suffix@),
        Action::StripLibraries { .. } => t,
        Action::StripBinaries { .. } => t,
    }
}

/// The effect of a plan, first action first.
pub open spec fn apply_plan_view(t: TreeView, plan: Seq<Action>) -> TreeView
    decreases plan.len(),
{
    if plan.len() == 0 {
        t
    } else {
        apply_plan_view(apply_action_view(t, plan.first()), plan.drop_first())
    }
}

/// Carries one action out on a model tree.
pub fn apply_action(tree: &mut FsTree, action: &Action)
    ensures
        final(tree)@ == apply_action_view(old(tree)@, *action),
{
    match action {
        Action::ForceRemove { path } => tree.force_remove(path),
        Action::CreateDirAll { path } => tree.create_dir_all(path),
        Action::Sync { source, destination } => tree.sync(source, destination),
        Action::DeleteSuffix { root, suffix } => tree.delete_files_with_suffix(root, suffix),
        Action::StripLibraries { .. } => {},
        Action::StripBinaries { .. } => {},
    }
}

/// Carries a whole plan out on a model tree, first action first.
pub fn apply_plan(tree: &mut FsTree, plan: &Vec<Action>)
    ensures
        final(tree)@ == apply_plan_view(old(tree)@, plan@),
{
    let mut i: usize = 0;
    proof {
        assert(plan@.skip(0) =~= plan@);
    }
    while i < plan.len()
        invariant
            i <= plan.len(),
            apply_plan_view(old(tree)@, plan@) == apply_plan_view(tree@, plan@.skip(i as int)),
        decreases plan.len() - i,
    {
        proof {
            assert(plan@.skip(i as int).first() == plan@[i as int]);
            assert(plan@.skip(i as int).drop_first() =~= plan@.skip(i as int + 1));
        }
        apply_action(tree, &plan[i]);
        i = i + 1;
    }
    proof {
        assert(plan@.skip(plan@.len() as int) =~= Seq::<Action>::empty());
    }
}

/// The directory-preparation plan: ensure the five working roots exist,
/// in order. The sources root is deliberately never pre-cleaned, so the
/// plan holds creations only.
pub fn radula_behave_bootstrap_toolchain_prepare(ctx: &EnvironmentContext) -> (plan: Vec<Action>)
    ensures
        plan@.len() == 5,
        is_create_dir_all(plan@[0], ctx.cross@),
        is_create_dir_all(plan@[1], ctx.toolchain@),
        is_create_dir_all(plan@[2], ctx.toolchain_temporary@),
        is_create_dir_all(plan@[3], ctx.toolchain_temporary_builds@),
        is_create_dir_all(plan@[4], ctx.toolchain_temporary_sources@),
        all_create_actions(plan@),
{
    let mut plan: Vec<Action> = Vec::new();
    plan.push(Action::CreateDirAll { path: ctx.cross.clone() });
    plan.push(Action::CreateDirAll { path: ctx.toolchain.clone() });
    plan.push(Action::CreateDirAll { path: ctx.toolchain_temporary.clone() });
    plan.push(Action::CreateDirAll { path: ctx.toolchain_temporary_builds.clone() });
    plan.push(Action::CreateDirAll { path: ctx.toolchain_temporary_sources.clone() });
    plan
}

/// The backup plan: mirror the cross root, the toolchain root and the
/// toolchain log into the backups root, in that order. The driver
/// aborts at the first failing mirror.
pub fn radula_behave_bootstrap_toolchain_backup(ctx: &EnvironmentContext) -> (plan: Vec<Action>)
    ensures
        plan@.len() == 3,
        is_sync(plan@[0], ctx.cross@, ctx.backups@),
        is_sync(plan@[1], ctx.toolchain@, ctx.backups@),
        is_sync(plan@[2], ctx.toolchain_log_file@, ctx.backups@),
{
    let mut plan: Vec<Action> = Vec::new();
    plan.push(Action::Sync { source: ctx.cross.clone(), destination: ctx.backups.clone() });
    plan.push(Action::Sync { source: ctx.toolchain.clone(), destination: ctx.backups.clone() });
    plan.push(
        Action::Sync { source: ctx.toolchain_log_file.clone(), destination: ctx.backups.clone() },
    );
    plan
}

/// The release staging root: `tmp/toolchain` under the sysroot base of
/// the package configuration.
pub open spec fn spec_release_root(sysroot: Seq<char>) -> Seq<char> {
    spec_join(spec_join(sysroot, "tmp"@), "toolchain"@)
}

/// The release-finalization plan, in its strict order: recreate the
/// staging root empty, merge the cross and toolchain backups into it,
/// drop the three `lib64` directories of a pure 64-bit layout, delete
/// the libtool `.la` metadata files, strip libraries then binaries, and
/// drop the generated documentation.
pub fn radula_behave_bootstrap_toolchain_release(ctx: &EnvironmentContext) -> (plan: Vec<Action>)
    ensures
        plan@.len() == 14,
        is_force_remove(plan@[0], spec_release_root(ctx.pkg_config_sysroot@)),
        is_create_dir_all(plan@[1], spec_release_root(ctx.pkg_config_sysroot@)),
        is_sync(plan@[2], spec_join(ctx.backups@, "cross"@), spec_release_root(ctx.pkg_config_sysroot@)),
        is_sync(plan@[3], spec_join(ctx.backups@, "toolchain"@), spec_release_root(ctx.pkg_config_sysroot@)),
        is_force_remove(plan@[4], spec_join(spec_join(spec_release_root(ctx.pkg_config_sysroot@), "cross"@), "lib64"@)),
        is_force_remove(plan@[5], spec_join(spec_join(spec_join(spec_release_root(ctx.pkg_config_sysroot@), "cross"@), "usr"@), "lib64"@)),
        is_force_remove(plan@[6], spec_join(spec_join(spec_release_root(ctx.pkg_config_sysroot@), "toolchain"@), "lib64"@)),
        is_delete_suffix(plan@[7], spec_release_root(ctx.pkg_config_sysroot@), ".la"@),
        is_strip_libraries(plan@[8], spec_join(spec_join(spec_join(spec_release_root(ctx.pkg_config_sysroot@), "cross"@), "usr"@), "lib"@)),
        is_strip_libraries(plan@[9], spec_join(spec_join(spec_release_root(ctx.pkg_config_sysroot@), "toolchain"@), "lib"@)),
        is_strip_binaries(plan@[10], spec_join(spec_join(spec_join(spec_release_root(ctx.pkg_config_sysroot@), "cross"@), "usr"@), "bin"@)),
        is_strip_binaries(plan@[11], spec_join(spec_join(spec_release_root(ctx.pkg_config_sysroot@), "toolchain"@), "bin"@)),
        is_force_remove(plan@[12], spec_join(spec_join(spec_join(spec_release_root(ctx.pkg_config_sysroot@), "toolchain"@), "share"@), "info"@)),
        is_force_remove(plan@[13], spec_join(spec_join(spec_join(spec_release_root(ctx.pkg_config_sysroot@), "toolchain"@), "share"@), "man"@)),
{
    let release_root = path_join(
        path_join(ctx.pkg_config_sysroot.as_str(), "tmp").as_str(),
        "toolchain",
    );
    let release_cross = path_join(release_root.as_str(), "cross");
    let release_cross_usr = path_join(release_cross.as_str(), "usr");
    let release_toolchain = path_join(release_root.as_str(), "toolchain");
    let release_share = path_join(release_toolchain.as_str(), "share");
    let mut plan: Vec<Action> = Vec::new();
    plan.push(Action::ForceRemove { path: release_root.clone() });
    plan.push(Action::CreateDirAll { path: release_root.clone() });
    plan.push(
        Action::Sync {
            source: path_join(ctx.backups.as_str(), "cross"),
            destination: release_root.clone(),
        },
    );
    plan.push(
        Action::Sync {
            source: path_join(ctx.backups.as_str(), "toolchain"),
            destination: release_root.clone(),
        },
    );
    plan.push(Action::ForceRemove { path: path_join(release_cross.as_str(), "lib64") });
    plan.push(Action::ForceRemove { path: path_join(release_cross_usr.as_str(), "lib64") });
    plan.push(Action::ForceRemove { path: path_join(release_toolchain.as_str(), "lib64") });
    let mut la_suffix = String::new();
    la_suffix.append(".");
    la_suffix.append("la");
    proof {
        reveal_strlit(".");
        reveal_strlit("la");
        reveal_strlit(".la");
        assert(la_suffix@ =~= ".la"@);
    }
    plan.push(Action::DeleteSuffix { root: release_root.clone(), suffix: la_suffix });
    plan.push(Action::StripLibraries { directory: path_join(release_cross_usr.as_str(), "lib") });
    plan.push(Action::StripLibraries { directory: path_join(release_toolchain.as_str(), "lib") });
    plan.push(Action::StripBinaries { directory: path_join(release_cross_usr.as_str(), "bin") });
    plan.push(Action::StripBinaries { directory: path_join(release_toolchain.as_str(), "bin") });
    plan.push(Action::ForceRemove { path: path_join(release_share.as_str(), "info") });
    plan.push(Action::ForceRemove { path: path_join(release_share.as_str(), "man") });
    plan
}

/// All actions of the plan are directory creations.
pub open spec fn all_create_actions(plan: Seq<Action>) -> bool {
    forall|i: int| 0 <= i < plan.len() ==> (#[trigger] plan[i]) matches Action::CreateDirAll { .. }
}

/// Every directory the plan creates stands in `t`.
pub open spec fn plan_dirs_present(t: TreeView, plan: Seq<Action>) -> bool {
    forall|i: int|
        0 <= i < plan.len() ==> match #[trigger] plan[i] {
            Action::CreateDirAll { path } => view_has_at(t, path@),
            _ => true,
        }
}

/// A plan of directory creations never loses a path.
proof fn lemma_creates_keep_path(t: TreeView, plan: Seq<Action>, q: Seq<char>)
    requires
        all_create_actions(plan),
        view_has_at(t, q),
    ensures
        view_has_at(apply_plan_view(t, plan), q),
    decreases plan.len(),
{
    if plan.len() > 0 {
        let rest = plan.drop_first();
        assert forall|j: int|
            0 <= j < rest.len() implies (#[trigger] rest[j]) matches Action::CreateDirAll {
            ..
        } by {
            assert(rest[j] == plan[j + 1]);
        }
        match plan.first() {
            Action::CreateDirAll { path } => {
                lemma_create_dir_properties(t, path@, q);
                lemma_creates_keep_path(create_dir(t, path@), rest, q);
            },
            _ => {
                assert(plan[0] matches Action::CreateDirAll { .. });
            },
        }
    }
}

/// After a plan of directory creations runs, every directory it names
/// stands in the tree.
proof fn lemma_creates_establish_dirs(t: TreeView, plan: Seq<Action>)
    requires
        all_create_actions(plan),
    ensures
        plan_dirs_present(apply_plan_view(t, plan), plan),
    decreases plan.len(),
{
    if plan.len() > 0 {
        let rest = plan.drop_first();
        assert forall|j: int|
            0 <= j < rest.len() implies (#[trigger] rest[j]) matches Action::CreateDirAll {
            ..
        } by {
            assert(rest[j] == plan[j + 1]);
        }
        let t1 = apply_action_view(t, plan.first());
        lemma_creates_establish_dirs(t1, rest);
        match plan.first() {
            Action::CreateDirAll { path } => {
                lemma_create_dir_properties(t, path@, path@);
                lemma_creates_keep_path(t1, rest, path@);
            },
            _ => {
                assert(plan[0] matches Action::CreateDirAll { .. });
            },
        }
        assert forall|i: int|
            0 <= i < plan.len() implies match #[trigger] plan[i] {
            Action::CreateDirAll { path } => view_has_at(apply_plan_view(t, plan), path@),
            _ => true,
        } by {
            if i > 0 {
                assert(plan[i] == rest[i - 1]);
            }
        }
    }
}

/// A plan of directory creations whose directories all stand already
/// changes nothing.
proof fn lemma_creates_noop_when_present(t: TreeView, plan: Seq<Action>)
    requires
        all_create_actions(plan),
        plan_dirs_present(t, plan),
    ensures
        apply_plan_view(t, plan) == t,
    decreases plan.len(),
{
    if plan.len() > 0 {
        let rest = plan.drop_first();
        assert forall|j: int|
            0 <= j < rest.len() implies (#[trigger] rest[j]) matches Action::CreateDirAll {
            ..
        } by {
            assert(rest[j] == plan[j + 1]);
        }
        assert forall|j: int|
            0 <= j < rest.len() implies match #[trigger] rest[j] {
            Action::CreateDirAll { path } => view_has_at(t, path@),
            _ => true,
        } by {
            assert(rest[j] == plan[j + 1]);
        }
        match plan.first() {
            Action::CreateDirAll { path } => {
                assert(plan[0] matches Action::CreateDirAll { .. });
                lemma_create_dir_properties(t, path@, path@);
                lemma_creates_noop_when_present(t, rest);
            },
            _ => {
                assert(plan[0] matches Action::CreateDirAll { .. });
            },
        }
    }
}

/// Directory preparation is idempotent: running a preparation plan a
/// second time on the tree the first run left produces that same tree.
pub proof fn lemma_prepare_idempotent(t: TreeView, plan: Seq<Action>)
    requires
        all_create_actions(plan),
    ensures
        apply_plan_view(apply_plan_view(t, plan), plan) == apply_plan_view(t, plan),
{
    lemma_creates_establish_dirs(t, plan);
    lemma_creates_noop_when_present(apply_plan_view(t, plan), plan);
}

/// Appending one action to a plan applies it last.
proof fn lemma_apply_plan_snoc(t: TreeView, s: Seq<Action>, a: Action)
    ensures
        apply_plan_view(t, s.push(a)) == apply_action_view(apply_plan_view(t, s), a),
    decreases s.len(),
{
    if s.len() == 0 {
        assert(s.push(a).first() == a);
        assert(s.push(a).drop_first() =~= s);
        assert(apply_plan_view(t, s) == t);
        assert(apply_plan_view(apply_action_view(t, a), s) == apply_action_view(t, a));
    } else {
        assert(s.push(a).first() == s.first());
        assert(s.push(a).drop_first() =~= s.drop_first().push(a));
        lemma_apply_plan_snoc(apply_action_view(t, s.first()), s.drop_first(), a);
    }
}

/// Release finalization prunes as its policy demands. On any starting
/// tree, after the whole plan has run no entry stands at or under any of
/// the three `lib64` locations, no file under the release root keeps the
/// libtool suffix, and the two stripping steps change the tree's entries
/// not at all: the tree after the four strip actions is the tree before
/// them, so a file present before stripping is present afterwards.
pub proof fn lemma_release_plan_prunes(
    t: TreeView,
    plan: Seq<Action>,
    sysroot: Seq<char>,
    backups: Seq<char>,
)
    requires
        plan.len() == 14,
        is_force_remove(plan[0], spec_release_root(sysroot)),
        is_create_dir_all(plan[1], spec_release_root(sysroot)),
        is_sync(plan[2], spec_join(backups, "cross"@), spec_release_root(sysroot)),
        is_sync(plan[3], spec_join(backups, "toolchain"@), spec_release_root(sysroot)),
        is_force_remove(plan[4], spec_join(spec_join(spec_release_root(sysroot), "cross"@), "lib64"@)),
        is_force_remove(plan[5], spec_join(spec_join(spec_join(spec_release_root(sysroot), "cross"@), "usr"@), "lib64"@)),
        is_force_remove(plan[6], spec_join(spec_join(spec_release_root(sysroot), "toolchain"@), "lib64"@)),
        is_delete_suffix(plan[7], spec_release_root(sysroot), ".la"@),
        is_strip_libraries(plan[8], spec_join(spec_join(spec_join(spec_release_root(sysroot), "cross"@), "usr"@), "lib"@)),
        is_strip_libraries(plan[9], spec_join(spec_join(spec_release_root(sysroot), "toolchain"@), "lib"@)),
        is_strip_binaries(plan[10], spec_join(spec_join(spec_join(spec_release_root(sysroot), "cross"@), "usr"@), "bin"@)),
        is_strip_binaries(plan[11], spec_join(spec_join(spec_release_root(sysroot), "toolchain"@), "bin"@)),
        is_force_remove(plan[12], spec_join(spec_join(spec_join(spec_release_root(sysroot), "toolchain"@), "share"@), "info"@)),
        is_force_remove(plan[13], spec_join(spec_join(spec_join(spec_release_root(sysroot), "toolchain"@), "share"@), "man"@)),
    ensures
        none_at_or_under(
            apply_plan_view(t, plan),
            spec_join(spec_join(spec_release_root(sysroot), "cross"@), "lib64"@),
        ),
        none_at_or_under(
            apply_plan_view(t, plan),
            spec_join(spec_join(spec_join(spec_release_root(sysroot), "cross"@), "usr"@), "lib64"@),
        ),
        none_at_or_under(
            apply_plan_view(t, plan),
            spec_join(spec_join(spec_release_root(sysroot), "toolchain"@), "lib64"@),
        ),
        clean_of_suffix(apply_plan_view(t, plan), spec_release_root(sysroot), ".la"@),
        apply_plan_view(t, plan.take(12)) == apply_plan_view(t, plan.take(8)),
{
    assert forall|k: int| 0 <= k < 14 implies apply_plan_view(t, plan.take(k + 1))
        == apply_action_view(apply_plan_view(t, plan.take(k)), plan[k]) by {
        assert(plan.take(k + 1) =~= plan.take(k).push(plan[k]));
        lemma_apply_plan_snoc(t, plan.take(k), plan[k]);
    }
    let rr = spec_release_root(sysroot);
    let lib64_a = spec_join(spec_join(rr, "cross"@), "lib64"@);
    let lib64_b = spec_join(spec_join(spec_join(rr, "cross"@), "usr"@), "lib64"@);
    let lib64_c = spec_join(spec_join(rr, "toolchain"@), "lib64"@);
    let s4 = apply_plan_view(t, plan.take(4));
    let s5 = apply_plan_view(t, plan.take(5));
    let s6 = apply_plan_view(t, plan.take(6));
    let s7 = apply_plan_view(t, plan.take(7));
    let s8 = apply_plan_view(t, plan.take(8));
    let s13 = apply_plan_view(t, plan.take(13));
    let s14 = apply_plan_view(t, plan.take(14));
    assert(plan.take(14) =~= plan);

    // the three lib64 removals establish absence in turn
    assert(s5 == remove_at_or_under(s4, lib64_a));
    lemma_force_remove_absent(s4, lib64_a);
    assert(s6 == remove_at_or_under(s5, lib64_b));
    lemma_force_remove_absent(s5, lib64_b);
    lemma_remove_at_or_under_subset(s5, lib64_b);
    lemma_subset_none_at_or_under(s6, s5, lib64_a);
    assert(s7 == remove_at_or_under(s6, lib64_c));
    lemma_force_remove_absent(s6, lib64_c);
    lemma_remove_at_or_under_subset(s6, lib64_c);
    lemma_subset_none_at_or_under(s7, s6, lib64_a);
    lemma_subset_none_at_or_under(s7, s6, lib64_b);

    // the libtool deletion cleans and removes only
    assert(s8 == delete_suffix(s7, rr, ".la"@));
    lemma_delete_suffix_cleans(s7, rr, ".la"@);
    lemma_delete_suffix_subset(s7, rr, ".la"@);
    lemma_subset_none_at_or_under(s8, s7, lib64_a);
    lemma_subset_none_at_or_under(s8, s7, lib64_b);
    lemma_subset_none_at_or_under(s8, s7, lib64_c);

    // the four strip actions leave the entries untouched
    assert(apply_plan_view(t, plan.take(9)) == s8);
    assert(apply_plan_view(t, plan.take(10)) == s8);
    assert(apply_plan_view(t, plan.take(11)) == s8);
    assert(apply_plan_view(t, plan.take(12)) == s8);

    // the documentation removals remove only
    assert(s13 == remove_at_or_under(s8, spec_join(spec_join(spec_join(rr, "toolchain"@), "share"@), "info"@)));
    lemma_remove_at_or_under_subset(s8, spec_join(spec_join(spec_join(rr, "toolchain"@), "share"@), "info"@));
    lemma_subset_none_at_or_under(s13, s8, lib64_a);
    lemma_subset_none_at_or_under(s13, s8, lib64_b);
    lemma_subset_none_at_or_under(s13, s8, lib64_c);
    lemma_subset_clean_of_suffix(s13, s8, rr, ".la"@);
    assert(s14 == remove_at_or_under(s13, spec_join(spec_join(spec_join(rr, "toolchain"@), "share"@), "man"@)));
    lemma_remove_at_or_under_subset(s13, spec_join(spec_join(spec_join(rr, "toolchain"@), "share"@), "man"@));
    lemma_subset_none_at_or_under(s14, s13, lib64_a);
    lemma_subset_none_at_or_under(s14, s13, lib64_b);
    lemma_subset_none_at_or_under(s14, s13, lib64_c);
    lemma_subset_clean_of_suffix(s14, s13, rr, ".la"@);
}

} // verus!
