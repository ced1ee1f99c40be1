//! The path/environment resolver.
//!
//! From a small set of externally supplied base roots it derives, once and
//! deterministically, the working layout of the bootstrap: the toolchain
//! temporary root with its `builds` and `src` subtrees, and the log file
//! inside the logs root.

use vstd::prelude::*;

use crate::path::{
    has_no_separator, is_strict_descendant, lemma_join_is_strict_descendant,
    lemma_strict_descendant_transitive, path_join, spec_join,
};

verus! {

/// The base directories supplied by configuration before the bootstrap
/// starts. Every path the pipeline touches is derived from these.
pub struct BaseRoots {
    /// Root of the cross sysroot the toolchain builds against.
    pub cross: String,
    /// Root of the toolchain tree being produced.
    pub toolchain: String,
    /// Root of the temporary workspace.
    pub temporary: String,
    /// Root that holds log files.
    pub logs: String,
    /// Root that holds already-fetched package sources.
    pub sources: String,
    /// Root that receives backup snapshots.
    pub backups: String,
    /// Sysroot base of the package configuration, under which the release
    /// staging tree is placed.
    pub pkg_config_sysroot: String,
}

/// The resolved directory layout: the base roots together with every
/// derived path, computed once and read-only afterwards.
pub struct EnvironmentContext {
    /// Root of the cross sysroot.
    pub cross: String,
    /// Root of the toolchain tree.
    pub toolchain: String,
    /// Root of the temporary workspace.
    pub temporary: String,
    /// Root that holds log files.
    pub logs: String,
    /// Root that holds package sources.
    pub sources: String,
    /// Root that receives backup snapshots.
    pub backups: String,
    /// Sysroot base of the package configuration.
    pub pkg_config_sysroot: String,
    /// Temporary root reserved for the toolchain bootstrap.
    pub toolchain_temporary: String,
    /// Subtree of the toolchain temporary root where packages are built.
    pub toolchain_temporary_builds: String,
    /// Subtree of the toolchain temporary root where sources are unpacked.
    pub toolchain_temporary_sources: String,
    /// The shared toolchain build log, directly inside the logs root.
    pub toolchain_log_file: String,
}

impl EnvironmentContext {
    /// The derived paths stand exactly where the layout demands them.
    pub open spec fn wf(self) -> bool {
        &&& self.toolchain_temporary@ == spec_join(self.temporary@, "toolchain"@)
        &&& self.toolchain_temporary_builds@ == spec_join(
            self.toolchain_temporary@,
            "builds"@,
        )
        &&& self.toolchain_temporary_sources@ == spec_join(self.toolchain_temporary@, "src"@)
        &&& self.toolchain_log_file@ == spec_join(self.logs@, "toolchain.log"@)
    }
}

/// Resolves the bootstrap layout from the base roots: pure path
/// arithmetic, no filesystem access.
pub fn radula_behave_bootstrap_toolchain_environment(bases: BaseRoots) -> (ctx: EnvironmentContext)
    ensures
        ctx.wf(),
        ctx.cross@ == bases.cross@,
        ctx.toolchain@ == bases.toolchain@,
        ctx.temporary@ == bases.temporary@,
        ctx.logs@ == bases.logs@,
        ctx.sources@ == bases.sources@,
        ctx.backups@ == bases.backups@,
        ctx.pkg_config_sysroot@ == bases.pkg_config_sysroot@,
{
    let toolchain_temporary = path_join(bases.temporary.as_str(), "toolchain");
    let toolchain_temporary_builds = path_join(toolchain_temporary.as_str(), "builds");
    let toolchain_temporary_sources = path_join(toolchain_temporary.as_str(), "src");
    let mut toolchain_log_file = path_join(bases.logs.as_str(), "toolchain");
    toolchain_log_file.append(".");
    toolchain_log_file.append("log");
    proof {
        reveal_strlit("toolchain");
        reveal_strlit(".");
        reveal_strlit("log");
        reveal_strlit("toolchain.log");
        assert(toolchain_log_file@ =~= spec_join(bases.logs@, "toolchain.log"@));
    }
    EnvironmentContext {
        cross: bases.cross,
        toolchain: bases.toolchain,
        temporary: bases.temporary,
        logs: bases.logs,
        sources: bases.sources,
        backups: bases.backups,
        pkg_config_sysroot: bases.pkg_config_sysroot,
        toolchain_temporary,
        toolchain_temporary_builds,
        toolchain_temporary_sources,
        toolchain_log_file,
    }
}

/// The resolved layout nests as the design demands: the builds subtree
/// lies below the toolchain temporary root, which lies below the
/// temporary root; and the log file sits directly inside the logs root
/// (past the logs root there is no further directory step).
pub proof fn lemma_environment_layout(ctx: EnvironmentContext)
    requires
        ctx.wf(),
    ensures
        is_strict_descendant(ctx.toolchain_temporary_builds@, ctx.toolchain_temporary@),
        is_strict_descendant(ctx.toolchain_temporary_sources@, ctx.toolchain_temporary@),
        is_strict_descendant(ctx.toolchain_temporary@, ctx.temporary@),
        is_strict_descendant(ctx.toolchain_temporary_builds@, ctx.temporary@),
        is_strict_descendant(ctx.toolchain_log_file@, ctx.logs@),
        has_no_separator(ctx.toolchain_log_file@.skip(ctx.logs@.len() as int + 1)),
{
    lemma_join_is_strict_descendant(ctx.toolchain_temporary@, "builds"@);
    lemma_join_is_strict_descendant(ctx.toolchain_temporary@, "src"@);
    lemma_join_is_strict_descendant(ctx.temporary@, "toolchain"@);
    lemma_join_is_strict_descendant(ctx.logs@, "toolchain.log"@);
    lemma_strict_descendant_transitive(
        ctx.toolchain_temporary_builds@,
        ctx.toolchain_temporary@,
        ctx.temporary@,
    );
    assert(ctx.toolchain_log_file@.skip(ctx.logs@.len() as int + 1) =~= "toolchain.log"@);
    assert forall|i: int|
        0 <= i < "toolchain.log"@.len() implies #[trigger] "toolchain.log"@[i] != '/' by {
        reveal_strlit("toolchain.log");
    }
}

} // verus!
