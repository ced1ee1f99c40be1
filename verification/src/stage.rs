//! The fixed build order of the toolchain packages and the pipeline that
//! hands them out one at a time.
//!
//! The order is a hand-maintained dependency chain: the musl headers must
//! be installed before anything that targets the cross sysroot, the
//! C-only first pass of gcc must precede musl, and musl must precede the
//! runtime libraries that link against it. The pipeline hands out the
//! next package only after every earlier one has been reported built, and
//! hands out nothing once a failure has been reported.

use vstd::prelude::*;

verus! {

/// A toolchain component to be built by the stage executor.
#[derive(Clone, Copy, PartialEq, Eq, Structural, Debug)]
pub enum Package {
    /// The musl C library headers.
    MuslHeaders,
    /// The GNU binutils.
    Binutils,
    /// The C-only first pass of GCC.
    Gcc,
    /// The musl C library itself.
    Musl,
    /// The GCC runtime support library.
    Libgcc,
    /// The GNU C++ standard library.
    LibstdcxxV3,
    /// The GNU OpenMP runtime.
    Libgomp,
}

/// How many packages the fixed order holds.
pub open spec fn stage_count() -> int {
    7
}

/// The fixed, hand-ordered build sequence of the toolchain packages.
pub open spec fn stage_order() -> Seq<Package> {
    seq![
        Package::MuslHeaders,
        Package::Binutils,
        Package::Gcc,
        Package::Musl,
        Package::Libgcc,
        Package::LibstdcxxV3,
        Package::Libgomp,
    ]
}

/// Every recorded outcome reports success.
pub open spec fn all_stages_succeed(outcomes: Seq<bool>) -> bool {
    forall|j: int| 0 <= j < outcomes.len() ==> outcomes[j]
}

/// The stage at `i` is the first to fail.
pub open spec fn first_failure_at(outcomes: Seq<bool>, i: int) -> bool {
    &&& 0 <= i < outcomes.len()
    &&& !outcomes[i]
    &&& forall|j: int| 0 <= j < i ==> outcomes[j]
}

/// The ordered list of packages the toolchain pipeline builds, first to
/// last.
pub fn radula_behave_bootstrap_toolchain_construct() -> (order: Vec<Package>)
    ensures
        order@ == stage_order(),
{
    let order = vec![
        Package::MuslHeaders,
        Package::Binutils,
        Package::Gcc,
        Package::Musl,
        Package::Libgcc,
        Package::LibstdcxxV3,
        Package::Libgomp,
    ];
    proof {
        assert(order@ =~= stage_order());
    }
    order
}

/// The pipeline's progress: how many stages completed, and whether one
/// has failed.
pub struct StagePipeline {
    /// Stages reported successfully built so far.
    pub completed: usize,
    /// Whether some stage has been reported failed.
    pub failed: bool,
}

impl StagePipeline {
    /// Progress never runs past the fixed order.
    pub open spec fn wf(self) -> bool {
        self.completed <= stage_count()
    }

    /// A fresh pipeline: nothing built, nothing failed.
    pub fn new() -> (s: Self)
        ensures
            s.wf(),
            s.completed == 0,
            !s.failed,
    {
        StagePipeline { completed: 0, failed: false }
    }

    /// The package to build next: the first not yet built, or nothing
    /// once every stage is done or one has failed.
    pub fn next_package(&self) -> (r: Option<Package>)
        requires
            self.wf(),
        ensures
            match r {
                Some(p) => !self.failed && self.completed < stage_count() && p
                    == stage_order()[self.completed as int],
                None => self.failed || self.completed == stage_count(),
            },
    {
        if self.failed || self.completed >= 7 {
            None
        } else {
            let order = radula_behave_bootstrap_toolchain_construct();
            Some(order[self.completed])
        }
    }

    /// Records that the pending stage was built successfully.
    pub fn record_success(&mut self)
        requires
            old(self).wf(),
            !old(self).failed,
            old(self).completed < stage_count(),
        ensures
            final(self).wf(),
            final(self).completed == old(self).completed + 1,
            !final(self).failed,
    {
        self.completed = self.completed + 1;
    }

    /// Records that the pending stage failed; the pipeline hands out no
    /// further package.
    pub fn record_failure(&mut self)
        requires
            old(self).wf(),
        ensures
            final(self).wf(),
            final(self).failed,
            final(self).completed == old(self).completed,
    {
        self.failed = true;
    }
}

/// Drives the pipeline against a recorded outcome for each stage of the
/// fixed order and returns the packages handed out for building, in the
/// order they were handed out. The invocations follow the fixed order
/// from its start; after a failing stage no further stage is invoked.
pub fn run_pipeline(outcomes: &Vec<bool>) -> (invoked: Vec<Package>)
    requires
        outcomes@.len() == stage_count(),
    ensures
        invoked@.len() <= stage_count(),
        invoked@ == stage_order().take(invoked@.len() as int),
        all_stages_succeed(outcomes@) ==> invoked@ == stage_order(),
        forall|i: int| first_failure_at(outcomes@, i) ==> invoked@.len() == i + 1,
{
    let mut pipeline = StagePipeline::new();
    let mut invoked: Vec<Package> = Vec::new();
    loop
        invariant
            pipeline.wf(),
            outcomes@.len() == stage_count(),
            !pipeline.failed ==> invoked@.len() == pipeline.completed,
            pipeline.failed ==> pipeline.completed < stage_count() && invoked@.len()
                == pipeline.completed + 1 && !outcomes@[pipeline.completed as int],
            invoked@ == stage_order().take(invoked@.len() as int),
            forall|j: int| 0 <= j < pipeline.completed ==> outcomes@[j],
        ensures
            pipeline.failed || pipeline.completed == stage_count(),
        decreases stage_count() - pipeline.completed + (if pipeline.failed {
            0int
        } else {
            1int
        }),
    {
        let next = pipeline.next_package();
        match next {
            None => {
                break;
            },
            Some(package) => {
                invoked.push(package);
                proof {
                    assert(invoked@ =~= stage_order().take(invoked@.len() as int));
                }
                if outcomes[pipeline.completed] {
                    pipeline.record_success();
                } else {
                    pipeline.record_failure();
                }
            },
        }
    }
    proof {
        assert(stage_order().take(stage_count()) =~= stage_order());
        assert forall|i: int| first_failure_at(outcomes@, i) implies invoked@.len() == i + 1 by {
            if pipeline.failed {
                if i < pipeline.completed {
                    assert(outcomes@[i]);
                }
                if i > pipeline.completed {
                    assert(outcomes@[pipeline.completed as int]);
                }
            } else {
                assert(outcomes@[i]);
            }
        }
    }
    invoked
}

/// The dependency invariant of the fixed order, read off any run that
/// invokes a prefix of it: wherever `gcc` is invoked, the musl headers
/// were invoked earlier; wherever `musl` is invoked, `gcc` was invoked
/// earlier; and wherever one of the runtime libraries is invoked, `musl`
/// was invoked earlier.
pub proof fn lemma_stage_dependencies_ordered(invoked: Seq<Package>)
    requires
        invoked.len() <= stage_count(),
        invoked == stage_order().take(invoked.len() as int),
    ensures
        forall|j: int|
            0 <= j < invoked.len() && #[trigger] invoked[j] == Package::Gcc ==> 0 < j
                && invoked[0] == Package::MuslHeaders,
        forall|j: int|
            0 <= j < invoked.len() && #[trigger] invoked[j] == Package::Musl ==> 2 < j
                && invoked[2] == Package::Gcc,
        forall|j: int|
            0 <= j < invoked.len() && (#[trigger] invoked[j] == Package::Libgcc || invoked[j]
                == Package::LibstdcxxV3 || invoked[j] == Package::Libgomp) ==> 3 < j
                && invoked[3] == Package::Musl,
{
    assert forall|j: int| 0 <= j < invoked.len() implies #[trigger] invoked[j]
        == stage_order()[j] by {
        assert(invoked[j] == stage_order().take(invoked.len() as int)[j]);
    }
}

} // verus!
