use radula::context::{radula_behave_bootstrap_toolchain_environment, BaseRoots};
use radula::fs_model::FsTree;
use radula::plan::{
    apply_plan, radula_behave_bootstrap_toolchain_backup, radula_behave_bootstrap_toolchain_prepare,
    radula_behave_bootstrap_toolchain_release,
};
use radula::stage::{run_pipeline, radula_behave_bootstrap_toolchain_construct, Package};

fn bases() -> BaseRoots {
    BaseRoots {
        cross: String::from("/t/cross"),
        toolchain: String::from("/t/toolchain"),
        temporary: String::from("/t/tmp"),
        logs: String::from("/t/log"),
        sources: String::from("/t/src"),
        backups: String::from("/t/bak"),
        pkg_config_sysroot: String::from("/g"),
    }
}

#[test]
fn test_radula_behave_bootstrap_toolchain_environment() {
    let ctx = radula_behave_bootstrap_toolchain_environment(bases());

    println!("\nTLCD :: {}", ctx.toolchain);
    println!("TTMP :: {}", ctx.toolchain_temporary);
    println!("TBLD :: {}", ctx.toolchain_temporary_builds);
    println!("TSRC :: {}", ctx.toolchain_temporary_sources);
    println!("TLOG :: {}\n", ctx.toolchain_log_file);

    assert!(ctx.logs.ends_with("log"));
    assert!(ctx.sources.ends_with("src"));
    assert!(ctx.temporary.ends_with("tmp"));
    assert!(ctx.toolchain.ends_with("toolchain"));
    assert!(ctx.toolchain_log_file.ends_with("toolchain.log"));
}

#[test]
fn environment_scenario_exact_paths() {
    let ctx = radula_behave_bootstrap_toolchain_environment(bases());
    assert_eq!(ctx.toolchain_temporary, "/t/tmp/toolchain");
    assert_eq!(ctx.toolchain_temporary_builds, "/t/tmp/toolchain/builds");
    assert_eq!(ctx.toolchain_temporary_sources, "/t/tmp/toolchain/src");
    assert_eq!(ctx.toolchain_log_file, "/t/log/toolchain.log");
}

#[test]
fn construct_order_is_the_fixed_chain() {
    let order = radula_behave_bootstrap_toolchain_construct();
    assert_eq!(
        order,
        vec![
            Package::MuslHeaders,
            Package::Binutils,
            Package::Gcc,
            Package::Musl,
            Package::Libgcc,
            Package::LibstdcxxV3,
            Package::Libgomp,
        ]
    );
}

#[test]
fn pipeline_runs_every_stage_on_success() {
    let outcomes = vec![true; 7];
    let invoked = run_pipeline(&outcomes);
    assert_eq!(invoked, radula_behave_bootstrap_toolchain_construct());
}

#[test]
fn pipeline_stops_at_first_failure() {
    let outcomes = vec![true, true, false, true, true, true, true];
    let invoked = run_pipeline(&outcomes);
    assert_eq!(
        invoked,
        vec![Package::MuslHeaders, Package::Binutils, Package::Gcc]
    );
    assert!(!invoked.contains(&Package::Musl));
    assert!(!invoked.contains(&Package::Libgcc));
}

#[test]
fn force_remove_on_absent_path_changes_nothing() {
    let mut tree = FsTree::new();
    tree.insert_file(&String::from("/t/cross/bin/ld"), &String::from("elf"));
    let before = tree.entries.len();
    tree.force_remove(&String::from("/t/nothing/here"));
    assert_eq!(tree.entries.len(), before);
    assert!(tree.contains_path(&String::from("/t/cross/bin/ld")));
}

#[test]
fn force_remove_erases_the_path_and_everything_below() {
    let mut tree = FsTree::new();
    tree.create_dir_all(&String::from("/t/cross"));
    tree.insert_file(&String::from("/t/cross/bin/ld"), &String::from("elf"));
    tree.insert_file(&String::from("/t/crossing"), &String::from("other"));
    tree.force_remove(&String::from("/t/cross"));
    assert!(!tree.contains_path(&String::from("/t/cross")));
    assert!(!tree.contains_path(&String::from("/t/cross/bin/ld")));
    // a sibling whose name merely extends the removed one stays
    assert!(tree.contains_path(&String::from("/t/crossing")));
}

#[test]
fn prepare_is_idempotent_on_a_tree() {
    let ctx = radula_behave_bootstrap_toolchain_environment(bases());
    let plan = radula_behave_bootstrap_toolchain_prepare(&ctx);
    let mut tree = FsTree::new();
    apply_plan(&mut tree, &plan);
    let after_once = tree.entries.len();
    assert_eq!(after_once, 5);
    assert!(tree.contains_path(&String::from("/t/cross")));
    assert!(tree.contains_path(&String::from("/t/toolchain")));
    assert!(tree.contains_path(&String::from("/t/tmp/toolchain")));
    assert!(tree.contains_path(&String::from("/t/tmp/toolchain/builds")));
    assert!(tree.contains_path(&String::from("/t/tmp/toolchain/src")));
    apply_plan(&mut tree, &plan);
    assert_eq!(tree.entries.len(), after_once);
}

#[test]
fn backup_mirrors_the_toolchain_root_with_identical_content() {
    let ctx = radula_behave_bootstrap_toolchain_environment(bases());
    let mut tree = FsTree::new();
    tree.insert_file(&String::from("/t/toolchain/bin/ld"), &String::from("elf-bytes"));
    let plan = radula_behave_bootstrap_toolchain_backup(&ctx);
    apply_plan(&mut tree, &plan);
    assert_eq!(
        tree.file_data(&String::from("/t/bak/toolchain/bin/ld")),
        Some(String::from("elf-bytes"))
    );
    // the source file stays in place: the mirror is one-way and additive
    assert_eq!(
        tree.file_data(&String::from("/t/toolchain/bin/ld")),
        Some(String::from("elf-bytes"))
    );
}

#[test]
fn release_prunes_lib64_and_la_and_keeps_stripped_files() {
    let ctx = radula_behave_bootstrap_toolchain_environment(bases());
    let mut tree = FsTree::new();
    tree.insert_file(&String::from("/t/bak/cross/lib64/a.so"), &String::from("a"));
    tree.insert_file(&String::from("/t/bak/cross/usr/lib64/b.so"), &String::from("b"));
    tree.insert_file(&String::from("/t/bak/toolchain/lib64/c.so"), &String::from("c"));
    tree.insert_file(&String::from("/t/bak/cross/usr/lib/libbar.la"), &String::from("la"));
    tree.insert_file(&String::from("/t/bak/cross/usr/lib/libbar.so"), &String::from("so"));
    tree.insert_file(&String::from("/t/bak/toolchain/lib/libfoo.a"), &String::from("ar"));
    tree.insert_file(&String::from("/t/bak/toolchain/bin/gcc"), &String::from("cc"));
    tree.insert_file(&String::from("/t/bak/toolchain/share/man/p.1"), &String::from("man"));
    let plan = radula_behave_bootstrap_toolchain_release(&ctx);
    apply_plan(&mut tree, &plan);

    // the backups were merged under the fresh staging root
    assert!(tree.contains_path(&String::from("/g/tmp/toolchain")));
    // the three lib64 trees are gone
    assert!(!tree.contains_path(&String::from("/g/tmp/toolchain/cross/lib64/a.so")));
    assert!(!tree.contains_path(&String::from("/g/tmp/toolchain/cross/usr/lib64/b.so")));
    assert!(!tree.contains_path(&String::from("/g/tmp/toolchain/toolchain/lib64/c.so")));
    // libtool metadata is gone, its neighbour stays
    assert!(!tree.contains_path(&String::from("/g/tmp/toolchain/cross/usr/lib/libbar.la")));
    assert!(tree.contains_path(&String::from("/g/tmp/toolchain/cross/usr/lib/libbar.so")));
    // stripping deletes nothing
    assert!(tree.contains_path(&String::from("/g/tmp/toolchain/toolchain/lib/libfoo.a")));
    assert!(tree.contains_path(&String::from("/g/tmp/toolchain/toolchain/bin/gcc")));
    // generated documentation is gone
    assert!(!tree.contains_path(&String::from("/g/tmp/toolchain/toolchain/share/man/p.1")));
    // the backups themselves are untouched
    assert!(tree.contains_path(&String::from("/t/bak/toolchain/bin/gcc")));
}
