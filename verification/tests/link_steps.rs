use clang_wrap::file_ops::plan_aux_commands;
use clang_wrap::install::{add_if_exists, install_candidate_files};
use clang_wrap::libraries::LibraryWalk;
use clang_wrap::link_run::{link_step, start_link, LinkAction, LinkEvent, LinkPhase, LinkState};
use clang_wrap::llvmir_files::AuxFileSuffix;

fn words(v: &[&str]) -> Vec<String> {
    v.iter().map(|s| s.to_string()).collect()
}

/// Runs the link steps from the start over `events`, giving the actions in order.
fn actions_of(sources: usize, events: &[LinkEvent]) -> Vec<LinkAction> {
    let mut state = start_link(sources);
    let mut out = Vec::new();
    for e in events {
        let (next, action) = link_step(state, *e);
        state = next;
        out.push(action);
    }
    out
}

#[test]
fn failed_link_exits_with_its_code() {
    let acts = actions_of(2, &[LinkEvent::Begin, LinkEvent::Exited(Some(3))]);
    assert_eq!(acts, vec![LinkAction::RunLink, LinkAction::Exit(3)]);
    let acts = actions_of(0, &[LinkEvent::Begin, LinkEvent::Exited(None)]);
    assert_eq!(acts, vec![LinkAction::RunLink, LinkAction::Exit(1)]);
}

#[test]
fn link_without_sources_or_ir_exits_cleanly() {
    let acts = actions_of(0, &[LinkEvent::Begin, LinkEvent::Exited(Some(0)), LinkEvent::IrFound(0)]);
    assert_eq!(acts, vec![LinkAction::RunLink, LinkAction::FindIr, LinkAction::Exit(0)]);
}

#[test]
fn link_compiles_each_source_then_merges() {
    let acts = actions_of(
        2,
        &[
            LinkEvent::Begin,
            LinkEvent::Exited(Some(0)),
            LinkEvent::IrFound(0),
            LinkEvent::Exited(Some(0)),
            LinkEvent::Exited(Some(0)),
            LinkEvent::Exited(Some(0)),
        ],
    );
    assert_eq!(
        acts,
        vec![
            LinkAction::RunLink,
            LinkAction::FindIr,
            LinkAction::CompileSource(0),
            LinkAction::CompileSource(1),
            LinkAction::RunLlvmLink,
            LinkAction::Finish,
        ]
    );
}

#[test]
fn link_with_found_ir_merges_without_sources() {
    let acts = actions_of(0, &[LinkEvent::Begin, LinkEvent::Exited(Some(0)), LinkEvent::IrFound(2)]);
    assert_eq!(acts, vec![LinkAction::RunLink, LinkAction::FindIr, LinkAction::RunLlvmLink]);
}

#[test]
fn failed_source_ir_abandons_the_link() {
    let acts = actions_of(
        3,
        &[LinkEvent::Begin, LinkEvent::Exited(Some(0)), LinkEvent::IrFound(1), LinkEvent::Exited(Some(0)), LinkEvent::Exited(Some(4))],
    );
    assert_eq!(acts[4], LinkAction::AbandonSource(4));
}

#[test]
fn failed_merge_removes_the_output() {
    let s = LinkState { phase: LinkPhase::Merging, sources: 0, current_source: 0 };
    assert_eq!(link_step(s, LinkEvent::Exited(Some(2))).1, LinkAction::AbandonMerge(2));
    assert_eq!(link_step(s, LinkEvent::Exited(None)).1, LinkAction::AbandonMerge(1));
    assert_eq!(link_step(s, LinkEvent::Exited(Some(0))).1, LinkAction::Finish);
}

#[test]
fn out_of_order_event_changes_nothing() {
    let s = start_link(1);
    assert_eq!(link_step(s, LinkEvent::IrFound(3)), (s, LinkAction::Wait));
}

#[test]
fn same_file_by_another_spelling_is_listed_once() {
    let mut files: Vec<String> = Vec::new();
    add_if_exists(&mut files, "/ir/R/prog".to_string(), true);
    add_if_exists(&mut files, "/ir/R/./prog".to_string(), true);
    assert_eq!(files, words(&["/ir/R/prog"]));
}

#[test]
fn canonical_path_equal_as_a_path_adds_no_candidates() {
    let cands = install_candidate_files("./prog", "/R", "/ir", Some("/R/prog".to_string()));
    assert_eq!(cands.len(), 4);
    assert!(cands[0].ends_with("prog"));
    assert!(cands[1].ends_with("prog.bc"));
}

#[test]
fn aux_commands_follow_the_found_files() {
    let found = vec![
        (AuxFileSuffix::Log, "/ir/a/x_log".to_string()),
        (AuxFileSuffix::Cmd, "/ir/a/x_cmd".to_string()),
    ];
    let cmds = plan_aux_commands("mv", "/ir/b/x", &words(&["-f"]), &Vec::new(), &found);
    assert_eq!(
        cmds,
        vec![words(&["-f", "/ir/a/x_log", "/ir/b/x_log"]), words(&["-f", "/ir/a/x_cmd", "/ir/b/x_cmd"])]
    );
    assert!(plan_aux_commands("mv", "/ir/b/x", &Vec::new(), &Vec::new(), &Vec::new()).is_empty());
}

#[test]
fn library_walk_follows_a_script_in_entry_order() {
    let dirs = words(&["/lib"]);
    let mut walk = LibraryWalk::start("m", &dirs);
    let first = walk.next_task().expect("first place");
    assert_eq!(first.candidates, words(&["/lib/libm.so", "/lib/libm.a"]));
    assert_eq!(first.depth, 0);
    walk.take_file("/lib/libm.so", Some(60), Some("GROUP ( /lib/libm.so.6 AS_NEEDED ( -lmvec ) )"), 0, &dirs);
    assert!(walk.names.is_empty());
    let second = walk.next_task().expect("the script's file");
    assert_eq!(second.candidates, words(&["/lib/libm.so.6"]));
    assert_eq!(second.depth, 1);
    walk.take_file("/lib/libm.so.6", Some(2_000_000), None, 1, &dirs);
    let third = walk.next_task().expect("the script's library");
    assert_eq!(third.candidates, words(&["/lib/libmvec.so", "/lib/libmvec.a"]));
    walk.take_file("/lib/libmvec.so", Some(100), Some("\u{7f}ELF"), 1, &dirs);
    assert!(walk.next_task().is_none());
    assert_eq!(walk.names, words(&["libm.so.6", "libmvec.so"]));
}

#[test]
fn library_walk_stops_reading_scripts_at_the_depth_limit() {
    let dirs = words(&["/lib"]);
    let mut walk = LibraryWalk::start("loop", &dirs);
    let _ = walk.next_task();
    walk.take_file("/lib/libloop.so", Some(20), Some("INPUT(-lloop)"), 8, &dirs);
    assert!(walk.next_task().is_none());
    assert_eq!(walk.names, words(&["libloop.so"]));
}
