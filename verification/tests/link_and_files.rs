use clang_wrap::cmd_script::{
    generate_link_cmd_script, holds_opt_level, keep_compile_args, keep_link_flags, library_file_reference,
    library_references, relink_command_args, relink_output_filename, RelinkInputs,
};
use clang_wrap::compile::{
    classify_invocation, compile_ir_command_args, compile_ir_paths, compile_output_path, extra_emit_options,
    parse_compile_args, Invocation,
};
use clang_wrap::file_ops::{
    cmd_copy_mode, file_cmd_args, file_op_sync_jobs, llvmir_dest_in_dir, parse_cp_args, parse_ln_args,
    parse_mv_args, parse_strip_args, place_at, plan_strip_copies, sync_job_destination, FileCommand,
    SyncTarget,
};
use clang_wrap::link::{
    command_line, link_ir_candidates, link_output_path, llvm_link_args, parse_link_args, select_ir_inputs,
    soname_version_of, source_ir_command_args, source_ir_path, version_script_destination,
};
use clang_wrap::llvmir_files::{aux_file_given, choose_llvmir_file, AuxFileSuffix};

fn strings(v: &[&str]) -> Vec<String> {
    v.iter().map(|s| s.to_string()).collect()
}

#[test]
fn link_command_parts() {
    let la = parse_link_args(&strings(&[
        "main.o", "-L", "/lib", "-lwrapdep", "/c/libgslcblas.so", "-O1", "-Wl,-rpath,/tmp/x", "-o", "usesdep",
    ]))
    .expect("link parsed");
    assert_eq!(la.object_files, strings(&["main.o"]));
    assert_eq!(la.library_dirs, strings(&["/lib"]));
    assert_eq!(la.libraries, strings(&["wrapdep"]));
    assert_eq!(la.library_files, strings(&["/c/libgslcblas.so"]));
    assert_eq!(la.other_args, strings(&["-O1", "-Wl,-rpath,/tmp/x"]));
    assert_eq!(la.link_flags, strings(&["-L", "/lib", "-lwrapdep", "-Wl,-rpath,/tmp/x"]));
    assert_eq!(la.output_file, Some("usesdep".to_string()));
    assert!(!la.is_shared);
    assert_eq!(link_output_path(&la), "usesdep");
}

#[test]
fn shared_link_with_soname_and_version_script() {
    let la = parse_link_args(&strings(&[
        "-shared", "a.o", "-Wl,-soname", "-Wl,libx.so.2", "-Wl,-version-script,vs.map", "-o", "libx.so.2.0",
    ]))
    .expect("link parsed");
    assert!(la.is_shared);
    assert_eq!(la.soversion, Some("2".to_string()));
    assert_eq!(la.version_script, Some("vs.map".to_string()));
    assert!(la.link_flags.contains(&"-Wl,-soname,libx.so.2".to_string()));
    assert!(la.link_flags.contains(&"-Wl,--version-script=vs.map".to_string()));
}

#[test]
fn soname_flag_without_a_name_is_refused() {
    assert!(parse_link_args(&strings(&["a.o", "-Wl,-soname,"])).is_none());
}

#[test]
fn link_without_output_writes_a_out() {
    let la = parse_link_args(&strings(&["a.o"])).expect("link parsed");
    assert_eq!(link_output_path(&la), "a.out");
}

#[test]
fn soname_versions() {
    assert_eq!(soname_version_of("libx.so.1.2"), Some("1.2".to_string()));
    assert_eq!(soname_version_of("libx.so.so.3"), Some("3".to_string()));
    assert_eq!(soname_version_of("libx.so"), None);
}

#[test]
fn compile_options_kept_for_the_relink() {
    let kept = keep_compile_args(&strings(&[
        "-c", "-I", "inc", "-Iinc2", "-DX=1", "-D", "Y", "-O2", "-ffat-lto-objects", "-g", "-std=c11", "-MD",
        "-MF", "dep.d", "-Wl,-z,now",
    ]));
    assert_eq!(kept, strings(&["-O2", "-g"]));
    assert!(holds_opt_level(&kept));
    assert!(!holds_opt_level(&strings(&["-g"])));
}

#[test]
fn link_flags_kept_for_the_relink() {
    let kept = keep_link_flags(
        &strings(&[
            "-shared", "-L", "/lib", "-lfoo", "-Wl,--version-script=v", "-Wl,-rpath,/a", "-Wl,-rpath", "-Wl,/b",
            "-Wl,--as-needed",
        ]),
        true,
    );
    assert_eq!(kept, strings(&["/lib", "-Wl,--as-needed"]));
}

#[test]
fn relink_output_names() {
    assert_eq!(relink_output_filename("out/libx.so", true, Some("1")), "libx.so.1");
    assert_eq!(relink_output_filename("libx.so.1.0", true, Some("1")), "libx.so.1");
    assert_eq!(relink_output_filename("libx.dylib", true, Some("2")), "libx.2.dylib");
    assert_eq!(relink_output_filename("prog", false, Some("1")), "prog");
    assert_eq!(relink_output_filename("/", false, None), "a.out");
}

#[test]
fn library_references_of_the_relink() {
    assert_eq!(library_file_reference("/c/libgslcblas.so", Some("libgslcblas.so.0.0.0")), Some("-l:libgslcblas.so.0.0.0".to_string()));
    assert_eq!(library_file_reference("/c/libz.so.1", None), Some("-lz".to_string()));
    assert_eq!(library_file_reference("/c/libm.a", None), Some("-lm".to_string()));
    assert_eq!(library_file_reference("/c/other.so", None), Some("./other.so".to_string()));
    let refs = library_references(
        &strings(&["wrapscript", "dl"]),
        &vec![strings(&["libprimary.so.1.0.0", "libscriptdep.so.2.0.0"]), Vec::new()],
    );
    assert_eq!(refs, strings(&["-l:libprimary.so.1.0.0", "-l:libscriptdep.so.2.0.0", "-ldl"]));
}

fn inputs_for(out: &str, libs: Vec<Vec<String>>, files: Vec<Option<String>>) -> RelinkInputs {
    RelinkInputs {
        clang_path: "/usr/bin/clang".to_string(),
        llvm_link_output: format!("/ir/w/{out}"),
        output_filename: out.to_string(),
        merged_static_libs: Vec::new(),
        resolved_library_files: files,
        resolved_libraries: libs,
        version_script_dest: None,
    }
}

#[test]
fn relink_command_for_an_executable() {
    let la = parse_link_args(&strings(&["hello space.c", "-ffat-lto-objects", "-o", "hello space"])).expect("parsed");
    let inputs = inputs_for("hello space", Vec::new(), Vec::new());
    assert_eq!(
        relink_command_args(&la, &inputs),
        strings(&[
            "/usr/bin/clang", "-x", "ir", "-fuse-ld=lld", "-O3", "-L", "..", "./hello space",
            "--output=output/hello space",
        ])
    );
}

#[test]
fn relink_script_is_a_bash_array() {
    let la = parse_link_args(&strings(&["hello space.c", "-ffat-lto-objects", "-o", "hello space"])).expect("parsed");
    let inputs = inputs_for("hello space", Vec::new(), Vec::new());
    let script = generate_link_cmd_script(&la, &inputs, "clang version 18");
    assert!(script.starts_with("#!/bin/bash\n"));
    assert!(script.contains("# Clang version: clang version 18\n"));
    assert!(script.contains("# Original output: hello space\n"));
    assert!(script.contains("cmd=(\n"));
    assert!(script.contains("\"${cmd[@]}\""));
    assert!(!script.contains("eval "));
    assert!(!script.contains("-ffat-lto-objects"));
    assert!(script.lines().any(|l| l.trim() == "-O3"));
    assert!(script.lines().any(|l| l.trim() == "'--output=output/hello space'"));
    assert!(!script.lines().any(|l| l.trim() == "-o"));
}

#[test]
fn relink_script_resolves_libraries() {
    let la = parse_link_args(&strings(&[
        "main.o", "-L", "/lib", "-lwrapdep", "/c/libgslcblas.so", "-O1", "-Wl,-rpath,/tmp/a", "-Wl,-rpath",
        "-Wl,/tmp/b", "-o", "usesdep",
    ]))
    .expect("parsed");
    let inputs = inputs_for(
        "usesdep",
        vec![strings(&["libwrapdep.so.1.0.0"])],
        vec![Some("libgslcblas.so.0.0.0".to_string())],
    );
    let script = generate_link_cmd_script(&la, &inputs, "v");
    assert!(script.lines().any(|l| l.trim() == "-l:libwrapdep.so.1.0.0"));
    assert!(script.lines().any(|l| l.trim() == "-l:libgslcblas.so.0.0.0"));
    assert!(script.lines().any(|l| l.trim() == "--output=output/usesdep"));
    assert!(script.lines().any(|l| l.trim() == "-O1"));
    assert!(!script.lines().any(|l| l.trim() == "-O3"));
    assert!(!script.lines().any(|l| l.trim() == "-lwrapdep"));
    assert!(!script.contains("rpath"));
    assert!(!script.contains("/c/libgslcblas.so"));
}

#[test]
fn ir_inputs_of_a_link() {
    let la = parse_link_args(&strings(&["main.o", "/w/libutil.a", "/w/libz.so", "-o", "app"])).expect("parsed");
    let cands = link_ir_candidates(&la, "/w", "/ir");
    assert_eq!(cands.len(), 2);
    assert_eq!(cands[0].ir_path, "/ir/w/main.o");
    assert_eq!(cands[1].ir_path, "/ir/w/libutil.a");
    assert_eq!(cands[1].static_lib, Some("/w/libutil.a".to_string()));
    let sel = select_ir_inputs(&cands, &vec![true, true]);
    assert_eq!(sel.ir_files, strings(&["/ir/w/main.o", "/ir/w/libutil.a"]));
    assert_eq!(sel.merged_static_libs, strings(&["/w/libutil.a"]));
    let sel = select_ir_inputs(&cands, &vec![true, false]);
    assert_eq!(sel.ir_files, strings(&["/ir/w/main.o"]));
    assert!(sel.merged_static_libs.is_empty());
}

#[test]
fn llvm_link_and_source_ir_commands() {
    assert_eq!(
        llvm_link_args("/ir/w/app", &strings(&["/ir/w/a.o", "/ir/w/b.o"])),
        strings(&["-o", "/ir/w/app", "/ir/w/a.o", "/ir/w/b.o"])
    );
    assert_eq!(command_line("llvm-link", &strings(&["-o", "x"])), "llvm-link -o x");
    assert_eq!(source_ir_path("src/a.c", "/w", "/ir"), "/ir/w/src/a.bc");
    assert_eq!(
        source_ir_command_args(&strings(&["-O2"]), Some("-march=x86-64-v4"), "a.c", "/ir/a.bc.tmp"),
        strings(&["-O2", "-march=x86-64-v4", "-emit-llvm", "-c", "a.c", "-o", "/ir/a.bc.tmp"])
    );
    assert_eq!(version_script_destination("out/libx.so", "/ir/w/out/libx.so"), "/ir/w/out/libx.so_verscript");
}

#[test]
fn invocations_by_kind() {
    assert_eq!(classify_invocation(&strings(&["clang", "-c", "a.c"])), Invocation::Compile);
    assert_eq!(classify_invocation(&strings(&["clang", "-E", "a.c"])), Invocation::Preprocess);
    assert_eq!(classify_invocation(&strings(&["clang", "-E", "-c", "a.c"])), Invocation::Compile);
    assert_eq!(classify_invocation(&strings(&["clang", "a.o", "-o", "app"])), Invocation::Link);
    assert_eq!(classify_invocation(&strings(&["clang", "-shared", "-o", "libx.so"])), Invocation::Link);
    assert_eq!(classify_invocation(&strings(&["clang", "--version"])), Invocation::PassThrough);
}

#[test]
fn compile_command_parts_and_ir() {
    let args = strings(&["clang", "-c", "a.c", "-I", "inc", "-o", "obj/a.o"]);
    let ca = parse_compile_args(&args, &vec![false, false, true, false, false, false, false]);
    assert_eq!(ca.input_file, Some("a.c".to_string()));
    assert_eq!(ca.output_file, Some("obj/a.o".to_string()));
    assert_eq!(ca.other_args, strings(&["-c", "-I", "inc"]));
    assert_eq!(compile_output_path(&ca), "obj/a.o");
    let (ir, first, tmp) = compile_ir_paths(&ca, "/w", "/ir", ".tmp.1");
    assert_eq!(ir, "/ir/w/obj/a.o");
    assert_eq!(first, "/ir/w/obj/a.o");
    assert!(!tmp);
    assert_eq!(
        compile_ir_command_args(&ca, &strings(&["-g"]), None, "/ir/w/obj/a.o"),
        strings(&["-c", "-I", "inc", "-g", "-emit-llvm", "a.c", "-o", "/ir/w/obj/a.o"])
    );
}

#[test]
fn compile_without_named_files_writes_a_temporary() {
    let args = strings(&["clang", "-c", "missing.c"]);
    let ca = parse_compile_args(&args, &vec![false, false, false]);
    assert_eq!(ca.input_file, None);
    assert_eq!(compile_output_path(&ca), "output.o");
    let (ir, first, tmp) = compile_ir_paths(&ca, "/w", "/ir", ".tmp.1");
    assert_eq!(ir, "/ir/w/output.o");
    assert_eq!(first, "/ir/w/output.o.tmp.1");
    assert!(tmp);
}

#[test]
fn output_named_after_the_input() {
    let ca = parse_compile_args(&strings(&["clang", "-c", "dir/x.c"]), &vec![false, false, true]);
    assert_eq!(compile_output_path(&ca), "x.o");
}

#[test]
fn emit_switch_extra_options() {
    assert_eq!(extra_emit_options("1"), Vec::<String>::new());
    assert_eq!(extra_emit_options("-O2  -g"), strings(&["-O2", "-g"]));
}

#[test]
fn cp_and_mv_read_target_directories() {
    let fa = parse_cp_args(&strings(&["-t", "dir", "a", "b"]));
    assert_eq!(fa.target_dir, Some("dir".to_string()));
    assert_eq!(fa.sources, strings(&["a", "b"]));
    assert_eq!(fa.other_args, strings(&["-t", "dir"]));
    assert_eq!(fa.destination, None);
    let fa = parse_cp_args(&strings(&["--target-directory=out", "a.o", "b.o"]));
    assert_eq!(fa.target_dir, Some("out".to_string()));
    assert_eq!(fa.sources, strings(&["a.o", "b.o"]));
    assert_eq!(fa.destination, None);
    assert_eq!(fa.other_args, strings(&["--target-directory=out"]));
    let fa = parse_ln_args(&strings(&["-s", "--target-directory=d", "lib.so"]));
    assert_eq!(fa.target_dir, Some("d".to_string()));
    assert_eq!(fa.sources, strings(&["lib.so"]));
    assert_eq!(fa.destination, None);
    assert_eq!(fa.other_args, strings(&["-s", "--target-directory=d"]));
    let fa = parse_mv_args(&strings(&["--target-directory=dir", "a"]));
    assert_eq!(fa.target_dir, Some("dir".to_string()));
    let fa = parse_mv_args(&strings(&["-f", "a", "b", "dst"]));
    assert_eq!(fa.sources, strings(&["a", "b"]));
    assert_eq!(fa.destination, Some("dst".to_string()));
    assert_eq!(fa.other_args, strings(&["-f"]));
    let fa = parse_ln_args(&strings(&["-sf", "target"]));
    assert_eq!(fa.sources, strings(&["target"]));
    assert_eq!(fa.destination, None);
}

#[test]
fn strip_output_forms() {
    let sa = parse_strip_args(&strings(&["-o", "out", "in"]));
    assert_eq!(sa.output, Some("out".to_string()));
    assert_eq!(sa.files, strings(&["in"]));
    assert_eq!(sa.other_args, strings(&["-o", "out"]));
    let sa = parse_strip_args(&strings(&["--output=o2", "-s", "a", "b"]));
    assert_eq!(sa.output, Some("o2".to_string()));
    assert_eq!(sa.files, strings(&["a", "b"]));
    let sa = parse_strip_args(&strings(&["-oo3", "a"]));
    assert_eq!(sa.output, Some("o3".to_string()));
}

#[test]
fn operands_into_a_destination_directory() {
    for (cmd, name) in [(FileCommand::Cp, "copy.o"), (FileCommand::Mv, "move.o"), (FileCommand::Ln, "link.o")] {
        let fa = parse_cp_args(&strings(&[name, "dst"]));
        let jobs = file_op_sync_jobs(cmd, &fa, true);
        assert_eq!(jobs.len(), 1);
        assert_eq!(jobs[0].source, name);
        assert!(matches!(&jobs[0].target, SyncTarget::At(p) if *p == format!("dst/{name}")));
        let dest = sync_job_destination(&jobs[0], "/root", "/ir");
        assert_eq!(dest, Some(format!("/ir/root/dst/{name}")));
    }
}

#[test]
fn several_operands_and_target_directories() {
    let fa = parse_mv_args(&strings(&["a.o", "b.o", "dst"]));
    let jobs = file_op_sync_jobs(FileCommand::Mv, &fa, true);
    assert_eq!(jobs.len(), 2);
    assert!(matches!(&jobs[1].target, SyncTarget::InDir(d) if d == "dst"));
    assert_eq!(sync_job_destination(&jobs[1], "/w", "/ir"), Some("/ir/w/dst/b.o".to_string()));
    assert!(file_op_sync_jobs(FileCommand::Mv, &fa, false).is_empty());
    let fa = parse_cp_args(&strings(&["-t", "d", "x.o"]));
    let jobs = file_op_sync_jobs(FileCommand::Cp, &fa, false);
    assert!(matches!(&jobs[0].target, SyncTarget::InDir(d) if d == "d"));
}

#[test]
fn a_link_without_a_name_is_made_in_the_working_directory() {
    let fa = parse_ln_args(&strings(&["-s", "/w/lib/x.o"]));
    let jobs = file_op_sync_jobs(FileCommand::Ln, &fa, false);
    assert!(matches!(&jobs[0].target, SyncTarget::At(p) if p == "./x.o"));
    assert!(file_op_sync_jobs(FileCommand::Cp, &fa, false).is_empty());
}

#[test]
fn placement_of_a_moved_file() {
    assert_eq!(place_at("a/b.o", "dst", true), "dst/b.o");
    assert_eq!(place_at("a/b.o", "dst", false), "dst");
    assert_eq!(llvmir_dest_in_dir("src/x.o", "dst", "/w", "/ir"), Some("/ir/w/dst/x.o".to_string()));
    assert_eq!(llvmir_dest_in_dir("/", "dst", "/w", "/ir"), None);
}

#[test]
fn file_operation_repeated_in_the_ir_tree() {
    let skip = strings(&["-t", "--target-directory="]);
    assert_eq!(
        file_cmd_args("ln", "/ir/a/x.o", "/ir/b/x.o", &strings(&["-s"]), &skip),
        strings(&["-s", "../a/x.o", "/ir/b/x.o"])
    );
    assert_eq!(
        file_cmd_args("cp", "/ir/a/x.o", "/ir/b/x.o", &strings(&["-t", "dir", "-p"]), &skip),
        strings(&["dir", "-p", "/ir/a/x.o", "/ir/b/x.o"])
    );
    assert_eq!(
        file_cmd_args("ln", "/ir/a/x.o", "/ir/b/x.o", &strings(&["-f"]), &skip),
        strings(&["-f", "/ir/a/x.o", "/ir/b/x.o"])
    );
}

#[test]
fn strip_copies_rewrite_the_relink_script() {
    let aux = vec![
        (AuxFileSuffix::Log, "/ir/w/prog_log".to_string()),
        (AuxFileSuffix::Cmd, "/ir/w/prog_cmd".to_string()),
    ];
    let copies = plan_strip_copies("prog", "out/prog.s", "/ir/w/prog", &aux, "/w", "/ir");
    assert_eq!(copies.len(), 3);
    assert_eq!((copies[0].from.as_str(), copies[0].to.as_str()), ("/ir/w/prog", "/ir/w/out/prog.s"));
    assert_eq!(copies[0].rename, None);
    assert_eq!(copies[1].to, "/ir/w/out/prog.s_log");
    assert_eq!(copies[1].rename, None);
    assert_eq!(copies[2].to, "/ir/w/out/prog.s_cmd");
    assert_eq!(copies[2].rename, Some(("prog".to_string(), "prog.s".to_string())));
    assert_eq!(cmd_copy_mode(0o640), 0o755);
    assert_eq!(cmd_copy_mode(0o620), 0o775);
    assert_eq!(AuxFileSuffix::Verscript.as_str(), "_verscript");
}

#[test]
fn ir_file_choice() {
    assert_eq!(choose_llvmir_file("a.o", "/w", "/ir", true, true), Some("/ir/w/a.o".to_string()));
    assert_eq!(choose_llvmir_file("a.o", "/w", "/ir", false, true), Some("/ir/w/a.bc".to_string()));
    assert_eq!(choose_llvmir_file("a.o", "/w", "/ir", false, false), None);
}

#[test]
fn command_array_reads_back_as_the_relink_arguments() {
    let la = parse_link_args(&strings(&["hello space.c", "main.o", "-O2", "-o", "hello space"])).expect("parsed");
    let inputs = inputs_for("hello space", Vec::new(), Vec::new());
    let script = generate_link_cmd_script(&la, &inputs, "v");
    let start = script.find("cmd=(\n").expect("array start") + "cmd=(\n".len();
    let end = script.find(")\n\"${cmd[@]}\"").expect("array end");
    let array = &script[start..end];
    assert_eq!(clang_wrap::shell::split_response_args(array), relink_command_args(&la, &inputs));
}

#[test]
fn compile_ir_is_where_it_is_looked_for() {
    let ca = parse_compile_args(&strings(&["clang", "-c", "a.c", "-o", "obj/a.o"]), &vec![false, false, true, false, false]);
    let (ir, _, _) = compile_ir_paths(&ca, "/w", "/ir", ".tmp");
    assert_eq!(choose_llvmir_file(&compile_output_path(&ca), "/w", "/ir", true, false), Some(ir));
}

#[test]
fn jobs_follow_the_operands_in_order() {
    let fa = parse_cp_args(&strings(&["-t", "d", "z.o", "a.o", "m.o"]));
    let jobs = file_op_sync_jobs(FileCommand::Cp, &fa, false);
    let sources: Vec<String> = jobs.iter().map(|j| j.source.clone()).collect();
    assert_eq!(sources, fa.sources);
}

#[test]
fn auxiliary_file_by_answer() {
    assert_eq!(aux_file_given("/ir/w/app", AuxFileSuffix::Cmd, true), Some("/ir/w/app_cmd".to_string()));
    assert_eq!(aux_file_given("/ir/w/app", AuxFileSuffix::Log, true), Some("/ir/w/app_log".to_string()));
    assert_eq!(aux_file_given("/ir/w/app", AuxFileSuffix::Verscript, false), None);
}
