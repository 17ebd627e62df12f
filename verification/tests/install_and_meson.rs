use clang_wrap::install::{
    add_if_exists, cmd_file_of, destination_filename, install_candidate_files, install_destination_for,
    is_executable, is_shared_library, llvmir_copy_step, llvmir_install_dir, mode_has_execute_bit,
    parse_install_args, plan_installed_llvmir, rewrite_cmd, soname_in_cmd,
};
use clang_wrap::meson::{meson_install_target, meson_install_targets, read_meson_manifest, MesonTarget};

fn strings(v: &[&str]) -> Vec<String> {
    v.iter().map(|s| s.to_string()).collect()
}

#[test]
fn install_mode_and_destination() {
    let ia = parse_install_args(&strings(&["-m", "755", "prog", "image/usr/bin/prog"]));
    assert!(!ia.create_dirs);
    assert_eq!(ia.mode, Some("755".to_string()));
    assert_eq!(ia.sources, strings(&["prog"]));
    assert_eq!(ia.destination, Some("image/usr/bin/prog".to_string()));
    assert_eq!(ia.target_dir, None);
}

#[test]
fn install_directories_keep_all_operands() {
    let ia = parse_install_args(&strings(&["-d", "a", "b"]));
    assert!(ia.create_dirs);
    assert_eq!(ia.sources, strings(&["a", "b"]));
    assert_eq!(ia.destination, None);
}

#[test]
fn install_target_directory_forms() {
    let ia = parse_install_args(&strings(&["-t", "/dest", "a", "b", "-p"]));
    assert_eq!(ia.target_dir, Some("/dest".to_string()));
    assert_eq!(ia.sources, strings(&["a", "b"]));
    assert_eq!(ia.destination, None);
    let ia = parse_install_args(&strings(&["--target-directory=/x", "--mode=0644", "a"]));
    assert_eq!(ia.target_dir, Some("/x".to_string()));
    assert_eq!(ia.mode, Some("0644".to_string()));
    let ia = parse_install_args(&strings(&["-t/y", "-m0755", "a"]));
    assert_eq!(ia.target_dir, Some("/y".to_string()));
    assert_eq!(ia.mode, Some("0755".to_string()));
    let ia = parse_install_args(&strings(&["a", "-t"]));
    assert_eq!(ia.target_dir, None);
    assert_eq!(ia.sources, strings(&["a"]));
}

#[test]
fn install_destination_in_target_directory_or_destination() {
    let ia = parse_install_args(&strings(&["-t", "/dest", "sub/a"]));
    assert_eq!(install_destination_for(&ia, "sub/a", false), Some("/dest/a".to_string()));
    let ia = parse_install_args(&strings(&["sub/a", "/d"]));
    assert_eq!(install_destination_for(&ia, "sub/a", true), Some("/d/a".to_string()));
    assert_eq!(install_destination_for(&ia, "sub/a", false), Some("/d".to_string()));
    let ia = parse_install_args(&strings(&["only"]));
    assert_eq!(install_destination_for(&ia, "only", false), None);
}

#[test]
fn shared_library_names() {
    assert!(is_shared_library("/l/libfoo.so"));
    assert!(is_shared_library("libfoo.so.1.2"));
    assert!(is_shared_library("libfoo.dylib"));
    assert!(is_shared_library("libfoo.1.dylib.x"));
    assert!(!is_shared_library("foo.o"));
    assert!(!is_shared_library("libfoo.a"));
    assert!(!is_shared_library("libx.so.o"));
}

#[test]
fn octal_modes_with_execute_bits() {
    assert!(mode_has_execute_bit("755"));
    assert!(mode_has_execute_bit(" 0755 "));
    assert!(mode_has_execute_bit("7"));
    assert!(!mode_has_execute_bit("0644"));
    assert!(!mode_has_execute_bit("1000"));
    assert!(!mode_has_execute_bit("u+x"));
    assert!(!mode_has_execute_bit(""));
    assert!(!mode_has_execute_bit("0"));
    assert!(!mode_has_execute_bit("0o755"));
}

#[test]
fn executables_by_name_mode_and_permissions() {
    assert!(is_executable("/usr/bin/prog", None, None));
    assert!(is_executable("prog", Some("755"), None));
    assert!(is_executable("prog", None, Some(0o755)));
    assert!(!is_executable("prog", None, Some(0o644)));
    assert!(!is_executable("prog", None, None));
    assert!(!is_executable("/usr/bin/libx.so", Some("755"), Some(0o755)));
    assert!(!is_executable("x.o", Some("755"), None));
    assert!(!is_executable("x.a", None, Some(0o755)));
}

#[test]
fn shared_library_ir_goes_under_lib_llvmir() {
    assert_eq!(llvmir_install_dir("/img/usr/lib/libdemo.so.1.2.3", true, false), "/img/usr/lib/llvmir");
    assert_eq!(
        llvmir_install_dir("/img/usr/lib/x86_64/libdemo.so", true, false),
        "/img/usr/lib/llvmir"
    );
    assert_eq!(llvmir_install_dir("/opt/libdemo.so", true, false), "/opt/llvmir");
}

#[test]
fn executable_ir_goes_under_lib_llvmir_bin() {
    assert_eq!(llvmir_install_dir("/img/usr/bin/prog", false, true), "/img/usr/lib/llvmir-bin");
    assert_eq!(llvmir_install_dir("image/usr/bin/prog", false, true), "image/usr/lib/llvmir-bin");
    assert_eq!(
        llvmir_install_dir("/img/usr/bin/sub/prog", false, true),
        "/img/usr/lib/llvmir-bin"
    );
}

#[test]
fn other_ir_goes_beside_the_product() {
    assert_eq!(llvmir_install_dir("/img/share/data", false, false), "/img/share/llvmir");
}

#[test]
fn soname_from_relink_script() {
    let script = "cmd=(\n  clang-21\n  -Wl,-soname,libdemo.so.1\n  ./libdemo.so\n)\n";
    assert_eq!(soname_in_cmd(script), Some("libdemo.so.1".to_string()));
    assert_eq!(soname_in_cmd("-Wl,-h=libx.so.2"), Some("libx.so.2".to_string()));
    assert_eq!(soname_in_cmd("-Wl,-soname, -Wl,-h,liby.so"), Some("liby.so".to_string()));
    assert_eq!(soname_in_cmd("-Wl,-soname=libz.so.3"), Some("libz.so.3".to_string()));
    assert_eq!(soname_in_cmd("no soname here"), None);
}

#[test]
fn relink_script_among_files() {
    let files = strings(&["/ir/a", "/ir/a.bc", "/ir/a_cmd", "/ir/b_cmd"]);
    assert_eq!(cmd_file_of(&files), Some("/ir/a_cmd".to_string()));
    assert_eq!(cmd_file_of(&strings(&["/ir/a"])), None);
}

#[test]
fn shared_library_files_take_the_soname() {
    let installed = "/img/usr/lib/libdemo.so.1.2.3";
    let so = Some("libdemo.so.1");
    assert_eq!(destination_filename("/ir/libdemo.so", so, "libdemo.so", installed), "libdemo.so.1");
    assert_eq!(destination_filename("/ir/libdemo.so_cmd", so, "libdemo.so", installed), "libdemo.so.1_cmd");
    assert_eq!(
        destination_filename("/ir/libdemo.so_verscript", so, "libdemo.so", installed),
        "libdemo.so.1_verscript"
    );
    assert_eq!(destination_filename("/ir/libdemo.bc", so, "libdemo.so", installed), "libdemo.so.1.bc");
    assert_eq!(
        destination_filename("/ir/libdemo.so", None, "libdemo.so", installed),
        "libdemo.so.1.2.3"
    );
}

#[test]
fn temporary_names_lose_their_t() {
    assert_eq!(destination_filename("/ir/progT", None, "progT", "/img/bin/prog"), "prog");
    assert_eq!(destination_filename("/ir/prog.bc", None, "progT", "/img/bin/prog"), "prog.bc");
    assert_eq!(destination_filename("/ir/prog", None, "prog", "/img/bin/prog"), "prog");
}

#[test]
fn relink_script_is_rewritten_for_the_installed_name() {
    let script = "#!/bin/bash\n# Original output: libdemo.so\ncmd=(\n  ./libdemo.so\n  -Wl,--version-script=./libdemo.so_verscript\n  --output=output/libdemo.so\n)\n";
    assert_eq!(
        rewrite_cmd(script, "libdemo.so", "libdemo.so.1"),
        "#!/bin/bash\n# Original output: libdemo.so.1\ncmd=(\n  ./libdemo.so.1\n  -Wl,--version-script=./libdemo.so.1_verscript\n  --output=output/libdemo.so.1\n)\n"
    );
    assert_eq!(rewrite_cmd("x libdemo.so_verscript", "libdemo.so", "libd.so.2"), "x libd.so.2_verscript");
}

#[test]
fn rewrite_under_the_same_name_changes_nothing() {
    let script = "# Original output: a\n./a output/a a_verscript ./b\n";
    assert_eq!(rewrite_cmd(script, "a", "a"), script);
}

#[test]
fn install_copy_steps() {
    let s = llvmir_copy_step("/ir/a_cmd", "/img/lib/llvmir/b_cmd");
    assert_eq!(s.cmd_names, Some(("a".to_string(), "b".to_string())));
    assert_eq!(s.mode, 0o755);
    let s = llvmir_copy_step("/ir/a.bc", "/img/lib/llvmir/b.bc");
    assert_eq!(s.cmd_names, None);
    assert_eq!(s.mode, 0o644);
    assert_eq!(s.from, "/ir/a.bc");
    assert_eq!(s.to, "/img/lib/llvmir/b.bc");
}

#[test]
fn install_plan_for_a_shared_library() {
    let files = strings(&["/ir/w/libdemo.so", "/ir/w/libdemo.so_cmd"]);
    let plan = plan_installed_llvmir(
        "/w/libdemo.so",
        "/img/usr/lib/libdemo.so.1.2.3",
        &files,
        None,
        Some("libdemo.so.1"),
        None,
        None,
    )
    .expect("a plan for two files");
    assert_eq!(plan.dir, "/img/usr/lib/llvmir");
    assert_eq!(plan.steps.len(), 2);
    assert_eq!(plan.steps[0].to, "/img/usr/lib/llvmir/libdemo.so.1");
    assert_eq!(plan.steps[0].cmd_names, None);
    assert_eq!(plan.steps[1].to, "/img/usr/lib/llvmir/libdemo.so.1_cmd");
    assert_eq!(
        plan.steps[1].cmd_names,
        Some(("libdemo.so".to_string(), "libdemo.so.1".to_string()))
    );
}

#[test]
fn install_plan_for_an_executable() {
    let files = strings(&["/ir/w/prog.bc"]);
    let plan = plan_installed_llvmir("prog", "image/usr/bin/prog", &files, Some("755"), None, None, None)
        .expect("a plan for one file");
    assert_eq!(plan.dir, "image/usr/lib/llvmir-bin");
    assert_eq!(plan.steps[0].to, "image/usr/lib/llvmir-bin/prog.bc");
}

#[test]
fn nothing_found_plans_nothing() {
    assert!(plan_installed_llvmir("prog", "image/usr/bin/prog", &Vec::new(), None, None, None, None).is_none());
}

#[test]
fn candidates_of_a_temporary_product() {
    assert_eq!(
        install_candidate_files("/w/progT", "/cwd", "/ir", None),
        strings(&[
            "/ir/w/progT",
            "/ir/w/progT.bc",
            "/ir/w/progT_cmd",
            "/ir/w/progT_verscript",
            "/ir/w/prog",
            "/ir/w/prog.bc",
            "/ir/w/prog_cmd",
            "/ir/w/prog_verscript",
        ])
    );
}

#[test]
fn candidates_of_a_resolved_link() {
    assert_eq!(
        install_candidate_files("lib.so", "/w", "/ir", Some("/real/lib.so".to_string())),
        strings(&[
            "/ir/w/lib.so",
            "/ir/w/lib.bc",
            "/ir/w/lib.so_cmd",
            "/ir/w/lib.so_verscript",
            "/ir/real/lib.so",
            "/ir/real/lib.bc",
            "/ir/real/lib.so_cmd",
            "/ir/real/lib.so_verscript",
        ])
    );
}

#[test]
fn found_files_are_kept_once() {
    let mut files: Vec<String> = Vec::new();
    add_if_exists(&mut files, "/ir/a".to_string(), true);
    add_if_exists(&mut files, "/ir/a".to_string(), true);
    add_if_exists(&mut files, "/ir/b".to_string(), false);
    add_if_exists(&mut files, "/ir/c".to_string(), true);
    assert_eq!(files, strings(&["/ir/a", "/ir/c"]));
}

#[test]
fn meson_manifest_entries_in_key_order() {
    let text = "{\"/b/libx.so\": \"/usr/lib/libx.so\", \"/b/a\": \"/usr/bin/a\"}";
    let entries = match read_meson_manifest(text) {
        Ok(e) => e,
        Err(e) => panic!("manifest refused: {}", e.message),
    };
    assert_eq!(
        entries,
        vec![
            ("/b/a".to_string(), "/usr/bin/a".to_string()),
            ("/b/libx.so".to_string(), "/usr/lib/libx.so".to_string()),
        ]
    );
}

#[test]
fn meson_manifest_errors() {
    for bad in ["not json", "[1, 2]", "{\"a\": 1}"] {
        match read_meson_manifest(bad) {
            Ok(_) => panic!("accepted {bad}"),
            Err(e) => assert!(!e.message.is_empty()),
        }
    }
}

#[test]
fn meson_entries_become_targets() {
    assert!(matches!(meson_install_target("libx.so", "/usr/lib/x", "/dest"), MesonTarget::Skip));
    assert!(matches!(meson_install_target("/b/x", "usr/lib/x", "/dest"), MesonTarget::NotAbsolute));
    match meson_install_target("/b/x", "/usr/lib/x", "/dest") {
        MesonTarget::Install(p) => assert_eq!(p, "/dest/usr/lib/x"),
        _ => panic!("expected an installation"),
    }
    let entries = vec![("rel".to_string(), "/x".to_string()), ("/b/y".to_string(), "/y".to_string())];
    let t = meson_install_targets(&entries, "/d");
    assert_eq!(t.len(), 2);
    assert!(matches!(t[0], MesonTarget::Skip));
    assert!(matches!(&t[1], MesonTarget::Install(p) if p == "/d/y"));
}

#[test]
fn relink_script_without_the_old_name_is_copied_unchanged() {
    let script = "#!/bin/bash\necho other\n";
    assert_eq!(rewrite_cmd(script, "libdemo.so", "libdemo.so.1"), script);
}

#[test]
fn install_owner_group_and_suffix_values_are_no_operands() {
    let ia = parse_install_args(&strings(&["-o", "root", "-g", "wheel", "-m", "0644", "a.so", "/usr/lib/a.so"]));
    assert_eq!(ia.sources, strings(&["a.so"]));
    assert_eq!(ia.destination, Some("/usr/lib/a.so".to_string()));
    assert_eq!(ia.mode, Some("0644".to_string()));
    let ia = parse_install_args(&strings(&["--owner", "u", "--group", "g", "-S", ".bak", "--suffix", "~", "x", "y"]));
    assert_eq!(ia.sources, strings(&["x"]));
    assert_eq!(ia.destination, Some("y".to_string()));
}
