use clang_wrap::archive::{archive_object_members, ar_command_name, llvm_link_version_source, parse_ar_args};
use clang_wrap::compile::{clang_command_name, get_march_for_target, parse_clang_version, parse_compile_target};
use clang_wrap::libraries::{
    library_search_candidates, linker_script_inputs, read_library_file, script_entry, script_file_search,
    wants_library_text, LibraryFile, ScriptEntry,
};
use clang_wrap::settings::{
    clang_version_suffix, find_llvm_tool, first_other_executable, first_present, get_emit_llvmir_opt,
    get_llvm_ir_dir, get_program_name, is_debug_mode, is_emit_llvmir_enabled, path_candidate_files,
    resolve_cmd_name,
};

fn strings(v: &[&str]) -> Vec<String> {
    v.iter().map(|s| s.to_string()).collect()
}

#[test]
fn ir_directory_from_environment() {
    assert_eq!(get_llvm_ir_dir(Some("/ir"), Some("/home/u")), "/ir");
    assert_eq!(get_llvm_ir_dir(Some(""), Some("/home/u")), "/home/u/tmp/llvmir");
    assert_eq!(get_llvm_ir_dir(None, Some("/h")), "/h/tmp/llvmir");
    assert_eq!(get_llvm_ir_dir(Some("/only"), None), "/only");
}

#[test]
fn switches_are_on_unless_empty_or_zero() {
    assert!(is_debug_mode(Some("1")));
    assert!(is_debug_mode(Some("yes")));
    assert!(!is_debug_mode(Some("0")));
    assert!(!is_debug_mode(Some("")));
    assert!(!is_debug_mode(None));
    assert!(is_emit_llvmir_enabled(Some("-O2")));
    assert!(!is_emit_llvmir_enabled(Some("0")));
    assert_eq!(get_emit_llvmir_opt(Some("-O2 -g")), Some("-O2 -g".to_string()));
    assert_eq!(get_emit_llvmir_opt(Some("0")), None);
    assert_eq!(get_emit_llvmir_opt(None), None);
}

#[test]
fn program_name_is_the_file_name() {
    assert_eq!(get_program_name(&strings(&["/usr/bin/clang-18", "-c"])), "clang-18");
    assert_eq!(get_program_name(&strings(&["cp-wrap"])), "cp-wrap");
    assert_eq!(get_program_name(&strings(&["/"])), "unknown");
}

#[test]
fn wrapper_names_resolve_to_commands() {
    assert_eq!(resolve_cmd_name("cp-wrap", "cp-wrap", "cp"), "cp");
    assert_eq!(resolve_cmd_name("gcp", "cp-wrap", "cp"), "gcp");
    assert_eq!(clang_command_name("clang-wrap"), "clang");
    assert_eq!(clang_command_name("clangxx"), "clang++");
    assert_eq!(clang_command_name("clang-18"), "clang-18");
    assert_eq!(ar_command_name("ar-wrap"), "ar");
    assert_eq!(ar_command_name("llvm-ar-wrap"), "llvm-ar");
    assert_eq!(ar_command_name("x86_64-linux-gnu-ar"), "x86_64-linux-gnu-ar");
}

#[test]
fn compiler_version_suffixes() {
    assert_eq!(clang_version_suffix("clang-18"), "-18");
    assert_eq!(clang_version_suffix("clang18"), "-18");
    assert_eq!(clang_version_suffix("clang++-18"), "-18");
    assert_eq!(clang_version_suffix("clang++22"), "-22");
    assert_eq!(clang_version_suffix("clang++"), "");
    assert_eq!(clang_version_suffix("clang"), "");
    assert_eq!(clang_version_suffix("clangd"), "");
    assert_eq!(clang_version_suffix("gcc-12"), "");
}

#[test]
fn search_path_places() {
    assert_eq!(path_candidate_files("/a:/b/c", "ld"), strings(&["/a/ld", "/b/c/ld"]));
    assert_eq!(path_candidate_files("", "ld"), strings(&["ld"]));
}

#[test]
fn the_running_program_is_skipped() {
    let cands = strings(&["/a/cc", "/b/cc", "/c/cc"]);
    let canonical = vec![None, Some("/self/cc".to_string()), Some("/real/cc".to_string())];
    assert_eq!(
        first_other_executable(&cands, &vec![false, true, true], &canonical, "/self/cc"),
        Some("/c/cc".to_string())
    );
    assert_eq!(first_other_executable(&cands, &vec![false, true, false], &canonical, "/self/cc"), None);
    let unresolved = vec![None, None, None];
    assert_eq!(
        first_other_executable(&cands, &vec![false, true, true], &unresolved, "/self/cc"),
        Some("/b/cc".to_string())
    );
}

#[test]
fn first_existing_place() {
    let cands = strings(&["/a/t", "/b/t"]);
    assert_eq!(first_present(&cands, &vec![false, true]), Some("/b/t".to_string()));
    assert_eq!(first_present(&cands, &vec![false, false]), None);
}

#[test]
fn llvm_tool_without_search_path_is_its_name() {
    assert_eq!(find_llvm_tool("llvm-link", "clang-18", None), "llvm-link");
}

#[test]
fn march_by_target() {
    assert_eq!(get_march_for_target("riscv64-unknown-linux-gnu"), Some("-march=rva23u64"));
    assert_eq!(get_march_for_target("x86_64-pc-linux-gnu"), Some("-march=x86-64-v4"));
    assert_eq!(get_march_for_target("my-x86-64-box"), Some("-march=x86-64-v4"));
    assert_eq!(get_march_for_target("aarch64-linux-gnu"), None);
}

#[test]
fn compiler_version_output() {
    let out = "clang version 18.1.8\nTarget: x86_64-pc-linux-gnu\nThread model: posix\n";
    assert_eq!(parse_compile_target(out), Some("x86_64-pc-linux-gnu".to_string()));
    assert_eq!(parse_clang_version(out), Some("clang version 18.1.8".to_string()));
    assert_eq!(parse_compile_target("no target\n"), None);
    assert_eq!(parse_clang_version(""), None);
}

#[test]
fn bsd_operation_letters_and_archive() {
    let a = parse_ar_args(&strings(&["csrDT", "libutil.a", "util.o"]));
    assert!(a.create_or_replace);
    assert_eq!(a.archive, Some("libutil.a".to_string()));
    assert_eq!(a.members, strings(&["util.o"]));
}

#[test]
fn gnu_options_and_plugin() {
    let a = parse_ar_args(&strings(&["--plugin", "/p/lto.so", "-rcs", "libx.a", "a.o", "b.o"]));
    assert!(a.create_or_replace);
    assert_eq!(a.archive, Some("libx.a".to_string()));
    assert_eq!(a.members, strings(&["a.o", "b.o"]));
    let a = parse_ar_args(&strings(&["t", "libx.a"]));
    assert!(!a.create_or_replace);
    assert_eq!(a.archive, Some("t".to_string()));
    assert_eq!(a.members, strings(&["libx.a"]));
}

#[test]
fn archive_members_that_are_objects() {
    assert_eq!(
        archive_object_members(&strings(&["a.o", "b.c", "dir/c.o", "d.obj", ".o"])),
        strings(&["a.o", "dir/c.o"])
    );
}

#[test]
fn llvm_link_follows_the_compiler() {
    assert_eq!(llvm_link_version_source(Some("/usr/bin/clang-18"), None, "ar"), "clang-18");
    assert_eq!(llvm_link_version_source(Some(""), Some("clang++-17"), "ar"), "clang++-17");
    assert_eq!(llvm_link_version_source(None, None, "llvm-ar"), "llvm-ar");
}

#[test]
fn library_search_places() {
    assert_eq!(
        library_search_candidates("foo", &strings(&["/a", "/b"])),
        strings(&["/a/libfoo.so", "/a/libfoo.a", "/b/libfoo.so", "/b/libfoo.a"])
    );
    assert_eq!(library_search_candidates(":libbar.so.1", &strings(&["/a"])), strings(&["/a/libbar.so.1"]));
    assert_eq!(library_search_candidates("foo", &Vec::new()), Vec::<String>::new());
}

#[test]
fn linker_script_input_command() {
    assert_eq!(
        linker_script_inputs("INPUT(libprimary.so.1.0.0 -lscriptdep)\n"),
        Some(strings(&["libprimary.so.1.0.0", "-lscriptdep"]))
    );
}

#[test]
fn linker_script_group_with_comments_and_as_needed() {
    let script = "/* GNU ld script\n   Use the shared library */\nOUTPUT_FORMAT(elf64-x86-64)\nGROUP ( /lib/libc.so.6 /usr/lib/libc_nonshared.a  AS_NEEDED ( /lib64/ld-linux-x86-64.so.2 ) )\n";
    assert_eq!(
        linker_script_inputs(script),
        Some(strings(&["/lib/libc.so.6", "/usr/lib/libc_nonshared.a", "/lib64/ld-linux-x86-64.so.2"]))
    );
}

#[test]
fn text_that_is_no_linker_script() {
    assert_eq!(linker_script_inputs("int main(void) { return 0; }"), None);
    assert_eq!(linker_script_inputs("\u{7f}ELF\u{2}\u{1}"), None);
    assert_eq!(linker_script_inputs("/* INPUT(a) */"), None);
}

#[test]
fn script_entries_and_their_places() {
    assert!(matches!(script_entry("-lm"), ScriptEntry::Library(n) if n == "m"));
    assert!(matches!(script_entry("libx.so"), ScriptEntry::File(f) if f == "libx.so"));
    assert_eq!(script_file_search("libx.so", &strings(&["/a"])), strings(&["libx.so", "/a/libx.so"]));
    assert_eq!(script_file_search("/abs/x", &strings(&["/a"])), strings(&["/abs/x"]));
}

#[test]
fn library_files_read_as_scripts_or_names() {
    assert!(wants_library_text(Some(40), 0));
    assert!(!wants_library_text(Some(1 << 20), 0));
    assert!(!wants_library_text(None, 0));
    assert!(!wants_library_text(Some(40), 8));
    let script = "INPUT(libprimary.so.1.0.0 -lscriptdep)\n";
    match read_library_file("/l/libwrapscript.so", Some(40), Some(script), 0) {
        LibraryFile::Script(entries) => {
            assert_eq!(entries.len(), 2);
            assert!(matches!(&entries[0], ScriptEntry::File(f) if f == "libprimary.so.1.0.0"));
            assert!(matches!(&entries[1], ScriptEntry::Library(n) if n == "scriptdep"));
        }
        _ => panic!("expected a linker script"),
    }
    assert!(matches!(
        read_library_file("/l/libwrapscript.so", Some(40), Some(script), 8),
        LibraryFile::Named(n) if n == "libwrapscript.so"
    ));
    assert!(matches!(
        read_library_file("/l/libx.so.1.0.0", Some(9000), None, 0),
        LibraryFile::Named(n) if n == "libx.so.1.0.0"
    ));
    assert!(matches!(read_library_file("/", None, None, 0), LibraryFile::Unnamed));
}
