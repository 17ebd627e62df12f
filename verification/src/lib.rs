//! The decisions of a set of wrappers around `clang`, `ar`, `cp`, `mv`, `ln`, `install` and
//! `strip` that keep an LLVM IR tree beside a build: for each object file, library and
//! program, its bitcode sits in the IR directory under the product's absolute path, with a
//! log of its merge (`_log`), a script that re-links it (`_cmd`) and its version script
//! (`_verscript`).
//!
//! Every function here states what it computes; the wrappers themselves (process, file
//! system and environment) live in the program around this library.

/// Character-level operations on strings.
pub mod text;
/// Paths, and where a product's IR lies in the IR tree.
pub mod paths;
/// Shell words and response files.
pub mod shell;
/// What the environment and the command line say; where tools are found.
pub mod settings;
/// Compile commands and the IR they produce.
pub mod compile;
/// Link commands and the IR inputs of a link.
pub mod link;
/// Libraries named on a link command line, and linker scripts.
pub mod libraries;
/// The re-link script written beside a merged bitcode file.
pub mod cmd_script;
/// Where the IR of a product and its auxiliary files are found.
pub mod llvmir_files;
/// `cp`, `mv`, `ln` and `strip`, repeated on the IR tree.
pub mod file_ops;
/// `ar`, and the IR of an archive.
pub mod archive;
/// `install`, and where installed IR goes.
pub mod install;
/// Meson's list of installed products.
pub mod meson;
/// The order of the work of a link wrapper, step by step.
pub mod link_run;
