use grindlang::cli::{
    hash_source, is_current, missing_entry, parse_args, strip_mark, validate_entry, Args,
    CacheMode, CACHE_FORMAT,
};
use grindlang::{Program, TypeConfig};

fn args(words: &[&str]) -> Result<Option<Args>, String> {
    parse_args(&words.iter().map(|w| w.to_string()).collect())
}

fn given(words: &[&str]) -> Args {
    args(words).unwrap().expect("arguments")
}

fn refused(words: &[&str]) -> String {
    match args(words) {
        Err(e) => e,
        Ok(_) => panic!("accepted: {words:?}"),
    }
}

fn program(src: &str) -> Program {
    grindlang::compile(src, &TypeConfig::default()).unwrap()
}

#[test]
fn a_file_alone_runs_main() {
    let a = given(&["script.lua"]);
    assert_eq!(a.file, "script.lua");
    assert_eq!(a.entry, "main");
    assert_eq!(a.mode, CacheMode::ReadWrite);
    assert_eq!(a.cache_path(), "script.lua.glir");
}

#[test]
fn an_entry_is_named_in_two_ways() {
    assert_eq!(given(&["-c", "total", "s.lua"]).entry, "total");
    assert_eq!(given(&["--call", "total", "s.lua"]).entry, "total");
    assert_eq!(given(&["s.lua", "--call=total"]).entry, "total");
    assert_eq!(given(&["s.lua", "--call="]).entry, "");
}

#[test]
fn cache_options() {
    assert_eq!(given(&["--cache", "s.lua"]).mode, CacheMode::WriteOnly);
    assert_eq!(given(&["--no-cache", "s.lua"]).mode, CacheMode::Disabled);
    assert_eq!(given(&["--cache-file", "x", "s.lua"]).cache_path(), "x");
    assert_eq!(given(&["--cache-file=y", "s.lua"]).cache_path(), "y");
}

#[test]
fn help_wins_over_what_follows() {
    assert!(args(&["-h"]).unwrap().is_none());
    assert!(args(&["s.lua", "--help", "--bogus"]).unwrap().is_none());
}

#[test]
fn a_dash_is_a_file() {
    assert_eq!(given(&["-"]).file, "-");
}

#[test]
fn bad_arguments_are_refused() {
    assert_eq!(refused(&[]), "no script file given (try --help)");
    assert_eq!(refused(&["a", "b"]), "more than one script file given");
    assert_eq!(refused(&["--bogus"]), "unknown option '--bogus' (try --help)");
    assert_eq!(refused(&["a", "-c"]), "'-c' needs an export name");
    assert_eq!(refused(&["a", "--call"]), "'--call' needs an export name");
    assert_eq!(refused(&["a", "--cache-file"]), "'--cache-file' needs a path");
    assert_eq!(
        refused(&["a", "--cache", "--no-cache"]),
        "--cache and --no-cache are mutually exclusive"
    );
    assert_eq!(
        refused(&["a", "--no-cache", "--cache-file", "p"]),
        "--cache-file has no effect with --no-cache"
    );
}

#[test]
fn an_entry_is_a_function_without_parameters() {
    let p = program("K = 1\nfunction main() return 1 end\nfunction add(a, b) return a + b end");
    assert_eq!(validate_entry(&p, "main"), Ok(()));
    assert_eq!(
        validate_entry(&p, "K"),
        Err("entry export 'K' is a constant, not a function; nothing to run.".to_string())
    );
    assert_eq!(
        validate_entry(&p, "add"),
        Err("entry export 'add' takes 2 argument(s); the runner calls it with none. Drive \
             parameterized exports through the embedding API instead."
            .to_string())
    );
    assert_eq!(
        validate_entry(&p, "nope"),
        Err("no export named 'nope'. Runnable exports: main.".to_string())
    );
}

#[test]
fn a_missing_entry_lists_what_can_run() {
    let p = program("function b() return 1 end\nfunction a() return 2 end");
    assert_eq!(missing_entry(&p, "x"), "no export named 'x'. Runnable exports: a, b.");
    let p = program("function add(a, b) return a + b end");
    assert_eq!(
        missing_entry(&p, "x"),
        "no export named 'x', and the module has no zero-argument function to run."
    );
}

#[test]
fn a_leading_mark_is_stripped_once() {
    assert_eq!(strip_mark("\u{feff}K = 1"), "K = 1");
    assert_eq!(strip_mark("\u{feff}\u{feff}K"), "\u{feff}K");
    assert_eq!(strip_mark("K\u{feff}"), "K\u{feff}");
    assert_eq!(strip_mark(""), "");
}

#[test]
fn a_cache_is_current_for_one_source_and_version() {
    let h = hash_source("K = 1");
    assert_eq!(h, hash_source("K = 1"));
    assert_ne!(h, hash_source("K = 2"));
    assert_ne!(hash_source("ab"), hash_source("a"));
    assert!(is_current(CACHE_FORMAT, "1.0", h, "1.0", h));
    assert!(!is_current(CACHE_FORMAT + 1, "1.0", h, "1.0", h));
    assert!(!is_current(CACHE_FORMAT, "1.1", h, "1.0", h));
    assert!(!is_current(CACHE_FORMAT, "1.0", h ^ 1, "1.0", h));
}
