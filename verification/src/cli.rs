//! The decisions of the command-line runner: what its arguments mean, which export can be
//! run, and whether a cached program can be used.
use std::collections::hash_map::DefaultHasher;
use std::hash::Hasher;
use vstd::prelude::*;
use vstd::std_specs::hash::DefaultHasherAdditionalSpecFns;
use vstd::string::*;
use vstd::utf8::encode_utf8;
use crate::ir::{ExportTarget, ExportTargetV, Program, ProgramV};
use crate::names::get_of;
use crate::resolve::strs_v;
use crate::text::{cat2, cat3, cat5, dec, dec_string, own, same};

verus! {

/// What to do with the cache of lowered programs.
#[derive(Clone, Copy, Debug, PartialEq, Eq, Structural)]
pub enum CacheMode {
    /// Default: read a current cache if present, else compile and write one; run.
    ReadWrite,
    /// `--cache`: compile and write the cache, but do not run the script.
    WriteOnly,
    /// `--no-cache`: run the script without reading or writing the cache.
    Disabled,
}

/// A parsed command line.
#[derive(Debug)]
pub struct Args {
    pub file: String,
    pub entry: String,
    pub mode: CacheMode,
    /// Explicit cache path; if there is none, the default is used.
    pub cache_path: Option<String>,
}

pub ghost struct ArgsV {
    pub file: Seq<char>,
    pub entry: Seq<char>,
    pub mode: CacheMode,
    pub cache_path: Option<Seq<char>>,
}

/// The counterpart of an optional text.
pub open spec fn opt_v(s: Option<String>) -> Option<Seq<char>> {
    match s {
        Some(s) => Some(s@),
        None => None,
    }
}

impl View for Args {
    type V = ArgsV;

    open spec fn view(&self) -> ArgsV {
        ArgsV {
            file: self.file@,
            entry: self.entry@,
            mode: self.mode,
            cache_path: opt_v(self.cache_path),
        }
    }
}

/// The path of the cache: the explicit one, or the script's with `.glir` appended.
pub open spec fn cache_path_of(a: ArgsV) -> Seq<char> {
    match a.cache_path {
        Some(p) => p,
        None => a.file + ".glir"@,
    }
}

/// What has been read of a command line.
pub ghost struct Seen {
    pub file: Option<Seq<char>>,
    pub entry: Seq<char>,
    pub cache_path: Option<Seq<char>>,
    pub cache: bool,
    pub no_cache: bool,
}

/// The outcome of a command line: arguments, a request for help, or a complaint.
pub type Parsed = Result<Option<ArgsV>, Seq<char>>;

/// Whether `s` begins with `p`.
pub open spec fn begins(s: Seq<char>, p: Seq<char>) -> bool {
    p.len() <= s.len() && s.subrange(0, p.len() as int) == p
}

/// What follows the first `n` characters.
pub open spec fn after(s: Seq<char>, n: int) -> Seq<char> {
    s.subrange(n, s.len() as int)
}

/// The arguments that everything read comes to.
#[verifier::opaque]
pub open spec fn a_finish(st: Seen) -> Parsed {
    if st.cache && st.no_cache {
        Err("--cache and --no-cache are mutually exclusive"@)
    } else if st.no_cache && st.cache_path is Some {
        Err("--cache-file has no effect with --no-cache"@)
    } else {
        match st.file {
            Some(file) => Ok(
                Some(
                    ArgsV {
                        file,
                        entry: st.entry,
                        mode: if st.no_cache {
                            CacheMode::Disabled
                        } else if st.cache {
                            CacheMode::WriteOnly
                        } else {
                            CacheMode::ReadWrite
                        },
                        cache_path: st.cache_path,
                    },
                ),
            ),
            None => Err("no script file given (try --help)"@),
        }
    }
}

/// Read the arguments from `i` on.
#[verifier::opaque]
pub open spec fn a_args(args: Seq<Seq<char>>, i: int, st: Seen) -> Parsed
    decreases args.len() - i,
{
    if i < 0 || i >= args.len() {
        a_finish(st)
    } else {
        let a = args[i];
        if a == "-h"@ || a == "--help"@ {
            Ok(None)
        } else if a == "-c"@ || a == "--call"@ {
            if i + 1 < args.len() {
                a_args(args, i + 2, Seen { entry: args[i + 1], ..st })
            } else {
                Err("'"@ + a + "' needs an export name"@)
            }
        } else if begins(a, "--call="@) {
            a_args(args, i + 1, Seen { entry: after(a, 7), ..st })
        } else if a == "--cache"@ {
            a_args(args, i + 1, Seen { cache: true, ..st })
        } else if a == "--no-cache"@ {
            a_args(args, i + 1, Seen { no_cache: true, ..st })
        } else if a == "--cache-file"@ {
            if i + 1 < args.len() {
                a_args(args, i + 2, Seen { cache_path: Some(args[i + 1]), ..st })
            } else {
                Err("'--cache-file' needs a path"@)
            }
        } else if begins(a, "--cache-file="@) {
            a_args(args, i + 1, Seen { cache_path: Some(after(a, 13)), ..st })
        } else if begins(a, "-"@) && a != "-"@ {
            Err("unknown option '"@ + a + "' (try --help)"@)
        } else if st.file is Some {
            Err("more than one script file given"@)
        } else {
            a_args(args, i + 1, Seen { file: Some(a), ..st })
        }
    }
}

/// Nothing read yet: the entry point is `main`.
pub open spec fn seen_nothing() -> Seen {
    Seen { file: None, entry: "main"@, cache_path: None, cache: false, no_cache: false }
}

/// The meaning of a command line.
pub open spec fn args_of(args: Seq<Seq<char>>) -> Parsed {
    a_args(args, 0, seen_nothing())
}

/// How many parameters a function of a program has.
pub open spec fn arity_of(p: ProgramV, name: Seq<char>) -> nat {
    match get_of(p.functions, name) {
        Some(f) => f.params.len(),
        None => 0,
    }
}

/// Whether the export number `i` is a function without parameters.
pub open spec fn is_runnable(p: ProgramV, i: int) -> bool {
    match p.exports[i].1 {
        ExportTargetV::Function(f) => match get_of(p.functions, f) {
            Some(f) => f.params.len() == 0,
            None => false,
        },
        ExportTargetV::Const(_) => false,
    }
}

/// The names of the runnable ones among the first `n` exports, separated by commas.
pub open spec fn runnable_list(p: ProgramV, n: int) -> Seq<char>
    decreases n,
{
    if n <= 0 {
        Seq::empty()
    } else if is_runnable(p, n - 1) {
        if has_runnable(p, n - 1) {
            runnable_list(p, n - 1) + ", "@ + p.exports[n - 1].0
        } else {
            p.exports[n - 1].0
        }
    } else {
        runnable_list(p, n - 1)
    }
}

/// Whether one of the first `n` exports is runnable.
pub open spec fn has_runnable(p: ProgramV, n: int) -> bool {
    exists|i: int| 0 <= i < n && #[trigger] is_runnable(p, i)
}

/// The complaint about an entry point that is not exported, with what can be run instead.
pub open spec fn missing_entry_text(p: ProgramV, entry: Seq<char>) -> Seq<char> {
    let n = p.exports.len() as int;
    if has_runnable(p, n) {
        "no export named '"@ + entry + "'. Runnable exports: "@ + runnable_list(p, n) + "."@
    } else {
        "no export named '"@ + entry
            + "', and the module has no zero-argument function to run."@
    }
}

/// What keeps an entry point from being run.
pub open spec fn entry_error(p: ProgramV, entry: Seq<char>) -> Option<Seq<char>> {
    match get_of(p.exports, entry) {
        None => Some(missing_entry_text(p, entry)),
        Some(ExportTargetV::Const(_)) => Some(
            "entry export '"@ + entry + "' is a constant, not a function; nothing to run."@,
        ),
        Some(ExportTargetV::Function(f)) => if arity_of(p, f) != 0 {
            Some(
                "entry export '"@ + entry + "' takes "@ + dec(arity_of(p, f))
                    + " argument(s); the runner calls it with none. Drive parameterized exports through the embedding API instead."@,
            )
        } else {
            None
        },
    }
}

/// Whether a cached program was written by this version, for this source.
pub open spec fn cache_is_current(
    format: u32,
    version: Seq<char>,
    hash: u64,
    own_version: Seq<char>,
    own_hash: u64,
) -> bool {
    format == CACHE_FORMAT && version == own_version && hash == own_hash
}

/// A source without a byte order mark at its start.
pub open spec fn without_mark(src: Seq<char>) -> Seq<char> {
    if src.len() > 0 && src[0] == '\u{feff}' {
        after(src, 1)
    } else {
        src
    }
}

pub proof fn unfold_a_args(args: Seq<Seq<char>>, i: int, st: Seen)
    ensures
        a_args(args, i, st) == ({
            if i < 0 || i >= args.len() {
                a_finish(st)
            } else {
                let a = args[i];
                if a == "-h"@ || a == "--help"@ {
                    Ok(None)
                } else if a == "-c"@ || a == "--call"@ {
                    if i + 1 < args.len() {
                        a_args(args, i + 2, Seen { entry: args[i + 1], ..st })
                    } else {
                        Err("'"@ + a + "' needs an export name"@)
                    }
                } else if begins(a, "--call="@) {
                    a_args(args, i + 1, Seen { entry: after(a, 7), ..st })
                } else if a == "--cache"@ {
                    a_args(args, i + 1, Seen { cache: true, ..st })
                } else if a == "--no-cache"@ {
                    a_args(args, i + 1, Seen { no_cache: true, ..st })
                } else if a == "--cache-file"@ {
                    if i + 1 < args.len() {
                        a_args(args, i + 2, Seen { cache_path: Some(args[i + 1]), ..st })
                    } else {
                        Err("'--cache-file' needs a path"@)
                    }
                } else if begins(a, "--cache-file="@) {
                    a_args(args, i + 1, Seen { cache_path: Some(after(a, 13)), ..st })
                } else if begins(a, "-"@) && a != "-"@ {
                    Err("unknown option '"@ + a + "' (try --help)"@)
                } else if st.file is Some {
                    Err("more than one script file given"@)
                } else {
                    a_args(args, i + 1, Seen { file: Some(a), ..st })
                }
            }
        }),
{
    reveal(a_args);
}

/// Version of the cache's envelope. A cache written in another one is rejected.
pub const CACHE_FORMAT: u32 = 1;

impl Args {
    /// The cache file to use for this run.
    pub fn cache_path(&self) -> (r: String)
        ensures
            r@ == cache_path_of(self@),
    {
        match &self.cache_path {
            Some(p) => p.clone(),
            None => cat2(self.file.as_str(), ".glir"),
        }
    }
}

/// The text after `p`, if `s` begins with it.
fn strip<'a>(s: &'a str, p: &str) -> (r: Option<String>)
    ensures
        match r {
            Some(t) => begins(s@, p@) && t@ == after(s@, p@.len() as int),
            None => !begins(s@, p@),
        },
{
    let n: usize = s.unicode_len();
    let m: usize = p.unicode_len();
    if m > n {
        return None;
    }
    let mut i: usize = 0;
    while i < m
        invariant
            i <= m <= n,
            n == s@.len(),
            m == p@.len(),
            forall|k: int| 0 <= k < i ==> s@[k] == #[trigger] p@[k],
        decreases m - i,
    {
        if s.get_char(i) != p.get_char(i) {
            assert(s@.subrange(0, m as int)[i as int] != p@[i as int]);
            return None;
        }
        i += 1;
    }
    assert(s@.subrange(0, m as int) =~= p@);
    let mut out = own("");
    proof {
        reveal_strlit("");
        assert(out@ =~= s@.subrange(m as int, m as int));
    }
    while i < n
        invariant
            m <= i <= n,
            n == s@.len(),
            out@ == s@.subrange(m as int, i as int),
        decreases n - i,
    {
        out.push(s.get_char(i));
        assert(out@ =~= s@.subrange(m as int, i + 1));
        i += 1;
    }
    Some(out)
}

spec fn parsed(r: Result<Option<Args>, String>) -> Parsed {
    match r {
        Ok(Some(a)) => Ok(Some(a@)),
        Ok(None) => Ok(None),
        Err(e) => Err(e@),
    }
}

fn finish_args(
    file: Option<String>,
    entry: String,
    cache_path: Option<String>,
    cache: bool,
    no_cache: bool,
) -> (r: Result<Option<Args>, String>)
    ensures
        parsed(r) == a_finish(
            (Seen {
                file: opt_v(file),
                entry: entry@,
                cache_path: opt_v(cache_path),
                cache,
                no_cache,
            }),
        ),
{
    proof {
        reveal(a_finish);
    }
    if cache && no_cache {
        return Err(own("--cache and --no-cache are mutually exclusive"));
    }
    if no_cache && cache_path.is_some() {
        return Err(own("--cache-file has no effect with --no-cache"));
    }
    let mode = if no_cache {
        CacheMode::Disabled
    } else if cache {
        CacheMode::WriteOnly
    } else {
        CacheMode::ReadWrite
    };
    match file {
        Some(file) => Ok(Some(Args { file, entry, mode, cache_path })),
        None => Err(own("no script file given (try --help)")),
    }
}

/// Parse the runner's arguments. `Ok(None)` means that help was requested.
pub fn parse_args(args: &Vec<String>) -> (r: Result<Option<Args>, String>)
    ensures
        match r {
            Ok(Some(a)) => args_of(strs_v(args@)) == Ok::<Option<ArgsV>, Seq<char>>(Some(a@)),
            Ok(None) => args_of(strs_v(args@)) == Ok::<Option<ArgsV>, Seq<char>>(None),
            Err(e) => args_of(strs_v(args@)) == Err::<Option<ArgsV>, Seq<char>>(e@),
        },
{
    let ghost av = strs_v(args@);
    let mut file: Option<String> = None;
    let mut entry = own("main");
    let mut cache_path: Option<String> = None;
    let mut saw_cache: bool = false;
    let mut saw_no_cache: bool = false;
    let n: usize = args.len();
    let mut i: usize = 0;
    proof {
        reveal_strlit("--call=");
        reveal_strlit("--cache-file=");
    }
    while i < n
        invariant
            i <= n,
            n == args@.len(),
            av == strs_v(args@),
            "--call="@.len() == 7,
            "--cache-file="@.len() == 13,
            a_args(
                av,
                i as int,
                (Seen {
                    file: opt_v(file),
                    entry: entry@,
                    cache_path: opt_v(cache_path),
                    cache: saw_cache,
                    no_cache: saw_no_cache,
                }),
            ) == args_of(av),
        decreases n - i,
    {
        proof {
            unfold_a_args(
                av,
                i as int,
                Seen {
                    file: opt_v(file),
                    entry: entry@,
                    cache_path: opt_v(cache_path),
                    cache: saw_cache,
                    no_cache: saw_no_cache,
                },
            );
            assert(av[i as int] == args@[i as int]@);
        }
        let arg = args[i].as_str();
        if same(arg, "-h") || same(arg, "--help") {
            return Ok(None);
        } else if same(arg, "-c") || same(arg, "--call") {
            if n - i <= 1 {
                return Err(cat3("'", arg, "' needs an export name"));
            }
            assert(av[i + 1] == args@[i + 1]@);
            entry = args[i + 1].clone();
            i += 1;
        } else if let Some(name) = strip(arg, "--call=") {
            entry = name;
        } else if same(arg, "--cache") {
            saw_cache = true;
        } else if same(arg, "--no-cache") {
            saw_no_cache = true;
        } else if same(arg, "--cache-file") {
            if n - i <= 1 {
                return Err(own("'--cache-file' needs a path"));
            }
            assert(av[i + 1] == args@[i + 1]@);
            cache_path = Some(args[i + 1].clone());
            i += 1;
        } else if let Some(path) = strip(arg, "--cache-file=") {
            cache_path = Some(path);
        } else if strip(arg, "-").is_some() && !same(arg, "-") {
            return Err(cat3("unknown option '", arg, "' (try --help)"));
        } else if file.is_some() {
            return Err(own("more than one script file given"));
        } else {
            file = Some(args[i].clone());
        }
        i += 1;
    }
    proof {
        unfold_a_args(
            av,
            i as int,
            Seen {
                file: opt_v(file),
                entry: entry@,
                cache_path: opt_v(cache_path),
                cache: saw_cache,
                no_cache: saw_no_cache,
            },
        );
    }
    finish_args(file, entry, cache_path, saw_cache, saw_no_cache)
}

fn runnable(program: &Program, i: usize) -> (r: bool)
    requires
        i < program@.exports.len(),
    ensures
        r == is_runnable(program@, i as int),
{
    match program.exports.value(i) {
        ExportTarget::Function(f) => match program.functions.get(f.as_str()) {
            Some(f) => f.params.len() == 0,
            None => false,
        },
        ExportTarget::Const(_) => false,
    }
}

/// The "no such entry export" message, listing the functions without parameters.
pub fn missing_entry(program: &Program, entry: &str) -> (r: String)
    ensures
        r@ == missing_entry_text(program@, entry@),
{
    let ghost p = program@;
    let mut any: bool = false;
    let mut list = own("");
    proof {
        reveal_strlit("");
        assert(list@ =~= runnable_list(p, 0));
    }
    let mut i: usize = 0;
    while i < program.exports.len()
        invariant
            i <= p.exports.len(),
            p == program@,
            any == has_runnable(p, i as int),
            list@ == runnable_list(p, i as int),
        decreases p.exports.len() - i,
    {
        if runnable(program, i) {
            if any {
                list.append(", ");
                list.append(program.exports.key(i).as_str());
            } else {
                list = program.exports.key(i).clone();
            }
            any = true;
            assert(is_runnable(p, i as int));
        }
        assert(has_runnable(p, i + 1) == (has_runnable(p, i as int) || is_runnable(p, i as int))) by {
            if has_runnable(p, i + 1) {
                let w = choose|w: int| 0 <= w < i + 1 && #[trigger] is_runnable(p, w);
                assert(w == i || 0 <= w < i && is_runnable(p, w));
            }
            if has_runnable(p, i as int) {
                let w = choose|w: int| 0 <= w < i && #[trigger] is_runnable(p, w);
                assert(0 <= w < i + 1 && is_runnable(p, w));
            }
        }
        i += 1;
    }
    if any {
        cat5("no export named '", entry, "'. Runnable exports: ", list.as_str(), ".")
    } else {
        cat3(
            "no export named '",
            entry,
            "', and the module has no zero-argument function to run.",
        )
    }
}

/// Check that `entry` names a runnable export: a function taking no arguments.
pub fn validate_entry(program: &Program, entry: &str) -> (r: Result<(), String>)
    ensures
        match r {
            Ok(_) => entry_error(program@, entry@) is None,
            Err(e) => entry_error(program@, entry@) == Some(e@),
        },
{
    match program.exports.get(entry) {
        None => Err(missing_entry(program, entry)),
        Some(ExportTarget::Const(_)) => Err(
            cat3("entry export '", entry, "' is a constant, not a function; nothing to run."),
        ),
        Some(ExportTarget::Function(f)) => {
            let arity: usize = match program.functions.get(f.as_str()) {
                Some(f) => f.params.len(),
                None => 0,
            };
            if arity != 0 {
                let n = dec_string(arity as u64);
                Err(
                    cat5(
                        "entry export '",
                        entry,
                        "' takes ",
                        n.as_str(),
                        " argument(s); the runner calls it with none. Drive parameterized exports through the embedding API instead.",
                    ),
                )
            } else {
                Ok(())
            }
        },
    }
}

/// The byte sequences that identify a source: its bytes, and a closing byte that no text
/// contains.
pub open spec fn hashed_parts(src: Seq<char>) -> Seq<Seq<u8>> {
    seq![encode_utf8(src), seq![0xffu8]]
}

/// A hash of a source.
pub fn hash_source(src: &str) -> (r: u64)
    ensures
        r == DefaultHasher::spec_finish(hashed_parts(src@)),
{
    let mut hasher = DefaultHasher::new();
    hasher.write(src.as_bytes());
    let mut end: Vec<u8> = Vec::new();
    end.push(0xff);
    assert(end@ =~= seq![0xffu8]);
    hasher.write(end.as_slice());
    assert(hasher@ =~= hashed_parts(src@));
    hasher.finish()
}

/// Whether a cached program was written by this version, for this source.
pub fn is_current(format: u32, version: &str, hash: u64, own_version: &str, own_hash: u64) -> (r: bool)
    ensures
        r == cache_is_current(format, version@, hash, own_version@, own_hash),
{
    format == CACHE_FORMAT && same(version, own_version) && hash == own_hash
}

/// A source without a byte order mark at its start.
pub fn strip_mark(src: &str) -> (r: String)
    ensures
        r@ == without_mark(src@),
{
    let n: usize = src.unicode_len();
    let from: usize = if n > 0 && src.get_char(0) == '\u{feff}' {
        1
    } else {
        0
    };
    if from == 0 {
        return own(src);
    }
    let mut out = own("");
    proof {
        reveal_strlit("");
        assert(out@ =~= src@.subrange(1, 1));
    }
    let mut i: usize = 1;
    while i < n
        invariant
            1 <= i <= n,
            n == src@.len(),
            out@ == src@.subrange(1, i as int),
        decreases n - i,
    {
        out.push(src.get_char(i));
        assert(out@ =~= src@.subrange(1, i + 1));
        i += 1;
    }
    out
}

/// Where the cache is not to be used, no path for it can be given; an explicit path comes
/// only from an option.
pub proof fn law_no_path_without_cache(args: Seq<Seq<char>>, i: int, st: Seen)
    ensures
        a_args(args, i, st) matches Ok(Some(a)) ==> (a.mode == CacheMode::Disabled
            ==> a.cache_path is None),
    decreases args.len() - i,
{
    unfold_a_args(args, i, st);
    reveal(a_finish);
    if 0 <= i < args.len() {
        let a = args[i];
        if i + 1 < args.len() {
            law_no_path_without_cache(args, i + 2, Seen { entry: args[i + 1], ..st });
            law_no_path_without_cache(args, i + 2, Seen { cache_path: Some(args[i + 1]), ..st });
        }
        law_no_path_without_cache(args, i + 1, Seen { entry: after(a, 7), ..st });
        law_no_path_without_cache(args, i + 1, Seen { cache: true, ..st });
        law_no_path_without_cache(args, i + 1, Seen { no_cache: true, ..st });
        law_no_path_without_cache(args, i + 1, Seen { cache_path: Some(after(a, 13)), ..st });
        law_no_path_without_cache(args, i + 1, Seen { file: Some(a), ..st });
    }
}

/// A runnable entry point is an exported function without parameters, and nothing else is.
pub proof fn law_entry_is_runnable(p: ProgramV, entry: Seq<char>)
    ensures
        entry_error(p, entry) is None <==> (get_of(p.exports, entry) matches Some(
            ExportTargetV::Function(f),
        ) && arity_of(p, f) == 0),
{
}

} // verus!
