//! Argument parsing. Every bare positional argument is unambiguously a lane
//! name; the operation is chosen entirely by flags.
//!
//! [`parse`] is pure and takes the argument list explicitly. `-h`/`--help` and
//! `-V`/`--version` anywhere win over the rest of the arguments. Words after
//! `--` are positional whatever they look like, which is what lets a lane be
//! named `-x`. With no operation flag and no name, `lane` lists. With no
//! operation flag and one name, `lane <name>` enters it, creating it first if
//! it does not exist.

use vstd::prelude::*;
use crate::flags::{
    after_flag, after_lookup, arguments_from, find_word, held_words, holds_only_text, index_from,
    key_index, long_key, lookup_spec, remaining_words, short_key, take_flag, take_long_flag,
    take_value, lemma_absent_flag_keeps_words, LookupV, ValueLookup,
};
use crate::help::Help;
use crate::text::{
    chars_of, extend_chars, extend_str, has_infix, has_prefix, has_suffix, str_eq, string_of,
};

verus! {

broadcast use vstd::string::group_string_axioms;

/// The version `-V` prints.
pub const VERSION: &'static str = "0.1.0";

#[derive(Debug, Clone, PartialEq, Eq)]
pub struct OpenArgs {
    pub name: String,
    pub base: Option<String>,
    pub dirty: bool,
}

#[derive(Debug, Clone, PartialEq, Eq)]
pub struct DeleteArgs {
    pub names: Vec<String>,
    pub force: bool,
}

/// Which shell a rendered script (`--shellenv`, `--completions`) targets.
/// `bash`, `zsh`, and `posix` all render the same POSIX `shellenv` form;
/// `--completions` has no `Posix` script and rejects the word.
#[derive(Debug, Clone, Copy, PartialEq, Eq)]
pub enum Shell {
    Fish,
    Bash,
    Zsh,
    Posix,
}

/// What the argument list asked for. `Help` and `Version` are answers in their
/// own right rather than a flag on an operation, because neither reaches the
/// store.
#[derive(Debug, Clone, PartialEq, Eq)]
pub enum Parsed {
    List { json: bool, global: bool, refresh: bool, disk: bool },
    Open(OpenArgs),
    Delete(DeleteArgs),
    Info { name: Option<String>, json: bool },
    Prune { dry_run: bool },
    Init,
    Exit,
    Shellenv(Shell),
    Completions(Shell),
    Help(Help),
    Version,
}

/// A usage error: what was wrong with the arguments.
#[derive(Debug, Clone, PartialEq, Eq)]
pub enum ArgError {
    /// A word nothing accepts; one that looks like a flag is told about `--`.
    Unexpected { token: String },
    /// A required argument is absent.
    Missing { name: String },
    /// A shell word that names no script; `with_posix` says whether `posix`
    /// was one of the accepted words.
    UnknownShell { got: String, with_posix: bool },
    /// Two operation flags given together.
    Conflict { first: String, second: String },
    /// A modifier given where its operation is not.
    Misplaced { flag: String },
    /// An option given as the last word, with no value after it.
    NoValue { key: String },
}

/// [`Parsed`] as plain values.
#[verifier::ext_equal]
pub enum ParsedV {
    List { json: bool, global: bool, refresh: bool, disk: bool },
    Open { name: Seq<char>, base: Option<Seq<char>>, dirty: bool },
    Delete { names: Seq<Seq<char>>, force: bool },
    Info { name: Option<Seq<char>>, json: bool },
    Prune { dry_run: bool },
    Init,
    Exit,
    Shellenv(Shell),
    Completions(Shell),
    Help(Help),
    Version,
}

/// [`ArgError`] as plain values.
#[verifier::ext_equal]
pub enum ArgErrorV {
    Unexpected(Seq<char>),
    Missing(Seq<char>),
    UnknownShell(Seq<char>, bool),
    Conflict(Seq<char>, Seq<char>),
    Misplaced(Seq<char>),
    NoValue(Seq<char>),
}

impl Parsed {
    pub open spec fn view_spec(&self) -> ParsedV {
        match self {
            Parsed::List { json, global, refresh, disk } => ParsedV::List {
                json: *json,
                global: *global,
                refresh: *refresh,
                disk: *disk,
            },
            Parsed::Open(o) => ParsedV::Open {
                name: o.name@,
                base: o.base.deep_view(),
                dirty: o.dirty,
            },
            Parsed::Delete(d) => ParsedV::Delete { names: d.names.deep_view(), force: d.force },
            Parsed::Info { name, json } => ParsedV::Info { name: name.deep_view(), json: *json },
            Parsed::Prune { dry_run } => ParsedV::Prune { dry_run: *dry_run },
            Parsed::Init => ParsedV::Init,
            Parsed::Exit => ParsedV::Exit,
            Parsed::Shellenv(s) => ParsedV::Shellenv(*s),
            Parsed::Completions(s) => ParsedV::Completions(*s),
            Parsed::Help(h) => ParsedV::Help(*h),
            Parsed::Version => ParsedV::Version,
        }
    }
}

impl ArgError {
    pub open spec fn view_spec(&self) -> ArgErrorV {
        match self {
            ArgError::Unexpected { token } => ArgErrorV::Unexpected(token@),
            ArgError::Missing { name } => ArgErrorV::Missing(name@),
            ArgError::UnknownShell { got, with_posix } => ArgErrorV::UnknownShell(
                got@,
                *with_posix,
            ),
            ArgError::Conflict { first, second } => ArgErrorV::Conflict(first@, second@),
            ArgError::Misplaced { flag } => ArgErrorV::Misplaced(flag@),
            ArgError::NoValue { key } => ArgErrorV::NoValue(key@),
        }
    }
}

/// The outcome of [`parse`] as plain values.
pub open spec fn outcome_view(r: Result<Parsed, ArgError>) -> Result<ParsedV, ArgErrorV> {
    match r {
        Ok(p) => Ok(p.view_spec()),
        Err(e) => Err(e.view_spec()),
    }
}

/// What closes every usage error: the usage line, and where to read more.
pub open spec fn usage_tail() -> Seq<char> {
    "\n\nUsage: "@ + Help::Root.usage_spec() + "\n\nFor more information, try '"@
        + Help::Root.invocation_spec() + " --help'."@
}

/// The message a usage error prints.
pub open spec fn message_spec(e: ArgErrorV) -> Seq<char> {
    match e {
        ArgErrorV::Unexpected(t) => "unexpected argument '"@ + t + "' found"@ + (if dashed(t) {
            "\n\n  tip: to pass '"@ + t + "' as a value, use '-- "@ + t + "'"@
        } else {
            Seq::empty()
        }) + usage_tail(),
        ArgErrorV::Missing(n) => "the following required arguments were not provided:\n"@
            + "  "@ + n + usage_tail(),
        ArgErrorV::UnknownShell(g, with_posix) => "unknown shell '"@ + g
            + "', expected one of: "@ + (if with_posix {
            "fish, bash, zsh, posix"@
        } else {
            "fish, bash, zsh"@
        }) + usage_tail(),
        ArgErrorV::Conflict(a, b) => a + " cannot be combined with "@ + b + usage_tail(),
        ArgErrorV::Misplaced(f) => f + " does not apply here"@ + usage_tail(),
        ArgErrorV::NoValue(k) => "the '"@ + k + "' option doesn't have an associated value"@,
    }
}

/// How an unexpected-argument message begins.
pub open spec fn unexpected_head(t: Seq<char>) -> Seq<char> {
    "unexpected argument '"@ + t + "' found"@
}

/// The tip an unexpected word that looks like a flag gets.
pub open spec fn terminator_tip(t: Seq<char>) -> Seq<char> {
    "\n\n  tip: to pass '"@ + t + "' as a value, use '-- "@ + t + "'"@
}

/// An unexpected word is named first; the message quotes the usage line and
/// ends by pointing at `--help`; and a word that looks like a flag, and only
/// such a word, is told to pass it after `--`.
pub proof fn an_unexpected_word_is_named_and_pointed_at_usage(t: Seq<char>)
    ensures
        has_prefix(message_spec(ArgErrorV::Unexpected(t)), unexpected_head(t)),
        has_infix(message_spec(ArgErrorV::Unexpected(t)), "Usage: "@ + Help::Root.usage_spec()),
        has_suffix(
            message_spec(ArgErrorV::Unexpected(t)),
            "For more information, try 'lane --help'."@,
        ),
        dashed(t) ==> has_infix(message_spec(ArgErrorV::Unexpected(t)), terminator_tip(t)),
        !dashed(t) ==> message_spec(ArgErrorV::Unexpected(t)) == unexpected_head(t) + usage_tail(),
{
    reveal_strlit("lane");
    reveal_strlit("\n\nUsage: ");
    let m = message_spec(ArgErrorV::Unexpected(t));
    let head = unexpected_head(t);
    let tip: Seq<char> = if dashed(t) {
        terminator_tip(t)
    } else {
        Seq::empty()
    };
    let u = "Usage: "@ + Help::Root.usage_spec();
    let pre = "\n\nUsage: "@;
    let tail_end = "\n\nFor more information, try '"@ + Help::Root.invocation_spec() + " --help'."@;
    assert(usage_tail() =~= pre + Help::Root.usage_spec() + tail_end);
    assert(m =~= head + tip + pre + Help::Root.usage_spec() + tail_end);
    assert(m.take(head.len() as int) =~= head);
    let at: int = head.len() + tip.len() + 2int;
    assert(pre.subrange(2, pre.len() as int) =~= "Usage: "@) by {
        reveal_strlit("Usage: ");
    }
    assert(m.subrange(at, at + u.len() as int) =~= u);
    let fin = "For more information, try 'lane --help'."@;
    assert(tail_end.skip(2) =~= fin) by {
        reveal_strlit("\n\nFor more information, try '");
        reveal_strlit(" --help'.");
        reveal_strlit("For more information, try 'lane --help'.");
        assert(Help::Root.invocation_spec() == "lane"@);
    }
    assert(m.skip(m.len() - fin.len()) =~= fin);
    if dashed(t) {
        assert(m.subrange(head.len() as int, (head.len() + tip.len()) as int) =~= tip);
    }
}

impl ArgError {
    /// The message printed for this error, after `error: `.
    pub fn message(&self) -> (m: String)
        ensures
            m@ == message_spec(self.view_spec()),
    {
        let mut out: Vec<char> = Vec::new();
        match self {
            ArgError::Unexpected { token } => {
                // A word that only looks like a flag has somewhere to go, and
                // the reader is told where rather than left to guess.
                let t = chars_of(token.as_str());
                extend_str(&mut out, "unexpected argument '");
                extend_chars(&mut out, &t);
                extend_str(&mut out, "' found");
                if t.len() > 0 && t[0] == '-' {
                    extend_str(&mut out, "\n\n  tip: to pass '");
                    extend_chars(&mut out, &t);
                    extend_str(&mut out, "' as a value, use '-- ");
                    extend_chars(&mut out, &t);
                    extend_str(&mut out, "'");
                }
            },
            ArgError::Missing { name } => {
                extend_str(&mut out, "the following required arguments were not provided:\n");
                extend_str(&mut out, "  ");
                extend_str(&mut out, name.as_str());
                extend_str(&mut out, Help::Root.tip());
            },
            ArgError::UnknownShell { got, with_posix } => {
                extend_str(&mut out, "unknown shell '");
                extend_str(&mut out, got.as_str());
                extend_str(&mut out, "', expected one of: ");
                if *with_posix {
                    extend_str(&mut out, "fish, bash, zsh, posix");
                } else {
                    extend_str(&mut out, "fish, bash, zsh");
                }
            },
            ArgError::Conflict { first, second } => {
                extend_str(&mut out, first.as_str());
                extend_str(&mut out, " cannot be combined with ");
                extend_str(&mut out, second.as_str());
            },
            ArgError::Misplaced { flag } => {
                extend_str(&mut out, flag.as_str());
                extend_str(&mut out, " does not apply here");
            },
            ArgError::NoValue { key } => {
                extend_str(&mut out, "the '");
                extend_str(&mut out, key.as_str());
                extend_str(&mut out, "' option doesn't have an associated value");
                return string_of(&out);
            },
        }
        extend_str(&mut out, "\n\nUsage: ");
        extend_str(&mut out, Help::Root.usage());
        extend_str(&mut out, "\n\nFor more information, try '");
        extend_str(&mut out, Help::Root.invocation());
        extend_str(&mut out, " --help'.");
        assert(out@ =~= message_spec(self.view_spec()));
        string_of(&out)
    }
}

// ---------------------------------------------------------------------------
// The grammar, stated over words
// ---------------------------------------------------------------------------

/// One of the mutually exclusive operation flags. A bare name (`Open`) and no
/// flags at all (`List`) are not in this set: they are what parsing falls back
/// to once none of these are present.
#[derive(Debug, Clone, Copy, PartialEq, Eq)]
pub enum Op {
    List,
    Delete,
    ForceDelete,
    Info,
    Prune,
    Init,
    Exit,
    Shellenv,
    Completions,
}

/// How each operation flag is named in an error.
pub open spec fn op_flag(op: Op) -> Seq<char> {
    match op {
        Op::List => "-l/--list"@,
        Op::Delete => "-d/--delete"@,
        Op::ForceDelete => "-D/--force-delete"@,
        Op::Info => "-i/--info"@,
        Op::Prune => "--prune"@,
        Op::Init => "--init"@,
        Op::Exit => "-e/--exit"@,
        Op::Shellenv => "--shellenv"@,
        Op::Completions => "--completions"@,
    }
}

impl Op {
    /// The flag's spelling in an error message.
    pub fn flag(self) -> (r: &'static str)
        ensures
            r@ == op_flag(self),
    {
        match self {
            Op::List => "-l/--list",
            Op::Delete => "-d/--delete",
            Op::ForceDelete => "-D/--force-delete",
            Op::Info => "-i/--info",
            Op::Prune => "--prune",
            Op::Init => "--init",
            Op::Exit => "-e/--exit",
            Op::Shellenv => "--shellenv",
            Op::Completions => "--completions",
        }
    }
}

/// What operation the arguments settled on, once a bare name and no name at
/// all have been folded in alongside the explicit flags.
#[derive(Debug, Clone, Copy, PartialEq, Eq)]
pub enum Selected {
    List,
    Open,
    Delete,
    ForceDelete,
    Info,
    Prune,
    Init,
    Exit,
    Shellenv,
    Completions,
}

/// Every flag and option read from the words before `--`, and what is left.
pub struct ScanV {
    pub list: bool,
    pub json: bool,
    pub global: bool,
    pub delete: bool,
    pub force_delete: bool,
    pub info: bool,
    pub prune: bool,
    pub dry_run: bool,
    pub init: bool,
    pub exit: bool,
    pub shellenv: bool,
    pub completions: bool,
    pub base: Option<Seq<char>>,
    pub dirty: bool,
    pub refresh: bool,
    pub disk: bool,
    pub rest: Seq<Seq<char>>,
}

/// The empty key, for a flag that has only a long spelling.
pub open spec fn no_key() -> Seq<char> {
    Seq::empty()
}

/// Reads every flag in turn, each lookup taking out the word it matched, in
/// the order the parser asks for them; `Err` carries the key of a `--base`
/// given as the last word.
pub open spec fn scan_spec(w0: Seq<Seq<char>>) -> Result<ScanV, Seq<char>> {
    let list = key_index(w0, "-l"@, "--list"@) is Some;
    let w1 = after_flag(w0, "-l"@, "--list"@);
    let json = key_index(w1, "--json"@, no_key()) is Some;
    let w2 = after_flag(w1, "--json"@, no_key());
    let global = key_index(w2, "-g"@, "--global"@) is Some;
    let w3 = after_flag(w2, "-g"@, "--global"@);
    let delete = key_index(w3, "-d"@, "--delete"@) is Some;
    let w4 = after_flag(w3, "-d"@, "--delete"@);
    let force_delete = key_index(w4, "-D"@, "--force-delete"@) is Some;
    let w5 = after_flag(w4, "-D"@, "--force-delete"@);
    let info = key_index(w5, "-i"@, "--info"@) is Some;
    let w6 = after_flag(w5, "-i"@, "--info"@);
    let prune = key_index(w6, "--prune"@, no_key()) is Some;
    let w7 = after_flag(w6, "--prune"@, no_key());
    let dry_run = key_index(w7, "--dry-run"@, no_key()) is Some;
    let w8 = after_flag(w7, "--dry-run"@, no_key());
    let init = key_index(w8, "--init"@, no_key()) is Some;
    let w9 = after_flag(w8, "--init"@, no_key());
    let exit = key_index(w9, "-e"@, "--exit"@) is Some;
    let w10 = after_flag(w9, "-e"@, "--exit"@);
    let shellenv = key_index(w10, "--shellenv"@, no_key()) is Some;
    let w11 = after_flag(w10, "--shellenv"@, no_key());
    let completions = key_index(w11, "--completions"@, no_key()) is Some;
    let w12 = after_flag(w11, "--completions"@, no_key());
    match lookup_spec(w12, "-b"@, "--base"@) {
        LookupV::Dangling(key) => Err(key),
        found => {
            let base = match found {
                LookupV::Found(v) => Some(v),
                _ => None,
            };
            let w13 = after_lookup(w12, "-b"@, "--base"@);
            let dirty = key_index(w13, "--dirty"@, no_key()) is Some;
            let w14 = after_flag(w13, "--dirty"@, no_key());
            let refresh = key_index(w14, "--refresh"@, no_key()) is Some;
            let w15 = after_flag(w14, "--refresh"@, no_key());
            let disk = key_index(w15, "--disk"@, no_key()) is Some;
            let w16 = after_flag(w15, "--disk"@, no_key());
            Ok(
                ScanV {
                    list,
                    json,
                    global,
                    delete,
                    force_delete,
                    info,
                    prune,
                    dry_run,
                    init,
                    exit,
                    shellenv,
                    completions,
                    base,
                    dirty,
                    refresh,
                    disk,
                    rest: w16,
                },
            )
        },
    }
}

/// The words before the first bare `--`, and those after it.
pub open spec fn split_at_terminator(words: Seq<Seq<char>>) -> (Seq<Seq<char>>, Seq<Seq<char>>) {
    match find_word(words, "--"@) {
        Some(at) => (words.take(at), words.skip(at + 1)),
        None => (words, Seq::empty()),
    }
}

/// A word that looks like a flag.
pub open spec fn dashed(w: Seq<char>) -> bool {
    w.len() > 0 && w[0] == '-'
}

/// The first index at or after `i` of a word that looks like a flag.
pub open spec fn dashed_from(w: Seq<Seq<char>>, i: int) -> Option<int>
    decreases w.len() - i,
{
    if i < 0 || i >= w.len() {
        None
    } else if dashed(w[i]) {
        Some(i)
    } else {
        dashed_from(w, i + 1)
    }
}

/// The positional words: what the flags left, refusing the first that still
/// looks like a flag, followed by everything after `--`.
pub open spec fn positionals_spec(rest: Seq<Seq<char>>, after: Seq<Seq<char>>) -> Result<
    Seq<Seq<char>>,
    ArgErrorV,
> {
    match dashed_from(rest, 0) {
        Some(i) => Err(ArgErrorV::Unexpected(rest[i])),
        None => Ok(rest + after),
    }
}

/// `ops` with `op` appended when its flag is present.
pub open spec fn add_op(ops: Seq<Op>, present: bool, op: Op) -> Seq<Op> {
    if present {
        ops.push(op)
    } else {
        ops
    }
}

/// The operation flags present, in their fixed order.
#[verifier::opaque]
pub open spec fn ops_spec(f: ScanV) -> Seq<Op> {
    let o1 = add_op(seq![], f.list, Op::List);
    let o2 = add_op(o1, f.delete, Op::Delete);
    let o3 = add_op(o2, f.force_delete, Op::ForceDelete);
    let o4 = add_op(o3, f.info, Op::Info);
    let o5 = add_op(o4, f.prune, Op::Prune);
    let o6 = add_op(o5, f.init, Op::Init);
    let o7 = add_op(o6, f.exit, Op::Exit);
    let o8 = add_op(o7, f.shellenv, Op::Shellenv);
    add_op(o8, f.completions, Op::Completions)
}

/// The operation an explicit flag selects.
pub open spec fn op_selected(op: Op) -> Selected {
    match op {
        Op::List => Selected::List,
        Op::Delete => Selected::Delete,
        Op::ForceDelete => Selected::ForceDelete,
        Op::Info => Selected::Info,
        Op::Prune => Selected::Prune,
        Op::Init => Selected::Init,
        Op::Exit => Selected::Exit,
        Op::Shellenv => Selected::Shellenv,
        Op::Completions => Selected::Completions,
    }
}

/// The shell a word names, among those accepted.
pub open spec fn shell_word(w: Seq<char>, with_posix: bool) -> Option<Shell> {
    if w == "fish"@ {
        Some(Shell::Fish)
    } else if w == "bash"@ {
        Some(Shell::Bash)
    } else if w == "zsh"@ {
        Some(Shell::Zsh)
    } else if w == "posix"@ && with_posix {
        Some(Shell::Posix)
    } else {
        None
    }
}

/// The shell a login shell's file name stands for: one lane has a dedicated
/// script for, or `posix`.
pub open spec fn login_shell_spec(name: Option<Seq<char>>) -> Shell {
    match name {
        Some(n) => if n == "fish"@ {
            Shell::Fish
        } else if n == "bash"@ {
            Shell::Bash
        } else if n == "zsh"@ {
            Shell::Zsh
        } else {
            Shell::Posix
        },
        None => Shell::Posix,
    }
}

/// Which modifiers each operation owns: `--base`, `--dirty`, `--json`,
/// `--dry-run`, `-g`.
pub open spec fn owned_modifiers(s: Selected) -> (bool, bool, bool, bool, bool) {
    match s {
        Selected::Open => (true, true, false, false, false),
        Selected::List => (false, false, true, false, true),
        Selected::Info => (false, false, true, false, false),
        Selected::Prune => (false, false, false, true, false),
        _ => (false, false, false, false, false),
    }
}

/// The first modifier given where its operation is not, if any. `--refresh`
/// and `--disk` belong to `-g` alone.
#[verifier::opaque]
pub open spec fn misplaced_spec(f: ScanV, s: Selected) -> Option<Seq<char>> {
    let (base_ok, dirty_ok, json_ok, dry_run_ok, global_ok) = owned_modifiers(s);
    if f.base is Some && !base_ok {
        Some("--base"@)
    } else if f.dirty && !dirty_ok {
        Some("--dirty"@)
    } else if f.json && !json_ok {
        Some("--json"@)
    } else if f.dry_run && !dry_run_ok {
        Some("--dry-run"@)
    } else if f.global && !global_ok {
        Some("-g/--global"@)
    } else if f.refresh && !f.global {
        Some("--refresh"@)
    } else if f.disk && !f.global {
        Some("--disk"@)
    } else {
        None
    }
}

/// No positional word at all.
pub open spec fn none_spec(p: Seq<Seq<char>>) -> Option<ArgErrorV> {
    if p.len() > 0 {
        Some(ArgErrorV::Unexpected(p[0]))
    } else {
        None
    }
}

/// At most one positional word.
pub open spec fn optional_one_spec(p: Seq<Seq<char>>) -> Result<Option<Seq<char>>, ArgErrorV> {
    if p.len() >= 2 {
        Err(ArgErrorV::Unexpected(p[1]))
    } else if p.len() == 1 {
        Ok(Some(p[0]))
    } else {
        Ok(None)
    }
}

/// Exactly one positional word, called `name` when it is missing.
pub open spec fn one_spec(p: Seq<Seq<char>>, name: Seq<char>) -> Result<Seq<char>, ArgErrorV> {
    if p.len() == 0 {
        Err(ArgErrorV::Missing(name))
    } else if p.len() >= 2 {
        Err(ArgErrorV::Unexpected(p[1]))
    } else {
        Ok(p[0])
    }
}

/// What the selected operation makes of its positional words.
#[verifier::opaque]
pub open spec fn build_spec(
    f: ScanV,
    s: Selected,
    p: Seq<Seq<char>>,
    login: Option<Seq<char>>,
) -> Result<ParsedV, ArgErrorV> {
    match s {
        Selected::Delete | Selected::ForceDelete => if p.len() == 0 {
            Err(ArgErrorV::Missing("<NAME>..."@))
        } else {
            Ok(ParsedV::Delete { names: p, force: s == Selected::ForceDelete })
        },
        Selected::Shellenv => match optional_one_spec(p) {
            Err(e) => Err(e),
            Ok(None) => Ok(ParsedV::Shellenv(login_shell_spec(login))),
            Ok(Some(w)) => match shell_word(w, true) {
                Some(sh) => Ok(ParsedV::Shellenv(sh)),
                None => Err(ArgErrorV::UnknownShell(w, true)),
            },
        },
        Selected::Completions => match one_spec(p, "<SHELL>"@) {
            Err(e) => Err(e),
            Ok(w) => match shell_word(w, false) {
                Some(sh) => Ok(ParsedV::Completions(sh)),
                None => Err(ArgErrorV::UnknownShell(w, false)),
            },
        },
        Selected::Info => match optional_one_spec(p) {
            Err(e) => Err(e),
            Ok(name) => Ok(ParsedV::Info { name, json: f.json }),
        },
        Selected::Prune => match none_spec(p) {
            Some(e) => Err(e),
            None => Ok(ParsedV::Prune { dry_run: f.dry_run }),
        },
        Selected::Init => match none_spec(p) {
            Some(e) => Err(e),
            None => Ok(ParsedV::Init),
        },
        Selected::Exit => match none_spec(p) {
            Some(e) => Err(e),
            None => Ok(ParsedV::Exit),
        },
        Selected::List => match none_spec(p) {
            Some(e) => Err(e),
            None => Ok(
                ParsedV::List { json: f.json, global: f.global, refresh: f.refresh, disk: f.disk },
            ),
        },
        Selected::Open => match one_spec(p, "<NAME>"@) {
            Err(e) => Err(e),
            Ok(name) => Ok(ParsedV::Open { name, base: f.base, dirty: f.dirty }),
        },
    }
}

/// The operation chosen: the one flag given, else a listing when nothing asks
/// for a lane, else opening the named lane.
pub open spec fn selected_spec(f: ScanV, p: Seq<Seq<char>>) -> Selected {
    let ops = ops_spec(f);
    if ops.len() > 0 {
        op_selected(ops[0])
    } else if p.len() == 0 && f.base is None && !f.dirty {
        Selected::List
    } else {
        Selected::Open
    }
}

/// Everything after the flags were read: positionals, conflicts, modifiers,
/// then the operation's own words.
pub open spec fn settle_spec(f: ScanV, after: Seq<Seq<char>>, login: Option<Seq<char>>) -> Result<
    ParsedV,
    ArgErrorV,
> {
    match positionals_spec(f.rest, after) {
        Err(e) => Err(e),
        Ok(p) => {
            let ops = ops_spec(f);
            if ops.len() >= 2 {
                Err(ArgErrorV::Conflict(op_flag(ops[0]), op_flag(ops[1])))
            } else {
                let s = selected_spec(f, p);
                match misplaced_spec(f, s) {
                    Some(flag) => Err(ArgErrorV::Misplaced(flag)),
                    None => build_spec(f, s, p, login),
                }
            }
        },
    }
}

/// What `lane` makes of the words after the program name, given the file name
/// of the login shell (which a bare `--shellenv` targets).
pub open spec fn parse_spec(words: Seq<Seq<char>>, login: Option<Seq<char>>) -> Result<
    ParsedV,
    ArgErrorV,
> {
    let (flags, after) = split_at_terminator(words);
    if key_index(flags, "-h"@, "--help"@) is Some {
        Ok(ParsedV::Help(Help::Root))
    } else if key_index(flags, "-V"@, "--version"@) is Some {
        Ok(ParsedV::Version)
    } else {
        match scan_spec(flags) {
            Err(key) => Err(ArgErrorV::NoValue(key)),
            Ok(f) => settle_spec(f, after, login),
        }
    }
}

// ---------------------------------------------------------------------------
// The parser
// ---------------------------------------------------------------------------

/// Every flag and option read from the words before `--`.
struct Scan {
    list: bool,
    json: bool,
    global: bool,
    delete: bool,
    force_delete: bool,
    info: bool,
    prune: bool,
    dry_run: bool,
    init: bool,
    exit: bool,
    shellenv: bool,
    completions: bool,
    base: Option<String>,
    dirty: bool,
    refresh: bool,
    disk: bool,
}

impl Scan {
    spec fn with_rest(&self, rest: Seq<Seq<char>>) -> ScanV {
        ScanV {
            list: self.list,
            json: self.json,
            global: self.global,
            delete: self.delete,
            force_delete: self.force_delete,
            info: self.info,
            prune: self.prune,
            dry_run: self.dry_run,
            init: self.init,
            exit: self.exit,
            shellenv: self.shellenv,
            completions: self.completions,
            base: self.base.deep_view(),
            dirty: self.dirty,
            refresh: self.refresh,
            disk: self.disk,
            rest,
        }
    }
}

proof fn lemma_keys()
    ensures
        short_key("-l"@),
        short_key("-g"@),
        short_key("-d"@),
        short_key("-D"@),
        short_key("-i"@),
        short_key("-e"@),
        short_key("-b"@),
        short_key("-h"@),
        short_key("-V"@),
        long_key("--list"@),
        long_key("--json"@),
        long_key("--global"@),
        long_key("--delete"@),
        long_key("--force-delete"@),
        long_key("--info"@),
        long_key("--prune"@),
        long_key("--dry-run"@),
        long_key("--init"@),
        long_key("--exit"@),
        long_key("--shellenv"@),
        long_key("--completions"@),
        long_key("--base"@),
        long_key("--dirty"@),
        long_key("--refresh"@),
        long_key("--disk"@),
        long_key("--help"@),
        long_key("--version"@),
{
    reveal_strlit("-l");
    reveal_strlit("-g");
    reveal_strlit("-d");
    reveal_strlit("-D");
    reveal_strlit("-i");
    reveal_strlit("-e");
    reveal_strlit("-b");
    reveal_strlit("-h");
    reveal_strlit("-V");
    reveal_strlit("--list");
    reveal_strlit("--json");
    reveal_strlit("--global");
    reveal_strlit("--delete");
    reveal_strlit("--force-delete");
    reveal_strlit("--info");
    reveal_strlit("--prune");
    reveal_strlit("--dry-run");
    reveal_strlit("--init");
    reveal_strlit("--exit");
    reveal_strlit("--shellenv");
    reveal_strlit("--completions");
    reveal_strlit("--base");
    reveal_strlit("--dirty");
    reveal_strlit("--refresh");
    reveal_strlit("--disk");
    reveal_strlit("--help");
    reveal_strlit("--version");
}

/// Reads every flag and option, in the order the grammar asks for them.
fn scan(pargs: &mut pico_args::Arguments) -> (r: Result<Scan, ArgError>)
    requires
        holds_only_text(*old(pargs)),
    ensures
        holds_only_text(*final(pargs)),
        match scan_spec(held_words(*old(pargs))) {
            Err(key) => r matches Err(e) && e.view_spec() == ArgErrorV::NoValue(key),
            Ok(f) => r matches Ok(s) && s.with_rest(held_words(*final(pargs))) == f,
        },
{
    proof {
        lemma_keys();
    }
    let list = take_flag(pargs, "-l", "--list");
    let json = take_long_flag(pargs, "--json");
    let global = take_flag(pargs, "-g", "--global");
    let delete = take_flag(pargs, "-d", "--delete");
    let force_delete = take_flag(pargs, "-D", "--force-delete");
    let info = take_flag(pargs, "-i", "--info");
    let prune = take_long_flag(pargs, "--prune");
    let dry_run = take_long_flag(pargs, "--dry-run");
    let init = take_long_flag(pargs, "--init");
    let exit = take_flag(pargs, "-e", "--exit");
    let shellenv = take_long_flag(pargs, "--shellenv");
    let completions = take_long_flag(pargs, "--completions");
    let base = match take_value(pargs, "-b", "--base") {
        ValueLookup::Absent => None,
        ValueLookup::Found(v) => Some(v),
        ValueLookup::Dangling(key) => {
            return Err(ArgError::NoValue { key });
        },
    };
    let dirty = take_long_flag(pargs, "--dirty");
    let refresh = take_long_flag(pargs, "--refresh");
    let disk = take_long_flag(pargs, "--disk");
    Ok(
        Scan {
            list,
            json,
            global,
            delete,
            force_delete,
            info,
            prune,
            dry_run,
            init,
            exit,
            shellenv,
            completions,
            base,
            dirty,
            refresh,
            disk,
        },
    )
}

/// Split at a bare `--`. Nothing after it is read as a flag, by the flag
/// scanner or by the leftover check.
fn terminated(raw: Vec<String>) -> (r: (Vec<String>, Vec<String>))
    ensures
        (r.0.deep_view(), r.1.deep_view()) == split_at_terminator(raw.deep_view()),
{
    let ghost w = raw.deep_view();
    let mut i: usize = 0;
    while i < raw.len()
        invariant
            i <= raw.len(),
            w == raw.deep_view(),
            find_word(w, "--"@) == index_from(w, "--"@, i as int),
        decreases raw.len() - i,
    {
        if str_eq(raw[i].as_str(), "--") {
            assert(index_from(w, "--"@, i as int) == Some(i as int));
            let mut flags = raw;
            let mut tail = flags.split_off(i);
            tail.remove(0);
            assert(flags.deep_view() =~= w.take(i as int));
            assert(tail.deep_view() =~= w.skip(i + 1));
            return (flags, tail);
        }
        i = i + 1;
    }
    assert(index_from(w, "--"@, i as int) is None);
    (raw, Vec::new())
}

/// What the flag scanner could not place, refusing anything that still looks
/// like a flag. Words held back by `--` join the positionals without that
/// check.
fn positionals(pargs: pico_args::Arguments, after: Vec<String>) -> (r: Result<
    Vec<String>,
    ArgError,
>)
    requires
        holds_only_text(pargs),
    ensures
        match positionals_spec(held_words(pargs), after.deep_view()) {
            Err(e) => r matches Err(x) && x.view_spec() == e,
            Ok(p) => r matches Ok(v) && v.deep_view() == p,
        },
{
    let rest = remaining_words(pargs);
    let ghost w = rest.deep_view();
    let mut out: Vec<String> = Vec::new();
    let mut i: usize = 0;
    while i < rest.len()
        invariant
            i <= rest.len(),
            w == rest.deep_view(),
            held_words(pargs) == w,
            dashed_from(w, 0) == dashed_from(w, i as int),
            out.deep_view() == w.take(i as int),
        decreases rest.len() - i,
    {
        let text = rest[i].clone();
        assert(text@ == w[i as int]);
        let first = chars_of(text.as_str());
        if first.len() > 0 && first[0] == '-' {
            assert(dashed(w[i as int]));
            assert(dashed_from(w, i as int) == Some(i as int));
            let e = ArgError::Unexpected { token: text };
            assert(e.view_spec() == ArgErrorV::Unexpected(w[i as int]));
            assert(dashed_from(w, 0) == Some(i as int));
            assert(held_words(pargs) == w);
            assert(positionals_spec(w, after.deep_view()) == Err::<Seq<Seq<char>>, ArgErrorV>(ArgErrorV::Unexpected(w[i as int])));
            return Err(e);
        }
        assert(!dashed(w[i as int]));
        assert(dashed_from(w, i as int) == dashed_from(w, i + 1));
        let ghost before = out.deep_view();
        out.push(text);
        assert(out.deep_view() =~= before.push(w[i as int]));
        assert(w.take(i + 1) =~= w.take(i as int).push(w[i as int]));
        i = i + 1;
    }
    assert(w.take(i as int) =~= w);
    let ghost head = out.deep_view();
    let mut j: usize = 0;
    while j < after.len()
        invariant
            j <= after.len(),
            head == w,
            out.deep_view() == head + after.deep_view().take(j as int),
        decreases after.len() - j,
    {
        let item = after[j].clone();
        let ghost before = out.deep_view();
        out.push(item);
        assert(out.deep_view() =~= before.push(after.deep_view()[j as int]));
        assert(after.deep_view().take(j + 1) =~= after.deep_view().take(j as int).push(
            after.deep_view()[j as int],
        ));
        assert(out.deep_view() =~= head + after.deep_view().take(j + 1));
        j = j + 1;
    }
    assert(after.deep_view().take(j as int) =~= after.deep_view());
    Ok(out)
}

/// The shell a word names, among those accepted.
fn shell_named(word: &String, with_posix: bool) -> (r: Result<Shell, ArgError>)
    ensures
        match shell_word(word@, with_posix) {
            Some(s) => r == Ok::<Shell, ArgError>(s),
            None => r matches Err(e) && e.view_spec() == ArgErrorV::UnknownShell(word@, with_posix),
        },
{
    if str_eq(word.as_str(), "fish") {
        Ok(Shell::Fish)
    } else if str_eq(word.as_str(), "bash") {
        Ok(Shell::Bash)
    } else if str_eq(word.as_str(), "zsh") {
        Ok(Shell::Zsh)
    } else if with_posix && str_eq(word.as_str(), "posix") {
        Ok(Shell::Posix)
    } else {
        Err(ArgError::UnknownShell { got: word.clone(), with_posix })
    }
}

/// The shell the login shell's file name stands for, falling back to `posix`
/// when there is none or it is not one lane has a dedicated script for.
pub fn login_shell(name: &Option<String>) -> (r: Shell)
    ensures
        r == login_shell_spec(name.deep_view()),
{
    match name {
        Some(n) => {
            if str_eq(n.as_str(), "fish") {
                Shell::Fish
            } else if str_eq(n.as_str(), "bash") {
                Shell::Bash
            } else if str_eq(n.as_str(), "zsh") {
                Shell::Zsh
            } else {
                Shell::Posix
            }
        },
        None => Shell::Posix,
    }
}

fn one(got: Vec<String>, name: &str) -> (r: Result<String, ArgError>)
    ensures
        match one_spec(got.deep_view(), name@) {
            Err(e) => r matches Err(x) && x.view_spec() == e,
            Ok(w) => r matches Ok(v) && v@ == w,
        },
{
    if got.len() == 0 {
        return Err(ArgError::Missing { name: name.to_owned() });
    }
    if got.len() >= 2 {
        return Err(ArgError::Unexpected { token: got[1].clone() });
    }
    Ok(got[0].clone())
}

fn none(got: &Vec<String>) -> (r: Result<(), ArgError>)
    ensures
        match none_spec(got.deep_view()) {
            Some(e) => r matches Err(x) && x.view_spec() == e,
            None => r is Ok,
        },
{
    if got.len() > 0 {
        return Err(ArgError::Unexpected { token: got[0].clone() });
    }
    Ok(())
}

/// `--shellenv`'s and `--info`'s whole surface is zero or one word.
fn optional_one(got: Vec<String>) -> (r: Result<Option<String>, ArgError>)
    ensures
        match optional_one_spec(got.deep_view()) {
            Err(e) => r matches Err(x) && x.view_spec() == e,
            Ok(w) => r matches Ok(v) && v.deep_view() == w,
        },
{
    if got.len() >= 2 {
        return Err(ArgError::Unexpected { token: got[1].clone() });
    }
    if got.len() == 1 {
        return Ok(Some(got[0].clone()));
    }
    Ok(None)
}

/// Parse the arguments after the program name. `login_shell_name` is the
/// file name of the user's login shell, if known: a bare `--shellenv`
/// targets it.
pub fn parse(raw: Vec<String>, login_shell_name: Option<String>) -> (r: Result<Parsed, ArgError>)
    ensures
        outcome_view(r) == parse_spec(raw.deep_view(), login_shell_name.deep_view()),
{
    proof {
        lemma_keys();
    }
    let (flags, after) = terminated(raw);
    let mut pargs = arguments_from(flags);
    let ghost flags_w = held_words(pargs);
    if take_flag(&mut pargs, "-h", "--help") {
        return Ok(Parsed::Help(Help::Root));
    }
    proof {
        lemma_absent_flag_keeps_words(flags_w, "-h"@, "--help"@);
    }
    if take_flag(&mut pargs, "-V", "--version") {
        return Ok(Parsed::Version);
    }
    proof {
        lemma_absent_flag_keeps_words(flags_w, "-V"@, "--version"@);
    }
    let ghost w0 = held_words(pargs);
    let f = match scan(&mut pargs) {
        Ok(f) => f,
        Err(e) => {
            return Err(e);
        },
    };
    let ghost fv = f.with_rest(held_words(pargs));
    let pos = match positionals(pargs, after) {
        Ok(p) => p,
        Err(e) => {
            return Err(e);
        },
    };
    settle(f, pos, &login_shell_name, Ghost(fv))
}

/// Conflicts, modifiers, then the operation's own words.
fn settle(f: Scan, pos: Vec<String>, login_shell_name: &Option<String>, Ghost(fv): Ghost<ScanV>) -> (r: Result<
    Parsed,
    ArgError,
>)
    requires
        f.with_rest(fv.rest) == fv,
    ensures
        ({
            let p = pos.deep_view();
            let ops = ops_spec(fv);
            outcome_view(r) == if ops.len() >= 2 {
                Err(ArgErrorV::Conflict(op_flag(ops[0]), op_flag(ops[1])))
            } else {
                let s = selected_spec(fv, p);
                match misplaced_spec(fv, s) {
                    Some(flag) => Err(ArgErrorV::Misplaced(flag)),
                    None => build_spec(fv, s, p, login_shell_name.deep_view()),
                }
            }
        }),
{
    let ops = operations(&f, Ghost(fv));
    if ops.len() >= 2 {
        let a = ops[0].flag();
        let b = ops[1].flag();
        return Err(ArgError::Conflict { first: a.to_owned(), second: b.to_owned() });
    }
    let selected = select(&ops, &f, pos.len(), Ghost(fv), Ghost(pos.deep_view()));
    match misplaced(&f, selected, Ghost(fv)) {
        Some(flag) => Err(ArgError::Misplaced { flag: flag.to_owned() }),
        None => build(f, selected, pos, login_shell_name, Ghost(fv)),
    }
}

/// The operation chosen: the one flag given, else a listing when nothing asks
/// for a lane, else opening the named lane.
fn select(ops: &Vec<Op>, f: &Scan, n_pos: usize, Ghost(fv): Ghost<ScanV>, Ghost(p): Ghost<Seq<Seq<char>>>) -> (s: Selected)
    requires
        f.with_rest(fv.rest) == fv,
        ops@ == ops_spec(fv),
        ops.len() < 2,
        n_pos == p.len(),
    ensures
        s == selected_spec(fv, p),
{
    if ops.len() == 1 {
        match ops[0] {
            Op::List => Selected::List,
            Op::Delete => Selected::Delete,
            Op::ForceDelete => Selected::ForceDelete,
            Op::Info => Selected::Info,
            Op::Prune => Selected::Prune,
            Op::Init => Selected::Init,
            Op::Exit => Selected::Exit,
            Op::Shellenv => Selected::Shellenv,
            Op::Completions => Selected::Completions,
        }
    } else if n_pos == 0 && f.base.is_none() && !f.dirty {
        Selected::List
    } else {
        Selected::Open
    }
}

/// The operation flags given, in their fixed order.
fn operations(f: &Scan, Ghost(fv): Ghost<ScanV>) -> (ops: Vec<Op>)
    requires
        f.with_rest(fv.rest) == fv,
    ensures
        ops@ == ops_spec(fv),
{
    let mut ops: Vec<Op> = Vec::new();
    let ghost o0 = ops@;
    if f.list {
        ops.push(Op::List);
    }
    let ghost o1 = ops@;
    assert(o1 == add_op(o0, fv.list, Op::List));
    if f.delete {
        ops.push(Op::Delete);
    }
    let ghost o2 = ops@;
    assert(o2 == add_op(o1, fv.delete, Op::Delete));
    if f.force_delete {
        ops.push(Op::ForceDelete);
    }
    let ghost o3 = ops@;
    assert(o3 == add_op(o2, fv.force_delete, Op::ForceDelete));
    if f.info {
        ops.push(Op::Info);
    }
    let ghost o4 = ops@;
    assert(o4 == add_op(o3, fv.info, Op::Info));
    if f.prune {
        ops.push(Op::Prune);
    }
    let ghost o5 = ops@;
    assert(o5 == add_op(o4, fv.prune, Op::Prune));
    if f.init {
        ops.push(Op::Init);
    }
    let ghost o6 = ops@;
    assert(o6 == add_op(o5, fv.init, Op::Init));
    if f.exit {
        ops.push(Op::Exit);
    }
    let ghost o7 = ops@;
    assert(o7 == add_op(o6, fv.exit, Op::Exit));
    if f.shellenv {
        ops.push(Op::Shellenv);
    }
    let ghost o8 = ops@;
    assert(o8 == add_op(o7, fv.shellenv, Op::Shellenv));
    if f.completions {
        ops.push(Op::Completions);
    }
    assert(o0 =~= seq![]);
    reveal(ops_spec);
    ops
}

/// The first modifier given where its operation is not, if any.
fn misplaced(f: &Scan, selected: Selected, Ghost(fv): Ghost<ScanV>) -> (r: Option<&'static str>)
    requires
        f.with_rest(fv.rest) == fv,
    ensures
        match misplaced_spec(fv, selected) {
            Some(flag) => r matches Some(x) && x@ == flag,
            None => r is None,
        },
{
    reveal(misplaced_spec);
    // Each modifier belongs to exactly one operation; anywhere else it is a
    // usage error rather than something silently ignored.
    let (base_ok, dirty_ok, json_ok, dry_run_ok, global_ok) = match selected {
        Selected::Open => (true, true, false, false, false),
        Selected::List => (false, false, true, false, true),
        Selected::Info => (false, false, true, false, false),
        Selected::Prune => (false, false, false, true, false),
        _ => (false, false, false, false, false),
    };
    if f.base.is_some() && !base_ok {
        return Some("--base");
    }
    if f.dirty && !dirty_ok {
        return Some("--dirty");
    }
    if f.json && !json_ok {
        return Some("--json");
    }
    if f.dry_run && !dry_run_ok {
        return Some("--dry-run");
    }
    if f.global && !global_ok {
        return Some("-g/--global");
    }
    // `--refresh` and `--disk` only mean something next to `-g`: they name
    // what that one listing computes, and nothing else reads it.
    if f.refresh && !f.global {
        return Some("--refresh");
    }
    if f.disk && !f.global {
        return Some("--disk");
    }
    None
}

/// What the selected operation makes of its positional words.
fn build(f: Scan, selected: Selected, pos: Vec<String>, login_shell_name: &Option<String>, Ghost(fv): Ghost<ScanV>) -> (r: Result<
    Parsed,
    ArgError,
>)
    requires
        f.with_rest(fv.rest) == fv,
    ensures
        outcome_view(r) == build_spec(fv, selected, pos.deep_view(), login_shell_name.deep_view()),
{
    reveal(build_spec);
    match selected {
        Selected::Delete | Selected::ForceDelete => {
            if pos.len() == 0 {
                return Err(ArgError::Missing { name: "<NAME>...".to_owned() });
            }
            Ok(Parsed::Delete(DeleteArgs { names: pos, force: matches!(selected, Selected::ForceDelete) }))
        },
        Selected::Shellenv => {
            let word = match optional_one(pos) {
                Ok(w) => w,
                Err(e) => {
                    return Err(e);
                },
            };
            match word {
                None => Ok(Parsed::Shellenv(login_shell(login_shell_name))),
                Some(word) => match shell_named(&word, true) {
                    Ok(s) => Ok(Parsed::Shellenv(s)),
                    Err(e) => Err(e),
                },
            }
        },
        Selected::Completions => {
            let word = match one(pos, "<SHELL>") {
                Ok(w) => w,
                Err(e) => {
                    return Err(e);
                },
            };
            match shell_named(&word, false) {
                Ok(s) => Ok(Parsed::Completions(s)),
                Err(e) => Err(e),
            }
        },
        Selected::Info => {
            let name = match optional_one(pos) {
                Ok(n) => n,
                Err(e) => {
                    return Err(e);
                },
            };
            Ok(Parsed::Info { name, json: f.json })
        },
        Selected::Prune => {
            match none(&pos) {
                Ok(()) => Ok(Parsed::Prune { dry_run: f.dry_run }),
                Err(e) => Err(e),
            }
        },
        Selected::Init => {
            match none(&pos) {
                Ok(()) => Ok(Parsed::Init),
                Err(e) => Err(e),
            }
        },
        Selected::Exit => {
            match none(&pos) {
                Ok(()) => Ok(Parsed::Exit),
                Err(e) => Err(e),
            }
        },
        Selected::List => {
            match none(&pos) {
                Ok(()) => Ok(
                    Parsed::List { json: f.json, global: f.global, refresh: f.refresh, disk: f.disk },
                ),
                Err(e) => Err(e),
            }
        },
        Selected::Open => {
            let name = match one(pos, "<NAME>") {
                Ok(n) => n,
                Err(e) => {
                    return Err(e);
                },
            };
            Ok(Parsed::Open(OpenArgs { name, base: f.base, dirty: f.dirty }))
        },
    }
}


// ---------------------------------------------------------------------------
// What the grammar promises
// ---------------------------------------------------------------------------

/// The first index at or after `i` holding `k` is one that does, and no
/// earlier one does; with none, no index from `i` on holds it.
proof fn lemma_index_from(w: Seq<Seq<char>>, k: Seq<char>, i: int)
    requires
        0 <= i,
    ensures
        match index_from(w, k, i) {
            Some(x) => i <= x < w.len() && w[x] == k && forall|m: int| i <= m < x ==> w[m] != k,
            None => forall|m: int| i <= m < w.len() ==> w[m] != k,
        },
    decreases w.len() - i,
{
    if i < w.len() && w[i] != k {
        lemma_index_from(w, k, i + 1);
    }
}

/// A key no word in `w` equals is never found, so a flag spelled by it is
/// absent and a lookup of it takes nothing out. (An empty key is never looked
/// for.)
proof fn lemma_flag_absent(w: Seq<Seq<char>>, first: Seq<char>, second: Seq<char>)
    requires
        forall|m: int|
            0 <= m < w.len() ==> (first.len() > 0 ==> w[m] != first) && (second.len() > 0
                ==> w[m] != second),
    ensures
        key_index(w, first, second) is None,
        after_flag(w, first, second) == w,
        lookup_spec(w, first, second) == LookupV::Absent,
        after_lookup(w, first, second) == w,
{
    lemma_index_from(w, first, 0);
    lemma_index_from(w, second, 0);
    reveal(key_index);
    reveal(after_flag);
    reveal(lookup_spec);
    reveal(after_lookup);
}

/// Keys that look like flags are absent from words none of which does.
proof fn lemma_plain_absent(w: Seq<Seq<char>>, first: Seq<char>, second: Seq<char>)
    requires
        forall|m: int| 0 <= m < w.len() ==> !dashed(#[trigger] w[m]),
        first.len() == 0 || dashed(first),
        second.len() == 0 || dashed(second),
    ensures
        key_index(w, first, second) is None,
        after_flag(w, first, second) == w,
        lookup_spec(w, first, second) == LookupV::Absent,
        after_lookup(w, first, second) == w,
{
    assert forall|m: int| 0 <= m < w.len() implies (first.len() > 0 ==> w[m] != first) && (
    second.len() > 0 ==> w[m] != second) by {
        assert(!dashed(w[m]));
    }
    lemma_flag_absent(w, first, second);
}

/// A word `w` holds at `j` is found, at `j` or before.
proof fn lemma_word_found(w: Seq<Seq<char>>, k: Seq<char>, j: int)
    requires
        0 <= j < w.len(),
        w[j] == k,
    ensures
        find_word(w, k) is Some,
{
    lemma_index_from(w, k, 0);
}

/// Words none of which looks like a flag hold no flag, so the scanner reads
/// every flag as absent and leaves all the words in place.
proof fn lemma_scan_plain(w: Seq<Seq<char>>)
    requires
        forall|m: int| 0 <= m < w.len() ==> !dashed(#[trigger] w[m]),
    ensures
        scan_spec(w) == Ok::<ScanV, Seq<char>>(
            ScanV {
                list: false,
                json: false,
                global: false,
                delete: false,
                force_delete: false,
                info: false,
                prune: false,
                dry_run: false,
                init: false,
                exit: false,
                shellenv: false,
                completions: false,
                base: None,
                dirty: false,
                refresh: false,
                disk: false,
                rest: w,
            },
        ),
{
    lemma_keys();
    let e = no_key();
    lemma_plain_absent(w, "-l"@, "--list"@);
    lemma_plain_absent(w, "--json"@, e);
    lemma_plain_absent(w, "-g"@, "--global"@);
    lemma_plain_absent(w, "-d"@, "--delete"@);
    lemma_plain_absent(w, "-D"@, "--force-delete"@);
    lemma_plain_absent(w, "-i"@, "--info"@);
    lemma_plain_absent(w, "--prune"@, e);
    lemma_plain_absent(w, "--dry-run"@, e);
    lemma_plain_absent(w, "--init"@, e);
    lemma_plain_absent(w, "-e"@, "--exit"@);
    lemma_plain_absent(w, "--shellenv"@, e);
    lemma_plain_absent(w, "--completions"@, e);
    lemma_plain_absent(w, "-b"@, "--base"@);
    lemma_plain_absent(w, "--dirty"@, e);
    lemma_plain_absent(w, "--refresh"@, e);
    lemma_plain_absent(w, "--disk"@, e);
}

/// Words none of which looks like a flag hold none from `i` on.
proof fn lemma_none_dashed(w: Seq<Seq<char>>, i: int)
    requires
        0 <= i,
        forall|m: int| 0 <= m < w.len() ==> !dashed(#[trigger] w[m]),
    ensures
        dashed_from(w, i) is None,
    decreases w.len() - i,
{
    if i < w.len() {
        assert(!dashed(w[i]));
        lemma_none_dashed(w, i + 1);
    }
}

/// Once the flags read as absent, what the words make is decided by how many
/// positional words there are: none lists, one opens that lane, and a second
/// one is refused.
proof fn lemma_settle_plain(f: ScanV, after: Seq<Seq<char>>, login: Option<Seq<char>>)
    requires
        f == (ScanV {
            list: false,
            json: false,
            global: false,
            delete: false,
            force_delete: false,
            info: false,
            prune: false,
            dry_run: false,
            init: false,
            exit: false,
            shellenv: false,
            completions: false,
            base: None,
            dirty: false,
            refresh: false,
            disk: false,
            rest: f.rest,
        }),
        forall|m: int| 0 <= m < f.rest.len() ==> !dashed(#[trigger] f.rest[m]),
    ensures
        settle_spec(f, after, login) == plain_outcome(f.rest + after),
{
    let p = f.rest + after;
    lemma_none_dashed(f.rest, 0);
    assert(positionals_spec(f.rest, after) == Ok::<Seq<Seq<char>>, ArgErrorV>(p));
    reveal(ops_spec);
    assert(ops_spec(f) =~= Seq::<Op>::empty());
    reveal(misplaced_spec);
    reveal(build_spec);
}

/// What words that hold no flag make: a listing when there are none, the lane
/// named by the only one, and otherwise a refusal of the second.
pub open spec fn plain_outcome(p: Seq<Seq<char>>) -> Result<ParsedV, ArgErrorV> {
    if p.len() == 0 {
        Ok(ParsedV::List { json: false, global: false, refresh: false, disk: false })
    } else if p.len() == 1 {
        Ok(ParsedV::Open { name: p[0], base: None, dirty: false })
    } else {
        Err(ArgErrorV::Unexpected(p[1]))
    }
}

/// `-h`/`--help` anywhere before `--` wins over every other word: the help
/// screen is printed, whatever else was asked for and whatever is wrong with
/// it.
pub proof fn help_wins_over_everything(words: Seq<Seq<char>>, login: Option<Seq<char>>, j: int)
    requires
        0 <= j < words.len(),
        words[j] == "-h"@ || words[j] == "--help"@,
        forall|m: int| 0 <= m < j ==> words[m] != "--"@,
    ensures
        parse_spec(words, login) == Ok::<ParsedV, ArgErrorV>(ParsedV::Help(Help::Root)),
{
    reveal_strlit("-h");
    reveal_strlit("--help");
    reveal_strlit("--");
    assert("-h"@ != "--"@) by {
        assert("-h"@[1] != "--"@[1]);
    }
    assert("--help"@ != "--"@) by {
        assert("--help"@.len() != "--"@.len());
    }
    let flags = split_at_terminator(words).0;
    lemma_index_from(words, "--"@, 0);
    assert(words[j] != "--"@);
    assert(j < flags.len() && flags[j] == words[j]);
    reveal(key_index);
    if words[j] == "-h"@ {
        lemma_word_found(flags, "-h"@, j);
    } else {
        lemma_word_found(flags, "--help"@, j);
    }
}

/// `-V`/`--version` anywhere before `--` wins over every other word but a
/// request for help.
pub proof fn version_wins_over_all_but_help(
    words: Seq<Seq<char>>,
    login: Option<Seq<char>>,
    j: int,
)
    requires
        0 <= j < words.len(),
        words[j] == "-V"@ || words[j] == "--version"@,
        forall|m: int| 0 <= m < j ==> words[m] != "--"@,
        forall|m: int|
            0 <= m < words.len() && (forall|q: int| 0 <= q < m ==> words[q] != "--"@) ==> words[m]
                != "-h"@ && words[m] != "--help"@,
    ensures
        parse_spec(words, login) == Ok::<ParsedV, ArgErrorV>(ParsedV::Version),
{
    reveal_strlit("-V");
    reveal_strlit("--version");
    reveal_strlit("--");
    assert("-V"@ != "--"@) by {
        assert("-V"@[1] != "--"@[1]);
    }
    assert("--version"@ != "--"@) by {
        assert("--version"@.len() != "--"@.len());
    }
    let flags = split_at_terminator(words).0;
    lemma_index_from(words, "--"@, 0);
    assert(words[j] != "--"@);
    assert(j < flags.len() && flags[j] == words[j]);
    assert forall|m: int| 0 <= m < flags.len() implies flags[m] != "-h"@ && flags[m] != "--help"@ by {
        assert(flags[m] == words[m]);
        assert forall|q: int| 0 <= q < m implies words[q] != "--"@ by {}
    }
    lemma_flag_absent(flags, "-h"@, "--help"@);
    reveal(key_index);
    if words[j] == "-V"@ {
        lemma_word_found(flags, "-V"@, j);
    } else {
        lemma_word_found(flags, "--version"@, j);
    }
}

/// Every word after a leading `--` is positional, whatever it looks like: one
/// word opens the lane of that name (which is how a lane can be called `-x`),
/// none lists, and a second is refused.
pub proof fn words_after_the_terminator_are_names(after: Seq<Seq<char>>, login: Option<Seq<char>>)
    ensures
        parse_spec(seq!["--"@] + after, login) == plain_outcome(after),
{
    let words = seq!["--"@] + after;
    assert(words[0] == "--"@);
    assert(index_from(words, "--"@, 0) == Some(0int));
    let flags = split_at_terminator(words).0;
    assert(flags =~= Seq::<Seq<char>>::empty());
    assert(split_at_terminator(words).1 =~= after);
    lemma_flag_absent(flags, "-h"@, "--help"@);
    lemma_flag_absent(flags, "-V"@, "--version"@);
    lemma_scan_plain(flags);
    let f = scan_spec(flags)->Ok_0;
    lemma_settle_plain(f, after, login);
    assert(f.rest + after =~= after);
}

/// A single word that does not look like a flag names a lane, and `lane
/// <name>` opens it.
pub proof fn a_bare_name_opens_its_lane(name: Seq<char>, login: Option<Seq<char>>)
    requires
        !dashed(name),
    ensures
        parse_spec(seq![name], login) == Ok::<ParsedV, ArgErrorV>(
            ParsedV::Open { name, base: None, dirty: false },
        ),
{
    reveal_strlit("--");
    lemma_keys();
    reveal_strlit("-h");
    reveal_strlit("-V");
    let words = seq![name];
    assert(dashed("--"@));
    assert(words[0] != "--"@);
    lemma_index_from(words, "--"@, 0);
    assert(split_at_terminator(words).0 == words);
    assert(split_at_terminator(words).1 =~= Seq::<Seq<char>>::empty());
    assert(dashed("-h"@) && dashed("--help"@) && dashed("-V"@) && dashed("--version"@));
    lemma_flag_absent(words, "-h"@, "--help"@);
    lemma_flag_absent(words, "-V"@, "--version"@);
    assert forall|m: int| 0 <= m < words.len() implies !dashed(#[trigger] words[m]) by {}
    lemma_scan_plain(words);
    let f = scan_spec(words)->Ok_0;
    lemma_settle_plain(f, Seq::empty(), login);
    assert(f.rest + Seq::<Seq<char>>::empty() =~= words);
}


/// A bare name with `--dirty` opens that lane carrying the uncommitted work:
/// the word is a lane name, never a command, with or without the modifier.
pub proof fn a_bare_name_with_dirty_opens_it_carrying_work(
    name: Seq<char>,
    login: Option<Seq<char>>,
)
    requires
        !dashed(name),
    ensures
        parse_spec(seq![name, "--dirty"@], login) == Ok::<ParsedV, ArgErrorV>(
            ParsedV::Open { name, base: None, dirty: true },
        ),
{
    lemma_key_spellings();
    let e = no_key();
    let words = seq![name, "--dirty"@];
    assert(words[0] != "--"@);
    assert(words[1] != "--"@);
    lemma_index_from(words, "--"@, 0);
    assert(split_at_terminator(words).0 == words);
    assert(split_at_terminator(words).1 =~= Seq::<Seq<char>>::empty());
    assert(!dashed(words[0]));
    lemma_flag_absent(words, "-h"@, "--help"@);
    lemma_flag_absent(words, "-V"@, "--version"@);
    lemma_flag_absent(words, "-l"@, "--list"@);
    lemma_flag_absent(words, "--json"@, e);
    lemma_flag_absent(words, "-g"@, "--global"@);
    lemma_flag_absent(words, "-d"@, "--delete"@);
    lemma_flag_absent(words, "-D"@, "--force-delete"@);
    lemma_flag_absent(words, "-i"@, "--info"@);
    lemma_flag_absent(words, "--prune"@, e);
    lemma_flag_absent(words, "--dry-run"@, e);
    lemma_flag_absent(words, "--init"@, e);
    lemma_flag_absent(words, "-e"@, "--exit"@);
    lemma_flag_absent(words, "--shellenv"@, e);
    lemma_flag_absent(words, "--completions"@, e);
    lemma_flag_absent(words, "-b"@, "--base"@);
    lemma_index_from(words, "--dirty"@, 0);
    reveal(key_index);
    reveal(after_flag);
    assert(key_index(words, "--dirty"@, e) == Some(1int));
    let rest = seq![name];
    assert(after_flag(words, "--dirty"@, e) =~= rest);
    assert(!dashed(rest[0]));
    lemma_flag_absent(rest, "--refresh"@, e);
    lemma_flag_absent(rest, "--disk"@, e);
    let f = scan_spec(words)->Ok_0;
    assert(f.rest == rest && f.dirty && f.base is None);
    lemma_none_dashed(rest, 0);
    assert(positionals_spec(rest, Seq::empty()) == Ok::<Seq<Seq<char>>, ArgErrorV>(rest)) by {
        assert(rest + Seq::<Seq<char>>::empty() =~= rest);
    }
    reveal(ops_spec);
    assert(ops_spec(f) =~= Seq::<Op>::empty());
    reveal(misplaced_spec);
    reveal(build_spec);
}

/// The keys an operation flag is spelled with (the empty key when it has only
/// a long spelling).
pub open spec fn op_keys(op: Op) -> (Seq<char>, Seq<char>) {
    match op {
        Op::List => ("-l"@, "--list"@),
        Op::Delete => ("-d"@, "--delete"@),
        Op::ForceDelete => ("-D"@, "--force-delete"@),
        Op::Info => ("-i"@, "--info"@),
        Op::Prune => ("--prune"@, no_key()),
        Op::Init => ("--init"@, no_key()),
        Op::Exit => ("-e"@, "--exit"@),
        Op::Shellenv => ("--shellenv"@, no_key()),
        Op::Completions => ("--completions"@, no_key()),
    }
}

/// `word` spells the operation flag `op`.
pub open spec fn spells(word: Seq<char>, op: Op) -> bool {
    word == op_keys(op).0 || (op_keys(op).1.len() > 0 && word == op_keys(op).1)
}

/// Whether the scanned flags hold `op`.
pub open spec fn op_present(f: ScanV, op: Op) -> bool {
    match op {
        Op::List => f.list,
        Op::Delete => f.delete,
        Op::ForceDelete => f.force_delete,
        Op::Info => f.info,
        Op::Prune => f.prune,
        Op::Init => f.init,
        Op::Exit => f.exit,
        Op::Shellenv => f.shellenv,
        Op::Completions => f.completions,
    }
}

/// The spelling of every key, character by character: what tells any two of
/// them apart.
proof fn lemma_key_spellings()
    ensures
        "-l"@.len() == 2 && "-l"@[0] == '-' && "-l"@[1] == 'l',
        "--list"@.len() == 6 && "--list"@[0] == '-' && "--list"@[1] == '-' && "--list"@[2] == 'l' && "--list"@[3] == 'i' && "--list"@[4] == 's' && "--list"@[5] == 't',
        "--json"@.len() == 6 && "--json"@[0] == '-' && "--json"@[1] == '-' && "--json"@[2] == 'j' && "--json"@[3] == 's' && "--json"@[4] == 'o' && "--json"@[5] == 'n',
        "-g"@.len() == 2 && "-g"@[0] == '-' && "-g"@[1] == 'g',
        "--global"@.len() == 8 && "--global"@[0] == '-' && "--global"@[1] == '-' && "--global"@[2] == 'g' && "--global"@[3] == 'l' && "--global"@[4] == 'o' && "--global"@[5] == 'b' && "--global"@[6] == 'a' && "--global"@[7] == 'l',
        "-d"@.len() == 2 && "-d"@[0] == '-' && "-d"@[1] == 'd',
        "--delete"@.len() == 8 && "--delete"@[0] == '-' && "--delete"@[1] == '-' && "--delete"@[2] == 'd' && "--delete"@[3] == 'e' && "--delete"@[4] == 'l' && "--delete"@[5] == 'e' && "--delete"@[6] == 't' && "--delete"@[7] == 'e',
        "-D"@.len() == 2 && "-D"@[0] == '-' && "-D"@[1] == 'D',
        "--force-delete"@.len() == 14 && "--force-delete"@[0] == '-' && "--force-delete"@[1] == '-' && "--force-delete"@[2] == 'f' && "--force-delete"@[3] == 'o' && "--force-delete"@[4] == 'r' && "--force-delete"@[5] == 'c' && "--force-delete"@[6] == 'e' && "--force-delete"@[7] == '-' && "--force-delete"@[8] == 'd' && "--force-delete"@[9] == 'e' && "--force-delete"@[10] == 'l' && "--force-delete"@[11] == 'e' && "--force-delete"@[12] == 't' && "--force-delete"@[13] == 'e',
        "-i"@.len() == 2 && "-i"@[0] == '-' && "-i"@[1] == 'i',
        "--info"@.len() == 6 && "--info"@[0] == '-' && "--info"@[1] == '-' && "--info"@[2] == 'i' && "--info"@[3] == 'n' && "--info"@[4] == 'f' && "--info"@[5] == 'o',
        "--prune"@.len() == 7 && "--prune"@[0] == '-' && "--prune"@[1] == '-' && "--prune"@[2] == 'p' && "--prune"@[3] == 'r' && "--prune"@[4] == 'u' && "--prune"@[5] == 'n' && "--prune"@[6] == 'e',
        "--dry-run"@.len() == 9 && "--dry-run"@[0] == '-' && "--dry-run"@[1] == '-' && "--dry-run"@[2] == 'd' && "--dry-run"@[3] == 'r' && "--dry-run"@[4] == 'y' && "--dry-run"@[5] == '-' && "--dry-run"@[6] == 'r' && "--dry-run"@[7] == 'u' && "--dry-run"@[8] == 'n',
        "--init"@.len() == 6 && "--init"@[0] == '-' && "--init"@[1] == '-' && "--init"@[2] == 'i' && "--init"@[3] == 'n' && "--init"@[4] == 'i' && "--init"@[5] == 't',
        "-e"@.len() == 2 && "-e"@[0] == '-' && "-e"@[1] == 'e',
        "--exit"@.len() == 6 && "--exit"@[0] == '-' && "--exit"@[1] == '-' && "--exit"@[2] == 'e' && "--exit"@[3] == 'x' && "--exit"@[4] == 'i' && "--exit"@[5] == 't',
        "--shellenv"@.len() == 10 && "--shellenv"@[0] == '-' && "--shellenv"@[1] == '-' && "--shellenv"@[2] == 's' && "--shellenv"@[3] == 'h' && "--shellenv"@[4] == 'e' && "--shellenv"@[5] == 'l' && "--shellenv"@[6] == 'l' && "--shellenv"@[7] == 'e' && "--shellenv"@[8] == 'n' && "--shellenv"@[9] == 'v',
        "--completions"@.len() == 13 && "--completions"@[0] == '-' && "--completions"@[1] == '-' && "--completions"@[2] == 'c' && "--completions"@[3] == 'o' && "--completions"@[4] == 'm' && "--completions"@[5] == 'p' && "--completions"@[6] == 'l' && "--completions"@[7] == 'e' && "--completions"@[8] == 't' && "--completions"@[9] == 'i' && "--completions"@[10] == 'o' && "--completions"@[11] == 'n' && "--completions"@[12] == 's',
        "-b"@.len() == 2 && "-b"@[0] == '-' && "-b"@[1] == 'b',
        "--base"@.len() == 6 && "--base"@[0] == '-' && "--base"@[1] == '-' && "--base"@[2] == 'b' && "--base"@[3] == 'a' && "--base"@[4] == 's' && "--base"@[5] == 'e',
        "--dirty"@.len() == 7 && "--dirty"@[0] == '-' && "--dirty"@[1] == '-' && "--dirty"@[2] == 'd' && "--dirty"@[3] == 'i' && "--dirty"@[4] == 'r' && "--dirty"@[5] == 't' && "--dirty"@[6] == 'y',
        "--refresh"@.len() == 9 && "--refresh"@[0] == '-' && "--refresh"@[1] == '-' && "--refresh"@[2] == 'r' && "--refresh"@[3] == 'e' && "--refresh"@[4] == 'f' && "--refresh"@[5] == 'r' && "--refresh"@[6] == 'e' && "--refresh"@[7] == 's' && "--refresh"@[8] == 'h',
        "--disk"@.len() == 6 && "--disk"@[0] == '-' && "--disk"@[1] == '-' && "--disk"@[2] == 'd' && "--disk"@[3] == 'i' && "--disk"@[4] == 's' && "--disk"@[5] == 'k',
        "-h"@.len() == 2 && "-h"@[0] == '-' && "-h"@[1] == 'h',
        "--help"@.len() == 6 && "--help"@[0] == '-' && "--help"@[1] == '-' && "--help"@[2] == 'h' && "--help"@[3] == 'e' && "--help"@[4] == 'l' && "--help"@[5] == 'p',
        "-V"@.len() == 2 && "-V"@[0] == '-' && "-V"@[1] == 'V',
        "--version"@.len() == 9 && "--version"@[0] == '-' && "--version"@[1] == '-' && "--version"@[2] == 'v' && "--version"@[3] == 'e' && "--version"@[4] == 'r' && "--version"@[5] == 's' && "--version"@[6] == 'i' && "--version"@[7] == 'o' && "--version"@[8] == 'n',
        "--"@.len() == 2 && "--"@[0] == '-' && "--"@[1] == '-',
{
    reveal_strlit("-l");
    reveal_strlit("--list");
    reveal_strlit("--json");
    reveal_strlit("-g");
    reveal_strlit("--global");
    reveal_strlit("-d");
    reveal_strlit("--delete");
    reveal_strlit("-D");
    reveal_strlit("--force-delete");
    reveal_strlit("-i");
    reveal_strlit("--info");
    reveal_strlit("--prune");
    reveal_strlit("--dry-run");
    reveal_strlit("--init");
    reveal_strlit("-e");
    reveal_strlit("--exit");
    reveal_strlit("--shellenv");
    reveal_strlit("--completions");
    reveal_strlit("-b");
    reveal_strlit("--base");
    reveal_strlit("--dirty");
    reveal_strlit("--refresh");
    reveal_strlit("--disk");
    reveal_strlit("-h");
    reveal_strlit("--help");
    reveal_strlit("-V");
    reveal_strlit("--version");
    reveal_strlit("--");
}

/// One step of the scan, seen from a word `x` the list holds: a lookup of
/// `x`'s own keys finds it, and a lookup of other keys leaves it in place.
proof fn lemma_scan_step(w: Seq<Seq<char>>, first: Seq<char>, second: Seq<char>, x: Seq<char>)
    requires
        w.contains(x),
        x.len() > 0,
    ensures
        (x == first || x == second) ==> key_index(w, first, second) is Some,
        (x != first && x != second) ==> after_flag(w, first, second).contains(x),
{
    let j = choose|j: int| 0 <= j < w.len() && w[j] == x;
    lemma_index_from(w, first, 0);
    lemma_index_from(w, second, 0);
    reveal(key_index);
    reveal(after_flag);
    if x != first && x != second {
        match key_index(w, first, second) {
            Some(i) => {
                assert(w[i] == first || w[i] == second);
                let r = w.remove(i);
                if j < i {
                    assert(r[j] == x);
                } else {
                    assert(r[j - 1] == x);
                }
            },
            None => {},
        }
    }
}

/// A word spelling an operation flag, held by the words the scan reads, is
/// seen: the scan either fails or reports that operation present.
proof fn lemma_scan_sees(w0: Seq<Seq<char>>, x: Seq<char>, op: Op)
    requires
        w0.contains(x),
        spells(x, op),
    ensures
        scan_spec(w0) matches Ok(f) ==> op_present(f, op),
{
    lemma_key_spellings();
    let e = no_key();
    assert(x.len() > 0);
    let w1 = after_flag(w0, "-l"@, "--list"@);
    let w2 = after_flag(w1, "--json"@, e);
    let w3 = after_flag(w2, "-g"@, "--global"@);
    let w4 = after_flag(w3, "-d"@, "--delete"@);
    let w5 = after_flag(w4, "-D"@, "--force-delete"@);
    let w6 = after_flag(w5, "-i"@, "--info"@);
    let w7 = after_flag(w6, "--prune"@, e);
    let w8 = after_flag(w7, "--dry-run"@, e);
    let w9 = after_flag(w8, "--init"@, e);
    let w10 = after_flag(w9, "-e"@, "--exit"@);
    let w11 = after_flag(w10, "--shellenv"@, e);
    lemma_scan_step(w0, "-l"@, "--list"@, x);
    if w1.contains(x) {
        lemma_scan_step(w1, "--json"@, e, x);
    }
    if w2.contains(x) {
        lemma_scan_step(w2, "-g"@, "--global"@, x);
    }
    if w3.contains(x) {
        lemma_scan_step(w3, "-d"@, "--delete"@, x);
    }
    if w4.contains(x) {
        lemma_scan_step(w4, "-D"@, "--force-delete"@, x);
    }
    if w5.contains(x) {
        lemma_scan_step(w5, "-i"@, "--info"@, x);
    }
    if w6.contains(x) {
        lemma_scan_step(w6, "--prune"@, e, x);
    }
    if w7.contains(x) {
        lemma_scan_step(w7, "--dry-run"@, e, x);
    }
    if w8.contains(x) {
        lemma_scan_step(w8, "--init"@, e, x);
    }
    if w9.contains(x) {
        lemma_scan_step(w9, "-e"@, "--exit"@, x);
    }
    if w10.contains(x) {
        lemma_scan_step(w10, "--shellenv"@, e, x);
    }
    if w11.contains(x) {
        lemma_scan_step(w11, "--completions"@, e, x);
    }
}

/// Two different operation flags before `--` are a usage error, whichever two
/// they are and wherever they stand (unless help or the version was asked
/// for, which wins).
pub proof fn two_operations_are_refused(
    words: Seq<Seq<char>>,
    login: Option<Seq<char>>,
    i: int,
    j: int,
    a: Op,
    b: Op,
)
    requires
        0 <= i < words.len(),
        0 <= j < words.len(),
        spells(words[i], a),
        spells(words[j], b),
        a != b,
        forall|m: int| 0 <= m < i ==> words[m] != "--"@,
        forall|m: int| 0 <= m < j ==> words[m] != "--"@,
        forall|m: int|
            0 <= m < words.len() && (forall|q: int| 0 <= q < m ==> words[q] != "--"@) ==> words[m]
                != "-h"@ && words[m] != "--help"@ && words[m] != "-V"@ && words[m] != "--version"@,
    ensures
        parse_spec(words, login) is Err,
{
    lemma_key_spellings();
    let flags = split_at_terminator(words).0;
    lemma_index_from(words, "--"@, 0);
    assert(words[i] != "--"@);
    assert(words[j] != "--"@);
    assert(i < flags.len() && flags[i] == words[i]);
    assert(j < flags.len() && flags[j] == words[j]);
    assert forall|m: int| 0 <= m < flags.len() implies flags[m] != "-h"@ && flags[m] != "--help"@
        && flags[m] != "-V"@ && flags[m] != "--version"@ by {
        assert(flags[m] == words[m]);
        assert forall|q: int| 0 <= q < m implies words[q] != "--"@ by {}
    }
    lemma_flag_absent(flags, "-h"@, "--help"@);
    lemma_flag_absent(flags, "-V"@, "--version"@);
    lemma_scan_sees(flags, words[i], a);
    lemma_scan_sees(flags, words[j], b);
    if let Ok(f) = scan_spec(flags) {
        reveal(ops_spec);
        assert(ops_spec(f).len() >= 2);
    }
}


/// Taking a flag out leaves only words that were there.
proof fn lemma_after_flag_within(w: Seq<Seq<char>>, first: Seq<char>, second: Seq<char>, x: Seq<char>)
    requires
        after_flag(w, first, second).contains(x),
    ensures
        w.contains(x),
{
    reveal(after_flag);
    let r = after_flag(w, first, second);
    let j = choose|j: int| 0 <= j < r.len() && r[j] == x;
    match key_index(w, first, second) {
        Some(i) => {
            reveal(key_index);
            lemma_index_from(w, first, 0);
            lemma_index_from(w, second, 0);
            if j < i {
                assert(w[j] == x);
            } else {
                assert(w[j + 1] == x);
            }
        },
        None => {},
    }
}

/// A key found by a lookup is a word of the list.
proof fn lemma_found_within(w: Seq<Seq<char>>, first: Seq<char>, second: Seq<char>)
    requires
        key_index(w, first, second) is Some,
    ensures
        (first.len() > 0 && w.contains(first)) || (second.len() > 0 && w.contains(second)),
{
    reveal(key_index);
    lemma_index_from(w, first, 0);
    lemma_index_from(w, second, 0);
    let i = key_index(w, first, second)->0;
    assert(w[i] == first || w[i] == second);
}

/// A listing prints JSON exactly when `--json` was given before `--`, and
/// reaches across repositories exactly when `-g`/`--global` was; neither flag
/// stands in for the other.
pub proof fn a_listing_takes_json_and_global_from_their_own_flags(
    words: Seq<Seq<char>>,
    login: Option<Seq<char>>,
)
    ensures
        parse_spec(words, login) matches Ok(ParsedV::List { json, global, .. }) ==> {
            &&& json <==> split_at_terminator(words).0.contains("--json"@)
            &&& global <==> (split_at_terminator(words).0.contains("-g"@)
                || split_at_terminator(words).0.contains("--global"@))
        },
{
    lemma_key_spellings();
    let e = no_key();
    let w0 = split_at_terminator(words).0;
    let after = split_at_terminator(words).1;
    if key_index(w0, "-h"@, "--help"@) is None && key_index(w0, "-V"@, "--version"@) is None {
        if let Ok(f) = scan_spec(w0) {
            reveal(build_spec);
            let w1 = after_flag(w0, "-l"@, "--list"@);
            let w2 = after_flag(w1, "--json"@, e);
            assert(f.json == (key_index(w1, "--json"@, e) is Some));
            assert(f.global == (key_index(w2, "-g"@, "--global"@) is Some));
            // --json
            if w0.contains("--json"@) {
                lemma_scan_step(w0, "-l"@, "--list"@, "--json"@);
                lemma_scan_step(w1, "--json"@, e, "--json"@);
            }
            if key_index(w1, "--json"@, e) is Some {
                lemma_found_within(w1, "--json"@, e);
                lemma_after_flag_within(w0, "-l"@, "--list"@, "--json"@);
            }
            // -g / --global
            let g = "-g"@;
            let gl = "--global"@;
            if w0.contains(g) {
                lemma_scan_step(w0, "-l"@, "--list"@, g);
                lemma_scan_step(w1, "--json"@, e, g);
                lemma_scan_step(w2, g, gl, g);
            }
            if w0.contains(gl) {
                lemma_scan_step(w0, "-l"@, "--list"@, gl);
                lemma_scan_step(w1, "--json"@, e, gl);
                lemma_scan_step(w2, g, gl, gl);
            }
            if key_index(w2, g, gl) is Some {
                lemma_found_within(w2, g, gl);
                if w2.contains(g) {
                    lemma_after_flag_within(w1, "--json"@, e, g);
                    lemma_after_flag_within(w0, "-l"@, "--list"@, g);
                }
                if w2.contains(gl) {
                    lemma_after_flag_within(w1, "--json"@, e, gl);
                    lemma_after_flag_within(w0, "-l"@, "--list"@, gl);
                }
            }
        }
    }
}


/// A word other than the keys looked up is in the list after the lookup
/// exactly when it was before.
proof fn lemma_keeps_iff(w: Seq<Seq<char>>, first: Seq<char>, second: Seq<char>, x: Seq<char>)
    requires
        x.len() > 0,
        x != first,
        x != second,
    ensures
        after_flag(w, first, second).contains(x) <==> w.contains(x),
{
    if w.contains(x) {
        lemma_scan_step(w, first, second, x);
    }
    if after_flag(w, first, second).contains(x) {
        lemma_after_flag_within(w, first, second, x);
    }
}

/// A lookup finds something exactly when a key it looks for is in the list.
proof fn lemma_found_iff(w: Seq<Seq<char>>, first: Seq<char>, second: Seq<char>)
    ensures
        key_index(w, first, second) is Some <==> (first.len() > 0 && w.contains(first)) || (
        second.len() > 0 && w.contains(second)),
{
    if key_index(w, first, second) is Some {
        lemma_found_within(w, first, second);
    }
    if first.len() > 0 && w.contains(first) {
        lemma_scan_step(w, first, second, first);
    }
    if second.len() > 0 && w.contains(second) {
        lemma_scan_step(w, first, second, second);
    }
}

/// Each modifier an operation reads comes from its own flag before `--`:
/// `-i` prints JSON exactly when `--json` was given, `--prune` lists without
/// removing exactly when `--dry-run` was, and a delete discards whatever the
/// lane holds exactly when it was spelled `-D`/`--force-delete`.
pub proof fn modifiers_come_from_their_own_flags(words: Seq<Seq<char>>, login: Option<Seq<char>>)
    ensures
        parse_spec(words, login) matches Ok(ParsedV::Info { json, .. }) ==> (json
            <==> split_at_terminator(words).0.contains("--json"@)),
        parse_spec(words, login) matches Ok(ParsedV::Prune { dry_run }) ==> (dry_run
            <==> split_at_terminator(words).0.contains("--dry-run"@)),
        parse_spec(words, login) matches Ok(ParsedV::Delete { force, .. }) ==> (force
            <==> (split_at_terminator(words).0.contains("-D"@) || split_at_terminator(
            words,
        ).0.contains("--force-delete"@))),
{
    lemma_key_spellings();
    let e = no_key();
    let w0 = split_at_terminator(words).0;
    if key_index(w0, "-h"@, "--help"@) is None && key_index(w0, "-V"@, "--version"@) is None {
        if let Ok(f) = scan_spec(w0) {
            reveal(build_spec);
            reveal(ops_spec);
            let w1 = after_flag(w0, "-l"@, "--list"@);
            let w2 = after_flag(w1, "--json"@, e);
            let w3 = after_flag(w2, "-g"@, "--global"@);
            let w4 = after_flag(w3, "-d"@, "--delete"@);
            let w5 = after_flag(w4, "-D"@, "--force-delete"@);
            let w6 = after_flag(w5, "-i"@, "--info"@);
            let w7 = after_flag(w6, "--prune"@, e);
            // --json
            let j = "--json"@;
            lemma_keeps_iff(w0, "-l"@, "--list"@, j);
            lemma_found_iff(w1, j, e);
            // --dry-run
            let dr = "--dry-run"@;
            lemma_keeps_iff(w0, "-l"@, "--list"@, dr);
            lemma_keeps_iff(w1, j, e, dr);
            lemma_keeps_iff(w2, "-g"@, "--global"@, dr);
            lemma_keeps_iff(w3, "-d"@, "--delete"@, dr);
            lemma_keeps_iff(w4, "-D"@, "--force-delete"@, dr);
            lemma_keeps_iff(w5, "-i"@, "--info"@, dr);
            lemma_keeps_iff(w6, "--prune"@, e, dr);
            lemma_found_iff(w7, dr, e);
            // -D / --force-delete
            let fd = "-D"@;
            let fdl = "--force-delete"@;
            lemma_keeps_iff(w0, "-l"@, "--list"@, fd);
            lemma_keeps_iff(w1, j, e, fd);
            lemma_keeps_iff(w2, "-g"@, "--global"@, fd);
            lemma_keeps_iff(w3, "-d"@, "--delete"@, fd);
            lemma_keeps_iff(w0, "-l"@, "--list"@, fdl);
            lemma_keeps_iff(w1, j, e, fdl);
            lemma_keeps_iff(w2, "-g"@, "--global"@, fdl);
            lemma_keeps_iff(w3, "-d"@, "--delete"@, fdl);
            lemma_found_iff(w4, fd, fdl);
        }
    }
}

} // verus!
