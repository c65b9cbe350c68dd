//! The help screen, and the usage line the parse errors quote.
//!
//! The screen is a fixed string rather than something rendered from the
//! parser's tables, so nothing here can drift at run time. [`Help::usage`] is
//! the same line the screen opens with, so an error and the screen it points at
//! cannot disagree.

use vstd::prelude::*;
use crate::text::{chars_of, extend_str, has_infix, has_prefix, string_of};

verus! {

/// Reached from `-h`/`--help` anywhere in the arguments. There is only one
/// screen: the whole surface is flags on the one command.
#[derive(Debug, Clone, Copy, PartialEq, Eq)]
pub enum Help {
    Root,
}

/// The one-line grammar a parse error quotes, and the first line of the
/// screen's usage section.
pub const USAGE: &'static str = "lane [options] [<name>]";

/// What the root screen holds before its usage line: a blank line, then the
/// usage heading.
pub const SCREEN_HEAD: &'static str = "
  Usage
    $ ";

/// What the root screen holds after its usage line. `println!` supplies the
/// trailing blank line that matches the leading one.
pub const SCREEN_REST: &'static str = "
    $ lane <name> [--base <rev>] [--dirty]
    $ lane -d|-D <name>...

  Options
    -l, --list                 List lanes
    -g, --global               List lanes across every repository (slower: walks working trees)
        --json                 Emit machine-readable JSON (with or without --list)
    -b, --base <rev>           Branch from <rev> instead of the default base (create only)
        --dirty                Carry uncommitted work into the lane (create only)
    -d, --delete <name>...     Delete lane(s) and branch(es), refusing on loss
    -D, --force-delete         Delete anyway, discarding whatever it holds
        --prune                Remove landed lanes
        --dry-run              With --prune, list what would go, remove nothing
        --init                 Initialize lane in the repository
        --exit                 Return to the main worktree
        --shellenv [shell]     Print shell integration (fish, bash, zsh, posix)
        --completions <shell>  Print completions (fish, bash, zsh)
    -h, --help                 Display this message
    -V, --version              Display current version

  Examples
    $ lane
    $ lane fix-login              Creates it, or enters it if it already exists
    $ lane hotfix --base v1.2.0
    $ lane -d fix-login old-spike
    $ lane -g                     Every lane across every repository lane knows about
    $ lane --prune
    $ eval \"$(lane --shellenv)\"

  A lane may be named anything, including ls or prune.
";

impl Help {
    /// The screen's text: the usage heading, the usage line, the rest.
    pub open spec fn text_spec(self) -> Seq<char> {
        SCREEN_HEAD@ + self.usage_spec() + SCREEN_REST@
    }

    /// The one-line grammar.
    pub open spec fn usage_spec(self) -> Seq<char> {
        match self {
            Help::Root => USAGE@,
        }
    }

    /// What to tell the reader to run for more.
    pub open spec fn invocation_spec(self) -> Seq<char> {
        match self {
            Help::Root => "lane"@,
        }
    }

    /// The whole screen, as printed to stdout. It opens with the usage line
    /// that parse errors quote.
    pub fn text(self) -> (r: String)
        ensures
            r@ == self.text_spec(),
    {
        let mut out = chars_of(SCREEN_HEAD);
        extend_str(&mut out, self.usage());
        extend_str(&mut out, SCREEN_REST);
        string_of(&out)
    }

    /// The one-line grammar, quoted by a parse error.
    pub fn usage(self) -> (r: &'static str)
        ensures
            r@ == self.usage_spec(),
    {
        match self {
            Help::Root => USAGE,
        }
    }

    /// A line saying what a choice of arguments means, where the names do not
    /// say it themselves. Shown under any error about them. The root screen
    /// needs none.
    pub fn tip(self) -> (r: &'static str)
        ensures
            r@ == Seq::<char>::empty(),
    {
        proof {
            reveal_strlit("");
        }
        ""
    }

    /// What to tell the reader to run for more, without the flag.
    pub fn invocation(self) -> (r: &'static str)
        ensures
            r@ == self.invocation_spec(),
    {
        match self {
            Help::Root => "lane",
        }
    }
}

/// Every screen's usage line begins with the invocation it tells the reader to
/// run, so the two can never name different commands.
pub proof fn usage_begins_with_invocation(h: Help)
    ensures
        has_prefix(h.usage_spec(), h.invocation_spec()),
{
    reveal_strlit("lane [options] [<name>]");
    reveal_strlit("lane");
    assert(USAGE@ == "lane [options] [<name>]"@);
    assert(h.usage_spec().take(4) =~= h.invocation_spec());
}

/// The usage line a parse error quotes is a line of the help screen: the
/// screen's usage section opens with it, so an error and the screen it points
/// at cannot disagree.
pub proof fn the_screen_opens_with_its_usage_line(h: Help)
    ensures
        has_infix(h.text_spec(), h.usage_spec()),
        h.text_spec().subrange(
            SCREEN_HEAD@.len() as int,
            SCREEN_HEAD@.len() + h.usage_spec().len() as int,
        ) == h.usage_spec(),
{
    let at = SCREEN_HEAD@.len() as int;
    assert(h.text_spec().subrange(at, at + h.usage_spec().len()) =~= h.usage_spec());
}

} // verus!
