//! The scripts `--shellenv` and `--completions` print: a shell function
//! that moves the shell where `lane` says, and completion of flags and lane
//! names.

use vstd::prelude::*;
use crate::args::Shell;

verus! {

/// The fish function. It moves the shell for a bare name, for `--exit`, and
/// for a delete that printed a destination (the lane the shell stood in was
/// removed); every other flag, and no words at all, leave the shell alone.
pub const FISH_FUNCTION: &'static str = r#"function lane
  switch "$argv[1]"
    case '-e' '--exit'
      set -l p (command lane $argv); or return
      cd $p
    case '-d' '-D' '--delete' '--force-delete'
      set -l p (command lane $argv)
      set -l code $status
      test -n "$p"; and cd $p
      return $code
    case '' '-*'
      command lane $argv
    case '*'
      set -l p (command lane $argv); or return
      cd $p
  end
end"#;

/// The same function for bash, zsh and POSIX shells.
pub const POSIX_FUNCTION: &'static str = r#"lane() {
  local p
  case "$1" in
    -e|--exit) p=$(command lane "$@") || return; cd "$p" ;;
    -d|-D|--delete|--force-delete)
      p=$(command lane "$@"); local code=$?
      [ -n "$p" ] && cd "$p"
      return $code ;;
    ""|-*)  command lane "$@" ;;
    *)      p=$(command lane "$@") || return; cd "$p" ;;
  esac
}"#;

/// Completion for fish.
pub const FISH_COMPLETIONS: &'static str = r#"complete -c lane -f
complete -c lane -s h -l help
complete -c lane -s V -l version
complete -c lane -s l -l list
complete -c lane -s g -l global
complete -c lane -l json
complete -c lane -l base -x
complete -c lane -l dirty
complete -c lane -s d -l delete
complete -c lane -s D -l force-delete
complete -c lane -s i -l info
complete -c lane -l prune
complete -c lane -l dry-run
complete -c lane -l refresh
complete -c lane -l disk
complete -c lane -l init
complete -c lane -s e -l exit
complete -c lane -l shellenv -xa 'fish bash zsh posix'
complete -c lane -l completions -xa 'fish bash zsh'
complete -c lane -n '__fish_is_first_arg' -a "(command lane 2>/dev/null | awk '{print \$1}')"
complete -c lane -n '__fish_seen_argument -s d -s D -s i' -a "(command lane 2>/dev/null | awk '{print \$1}')""#;

/// Completion for bash.
pub const BASH_COMPLETIONS: &'static str = r#"_lane() {
  local cur prev
  cur="${COMP_WORDS[COMP_CWORD]}"
  prev="${COMP_WORDS[COMP_CWORD-1]}"
  lanes() { command lane 2>/dev/null | awk '{print $1}'; }

  case "$prev" in
    --shellenv) COMPREPLY=($(compgen -W "fish bash zsh posix" -- "$cur")); return ;;
    --completions) COMPREPLY=($(compgen -W "fish bash zsh" -- "$cur")); return ;;
    --base) COMPREPLY=(); return ;;
  esac

  for w in "${COMP_WORDS[@]}"; do
    case "$w" in
      -d|--delete|-D|--force-delete|-i|--info)
        COMPREPLY=($(compgen -W "$(lanes)" -- "$cur")); return ;;
    esac
  done

  COMPREPLY=($(compgen -W "$(lanes) -l --list -g --global -i --info --json --base --dirty -d --delete -D --force-delete --prune --dry-run --refresh --disk --init -e --exit --shellenv --completions -h --help -V --version" -- "$cur"))
}
complete -F _lane lane"#;

/// Completion for zsh, to be installed on `$fpath` as `_lane`.
pub const ZSH_COMPLETIONS: &'static str = r#"#compdef lane

_lane() {
  local -a lanes flags
  lanes=(${(f)"$(command lane 2>/dev/null | awk '{print $1}')"})
  flags=(-l --list -g --global -i --info --json --base --dirty -d --delete -D --force-delete --prune --dry-run --refresh --disk --init -e --exit --shellenv --completions -h --help -V --version)

  case "${words[CURRENT-1]}" in
    --shellenv) compadd -- fish bash zsh posix; return ;;
    --completions) compadd -- fish bash zsh; return ;;
    --base) return ;;
  esac

  for w in "${words[@]}"; do
    case "$w" in
      -d|--delete|-D|--force-delete|-i|--info) compadd -a lanes; return ;;
    esac
  done

  compadd -a lanes
  compadd -a flags
}

_lane "$@""#;

/// The function `--shellenv` prints for a shell: fish's own, or the POSIX
/// one that bash and zsh share.
pub open spec fn function_text(shell: Shell) -> Seq<char> {
    match shell {
        Shell::Fish => FISH_FUNCTION@,
        _ => POSIX_FUNCTION@,
    }
}

/// The function `--shellenv` prints.
pub fn shell_function(shell: Shell) -> (r: &'static str)
    ensures
        r@ == function_text(shell),
{
    match shell {
        Shell::Fish => FISH_FUNCTION,
        _ => POSIX_FUNCTION,
    }
}

/// The completion script `--completions` prints for a shell; there is none
/// for a plain POSIX shell.
pub open spec fn completion_text(shell: Shell) -> Option<Seq<char>> {
    match shell {
        Shell::Fish => Some(FISH_COMPLETIONS@),
        Shell::Bash => Some(BASH_COMPLETIONS@),
        Shell::Zsh => Some(ZSH_COMPLETIONS@),
        Shell::Posix => None,
    }
}

/// The completion script `--completions` prints, or why there is none.
pub fn completion_script(shell: Shell) -> (r: Result<&'static str, String>)
    ensures
        match completion_text(shell) {
            Some(t) => r matches Ok(x) && x@ == t,
            None => r matches Err(m) && m@ == "no completion script for posix"@,
        },
{
    match shell {
        Shell::Fish => Ok(FISH_COMPLETIONS),
        Shell::Bash => Ok(BASH_COMPLETIONS),
        Shell::Zsh => Ok(ZSH_COMPLETIONS),
        Shell::Posix => Err("no completion script for posix".to_owned()),
    }
}

} // verus!
