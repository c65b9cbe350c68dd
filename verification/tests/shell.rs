//! The scripts `--shellenv` and `--completions` print.

use lane::args::Shell;
use lane::shell::{completion_script, shell_function};

#[test]
fn bash_zsh_and_posix_share_one_function() {
    let posix = shell_function(Shell::Posix);
    assert_eq!(shell_function(Shell::Bash), posix);
    assert_eq!(shell_function(Shell::Zsh), posix);
    assert!(posix.starts_with("lane() {\n  local p\n"));
    assert!(posix.contains("-d|-D|--delete|--force-delete)"));
    assert!(posix.contains("[ -n \"$p\" ] && cd \"$p\""));
}

#[test]
fn fish_gets_its_own_function() {
    let fish = shell_function(Shell::Fish);
    assert!(fish.starts_with("function lane\n"));
    assert!(fish.contains("case '-d' '-D' '--delete' '--force-delete'"));
    assert!(fish.ends_with("  end\nend"));
}

#[test]
fn completions_exist_for_fish_bash_and_zsh_only() {
    assert!(completion_script(Shell::Fish).unwrap().starts_with("complete -c lane -f\n"));
    assert!(completion_script(Shell::Bash).unwrap().ends_with("complete -F _lane lane"));
    let zsh = completion_script(Shell::Zsh).unwrap();
    assert!(zsh.starts_with("#compdef lane\n"));
    assert!(zsh.contains("lanes=(${(f)\"$(command lane 2>/dev/null | awk '{print $1}')\"})"));
    assert_eq!(
        completion_script(Shell::Posix).unwrap_err(),
        "no completion script for posix"
    );
}
