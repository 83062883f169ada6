//! The shell function that lets `cd` go to a tracked repository by name, and
//! where it is installed.

use vstd::prelude::*;

use crate::text::{chars_of, ends_with, ends_with_chars, push_str, string_from};

verus! {

/// The shell function that changes to the directory of a tracked repository.
pub open spec fn cd_function() -> Seq<char> {
    "\ngitconform_cd() {\n    cd \"$(git-conform cd \"$1\")\" || return\n}\n"@
}

/// The error for a shell that has no known configuration file.
pub open spec fn unsupported_shell(shell: Seq<char>) -> Seq<char> {
    "Unsupported shell: "@ + shell
}

/// Where the shell function goes for the shell `shell` (the path of its
/// program) and the home directory `home_dir`, and what is appended there:
/// `.bashrc` for bash, `.zshrc` for zsh; an error for any other shell.
pub fn cd_setup(home_dir: &str, shell: &str) -> (r: Result<(String, String), String>)
    ensures
        match r {
            Ok((file, content)) => content@ == cd_function() && (if ends_with(shell@, "bash"@) {
                file@ == home_dir@ + "/.bashrc"@
            } else {
                ends_with(shell@, "zsh"@) && file@ == home_dir@ + "/.zshrc"@
            }),
            Err(e) => !ends_with(shell@, "bash"@) && !ends_with(shell@, "zsh"@) && e@
                == unsupported_shell(shell@),
        },
{
    let sc = chars_of(shell);
    let config = if ends_with_chars(&sc, &chars_of("bash")) {
        "/.bashrc"
    } else if ends_with_chars(&sc, &chars_of("zsh")) {
        "/.zshrc"
    } else {
        let mut msg: Vec<char> = Vec::new();
        push_str(&mut msg, "Unsupported shell: ");
        push_str(&mut msg, shell);
        return Err(string_from(&msg));
    };
    let mut file: Vec<char> = Vec::new();
    push_str(&mut file, home_dir);
    push_str(&mut file, config);
    let content = "\ngitconform_cd() {\n    cd \"$(git-conform cd \"$1\")\" || return\n}\n".to_owned();
    Ok((string_from(&file), content))
}

} // verus!
