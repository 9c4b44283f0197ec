//! Startup configuration: the values the command line gives, and the
//! defaults derived from the shell.
use vstd::prelude::*;

use crate::shell::{has_assoc_arrays, HeaderFormat, ShellType};
use crate::text::{chars_of, copy_range, equals_lit};

verus! {

broadcast use vstd::string::group_string_axioms;

#[derive(Clone, Copy, Debug, PartialEq, Eq, Structural)]
pub enum LogLevel {
    Error,
    Warn,
    Info,
    Debug,
    Trace,
}

/// The parsed command line.
#[derive(Debug)]
pub struct Args {
    pub port: u16,
    pub log_level: LogLevel,
    /// Shell to use for executing commands (auto-detected from $SHELL if not set)
    pub shell: Option<ShellType>,
    /// Format for passing headers to commands
    pub header_format: Option<HeaderFormat>,
    /// Format for passing query string parameters to commands
    pub query_format: Option<HeaderFormat>,
    /// (spec, command) pairs, flattened
    pub routes: Vec<String>,
}

/// The format in force: the one given, else associative arrays where the
/// shell has them and JSON where it does not.
pub open spec fn format_in_force(given: Option<HeaderFormat>, shell: ShellType) -> HeaderFormat {
    match given {
        Some(f) => f,
        None => if has_assoc_arrays(shell) {
            HeaderFormat::Assoc
        } else {
            HeaderFormat::Json
        },
    }
}

pub fn resolve_format(given: Option<HeaderFormat>, shell: ShellType) -> (r: HeaderFormat)
    ensures
        r == format_in_force(given, shell),
{
    match given {
        Some(f) => f,
        None => if shell.supports_assoc_arrays() {
            HeaderFormat::Assoc
        } else {
            HeaderFormat::Json
        },
    }
}

/// Whether `format` asks for arrays that `shell` does not have (the
/// operator is warned at startup; the preamble is then left out).
pub fn format_unsupported(format: HeaderFormat, shell: ShellType) -> (r: bool)
    ensures
        r == (format == HeaderFormat::Assoc && !has_assoc_arrays(shell)),
{
    format == HeaderFormat::Assoc && !shell.supports_assoc_arrays()
}

/// The text after the last `/` of `s` (all of `s` when it has none).
pub open spec fn base_name(s: Seq<char>) -> Seq<char> {
    if exists|i: int| 0 <= i < s.len() && s[i] == '/' {
        let j = choose|i: int|
            0 <= i < s.len() && s[i] == '/' && forall|k: int| i < k < s.len() ==> s[k] != '/';
        s.subrange(j + 1, s.len() as int)
    } else {
        s
    }
}

/// The shell that a `$SHELL` value names; bash where it is unset or names
/// no known shell.
pub open spec fn shell_named(shell_var: Option<Seq<char>>) -> ShellType {
    match shell_var {
        Some(p) => {
            let name = base_name(p);
            if name == "bash"@ {
                ShellType::Bash
            } else if name == "zsh"@ {
                ShellType::Zsh
            } else if name == "fish"@ {
                ShellType::Fish
            } else if name == "sh"@ {
                ShellType::Sh
            } else {
                ShellType::Bash
            }
        },
        None => ShellType::Bash,
    }
}

/// Detect the default shell from the value of `$SHELL`, if set.
pub fn detect_default_shell(shell_var: Option<&str>) -> (r: ShellType)
    ensures
        r == shell_named(
            match shell_var {
                Some(s) => Some(s@),
                None => None,
            },
        ),
{
    let path = match shell_var {
        Some(p) => p,
        None => {
            return ShellType::Bash;
        },
    };
    let v = chars_of(path);
    let n = v.len();
    let mut i: usize = n;
    while i > 0 && v[i - 1] != '/'
        invariant
            i <= n == v@.len(),
            forall|k: int| i <= k < n ==> v@[k] != '/',
        decreases i,
    {
        i = i - 1;
    }
    proof {
        if i > 0 {
            let j = choose|j: int|
                0 <= j < n && v@[j] == '/' && forall|k: int| j < k < n ==> v@[k] != '/';
            assert(j == i - 1) by {
                if j < i - 1 {
                    assert(v@[i - 1] != '/');
                } else if j > i - 1 {
                    assert(v@[j] != '/');
                }
            }
        } else {
            assert(v@.subrange(0, n as int) =~= v@);
        }
    }
    let name = copy_range(&v, i, n);
    if equals_lit(&name, "bash") {
        ShellType::Bash
    } else if equals_lit(&name, "zsh") {
        ShellType::Zsh
    } else if equals_lit(&name, "fish") {
        ShellType::Fish
    } else if equals_lit(&name, "sh") {
        ShellType::Sh
    } else {
        ShellType::Bash
    }
}

} // verus!
