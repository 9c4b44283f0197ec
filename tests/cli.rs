use sherut::cli::{detect_default_shell, format_unsupported, resolve_format};
use sherut::shell::{HeaderFormat, ShellType};

#[test]
fn detect_default_shell_reads_last_path_segment() {
    assert_eq!(detect_default_shell(Some("/bin/bash")), ShellType::Bash);
    assert_eq!(detect_default_shell(Some("/usr/local/bin/zsh")), ShellType::Zsh);
    assert_eq!(detect_default_shell(Some("/usr/bin/fish")), ShellType::Fish);
    assert_eq!(detect_default_shell(Some("sh")), ShellType::Sh);
    assert_eq!(detect_default_shell(Some("/bin/tcsh")), ShellType::Bash);
    assert_eq!(detect_default_shell(Some("/bin/zsh/")), ShellType::Bash);
    assert_eq!(detect_default_shell(None), ShellType::Bash);
}

#[test]
fn formats_default_from_shell() {
    assert_eq!(resolve_format(None, ShellType::Bash), HeaderFormat::Assoc);
    assert_eq!(resolve_format(None, ShellType::Zsh), HeaderFormat::Assoc);
    assert_eq!(resolve_format(None, ShellType::Fish), HeaderFormat::Json);
    assert_eq!(resolve_format(None, ShellType::Sh), HeaderFormat::Json);
    assert_eq!(resolve_format(Some(HeaderFormat::Json), ShellType::Bash), HeaderFormat::Json);
    assert_eq!(resolve_format(Some(HeaderFormat::Assoc), ShellType::Fish), HeaderFormat::Assoc);
}

#[test]
fn unsupported_format_is_flagged() {
    assert!(format_unsupported(HeaderFormat::Assoc, ShellType::Fish));
    assert!(!format_unsupported(HeaderFormat::Assoc, ShellType::Bash));
    assert!(!format_unsupported(HeaderFormat::Json, ShellType::Sh));
}
