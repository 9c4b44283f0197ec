//! Shell dialects and the script builder: the preamble that hands request
//! headers and query parameters to a command as associative arrays.
use vstd::prelude::*;
use vstd::string::*;

use crate::text::{chars_of, contains_seq, escape_quotes, escape_single_quotes, push_range};

verus! {

/// The interpreter that runs bound commands.
#[derive(Clone, Copy, Debug, PartialEq, Eq, Structural)]
pub enum ShellType {
    Bash,
    Zsh,
    Fish,
    Sh,
}

/// How headers (or query parameters) reach a command.
#[derive(Clone, Copy, Debug, PartialEq, Eq, Structural)]
pub enum HeaderFormat {
    /// Associative array (for bash/zsh)
    Assoc,
    /// JSON string in an environment variable
    Json,
}

/// Name of the interpreter's executable.
pub open spec fn executable_name(shell: ShellType) -> Seq<char> {
    match shell {
        ShellType::Bash => "bash"@,
        ShellType::Zsh => "zsh"@,
        ShellType::Fish => "fish"@,
        ShellType::Sh => "sh"@,
    }
}

/// Only bash and zsh have associative arrays.
pub open spec fn has_assoc_arrays(shell: ShellType) -> bool {
    shell == ShellType::Bash || shell == ShellType::Zsh
}

impl ShellType {
    pub fn executable(&self) -> (r: &'static str)
        ensures
            r@ == executable_name(*self),
    {
        match self {
            ShellType::Bash => "bash",
            ShellType::Zsh => "zsh",
            ShellType::Fish => "fish",
            ShellType::Sh => "sh",
        }
    }

    pub fn supports_assoc_arrays(&self) -> (r: bool)
        ensures
            r == has_assoc_arrays(*self),
    {
        match self {
            ShellType::Bash | ShellType::Zsh => true,
            _ => false,
        }
    }
}

/// The text values of a list of key/value pairs.
pub open spec fn pairs_view(v: Seq<(String, String)>) -> Seq<(Seq<char>, Seq<char>)> {
    v.map_values(|p: (String, String)| (p.0@, p.1@))
}

/// One array element: `[key]='value' `, the value quote-escaped.
pub open spec fn entry_def(k: Seq<char>, v: Seq<char>) -> Seq<char> {
    "["@ + k + "]='"@ + escape_quotes(v) + "' "@
}

/// The array elements for every pair, in order.
pub open spec fn entry_defs(entries: Seq<(Seq<char>, Seq<char>)>) -> Seq<char>
    decreases entries.len(),
{
    if entries.len() == 0 {
        Seq::empty()
    } else {
        entry_defs(entries.drop_last()) + entry_def(entries.last().0, entries.last().1)
    }
}

/// The statement that declares the associative array `name`, in the shell's
/// own syntax; empty for a shell without associative arrays.
pub open spec fn array_preamble(
    shell: ShellType,
    name: Seq<char>,
    entries: Seq<(Seq<char>, Seq<char>)>,
) -> Seq<char> {
    match shell {
        ShellType::Bash => "declare -A "@ + name + "=("@ + entry_defs(entries) + "); "@,
        ShellType::Zsh => "typeset -A "@ + name + "; "@ + name + "=("@ + entry_defs(entries)
            + "); "@,
        _ => Seq::empty(),
    }
}

/// The preamble of one axis: the array when the format asks for one.
pub open spec fn section(
    shell: ShellType,
    format: HeaderFormat,
    name: Seq<char>,
    entries: Seq<(Seq<char>, Seq<char>)>,
) -> Seq<char> {
    if format == HeaderFormat::Assoc {
        array_preamble(shell, name, entries)
    } else {
        Seq::empty()
    }
}

/// The whole script: header preamble, query preamble, then the command.
pub open spec fn shell_script(
    shell: ShellType,
    header_format: HeaderFormat,
    headers: Seq<(Seq<char>, Seq<char>)>,
    query_format: HeaderFormat,
    query_params: Seq<(Seq<char>, Seq<char>)>,
    command: Seq<char>,
) -> Seq<char> {
    section(shell, header_format, "HEADERS"@, headers) + section(
        shell,
        query_format,
        "QUERY"@,
        query_params,
    ) + command
}

/// Appends `s` to `out`.
fn push_string(out: &mut String, s: &String)
    ensures
        final(out)@ == old(out)@ + s@,
{
    out.append(s.as_str());
}

/// Appends the array elements of every pair to `out`.
fn push_entry_defs(out: &mut String, entries: &Vec<(String, String)>)
    ensures
        final(out)@ == old(out)@ + entry_defs(pairs_view(entries@)),
{
    let mut i: usize = 0;
    while i < entries.len()
        invariant
            i <= entries@.len(),
            out@ == old(out)@ + entry_defs(pairs_view(entries@.take(i as int))),
        decreases entries@.len() - i,
    {
        let ghost prev = out@;
        let (k, v) = &entries[i];
        let vc = chars_of(v.as_str());
        let esc = escape_single_quotes(&vc);
        out.append("[");
        push_string(out, k);
        out.append("]='");
        push_range(out, &esc, 0, esc.len());
        out.append("' ");
        proof {
            let t = pairs_view(entries@.take(i + 1));
            assert(esc@.subrange(0, esc@.len() as int) =~= esc@);
            assert(t.drop_last() =~= pairs_view(entries@.take(i as int)));
            assert(t.last() == (k@, v@));
            assert(out@ =~= prev + entry_def(k@, v@));
        }
        i = i + 1;
    }
    assert(entries@.take(entries@.len() as int) =~= entries@);
}

/// Appends the declaration of the associative array `name` to `out`.
fn push_array_preamble(
    out: &mut String,
    shell: &ShellType,
    name: &str,
    entries: &Vec<(String, String)>,
)
    ensures
        final(out)@ == old(out)@ + array_preamble(*shell, name@, pairs_view(entries@)),
{
    let ghost defs = entry_defs(pairs_view(entries@));
    match shell {
        ShellType::Bash => {
            out.append("declare -A ");
            out.append(name);
            out.append("=(");
            push_entry_defs(out, entries);
            out.append("); ");
            assert(out@ =~= old(out)@ + ("declare -A "@ + name@ + "=("@ + defs + "); "@));
        },
        ShellType::Zsh => {
            out.append("typeset -A ");
            out.append(name);
            out.append("; ");
            out.append(name);
            out.append("=(");
            push_entry_defs(out, entries);
            out.append("); ");
            assert(out@ =~= old(out)@ + ("typeset -A "@ + name@ + "; "@ + name@ + "=("@ + defs
                + "); "@));
        },
        _ => {
            assert(out@ =~= old(out)@ + Seq::<char>::empty());
        },
    }
}

/// Builds the script that the shell runs: for each axis whose format is
/// `Assoc`, a one-line array declaration (none where the shell has no
/// associative arrays), then the command itself.
pub fn build_shell_script(
    shell: &ShellType,
    header_format: &HeaderFormat,
    headers: &Vec<(String, String)>,
    query_format: &HeaderFormat,
    query_params: &Vec<(String, String)>,
    command: &str,
) -> (r: String)
    ensures
        r@ == shell_script(
            *shell,
            *header_format,
            pairs_view(headers@),
            *query_format,
            pairs_view(query_params@),
            command@,
        ),
{
    let mut out = String::new();
    if *header_format == HeaderFormat::Assoc {
        push_array_preamble(&mut out, shell, "HEADERS", headers);
    }
    let ghost after_headers = out@;
    if *query_format == HeaderFormat::Assoc {
        push_array_preamble(&mut out, shell, "QUERY", query_params);
    }
    let ghost after_query = out@;
    out.append(command);
    assert(out@ =~= after_headers + (after_query.subrange(after_headers.len() as int, after_query.len() as int)) + command@);
    out
}

/// With both formats set to JSON no preamble is written: the script is the
/// command itself, whatever the shell, headers and query parameters.
pub proof fn lemma_json_formats_script_is_command(
    shell: ShellType,
    headers: Seq<(Seq<char>, Seq<char>)>,
    query_params: Seq<(Seq<char>, Seq<char>)>,
    command: Seq<char>,
)
    ensures
        shell_script(shell, HeaderFormat::Json, headers, HeaderFormat::Json, query_params, command)
            == command,
{
    assert(Seq::<char>::empty() + Seq::<char>::empty() + command =~= command);
}

/// A shell without associative arrays gets no preamble in either format:
/// the script is the command itself.
pub proof fn lemma_no_arrays_script_is_command(
    shell: ShellType,
    header_format: HeaderFormat,
    headers: Seq<(Seq<char>, Seq<char>)>,
    query_format: HeaderFormat,
    query_params: Seq<(Seq<char>, Seq<char>)>,
    command: Seq<char>,
)
    requires
        !has_assoc_arrays(shell),
    ensures
        shell_script(shell, header_format, headers, query_format, query_params, command)
            == command,
{
    assert(Seq::<char>::empty() + Seq::<char>::empty() + command =~= command);
}

/// The elements of all pairs are those before pair `i`, pair `i`'s, then
/// those after it.
proof fn lemma_entry_defs_split(entries: Seq<(Seq<char>, Seq<char>)>, i: int)
    requires
        0 <= i < entries.len(),
    ensures
        entry_defs(entries) == entry_defs(entries.take(i)) + entry_def(entries[i].0, entries[i].1)
            + entry_defs(entries.skip(i + 1)),
    decreases entries.len(),
{
    let e = entry_def(entries[i].0, entries[i].1);
    if i == entries.len() - 1 {
        assert(entries.drop_last() =~= entries.take(i));
        assert(entries.skip(i + 1) =~= Seq::<(Seq<char>, Seq<char>)>::empty());
        assert(entry_defs(entries.take(i)) + e + Seq::<char>::empty() =~= entry_defs(
            entries.take(i),
        ) + e);
    } else {
        let d = entries.drop_last();
        lemma_entry_defs_split(d, i);
        assert(d.take(i) =~= entries.take(i));
        assert(d[i] == entries[i]);
        let after = entries.skip(i + 1);
        assert(after.drop_last() =~= d.skip(i + 1));
        assert(after.last() == entries.last());
        assert(entry_defs(after) == entry_defs(d.skip(i + 1)) + entry_def(
            entries.last().0,
            entries.last().1,
        ));
        assert(entry_defs(entries.take(i)) + e + entry_defs(d.skip(i + 1)) + entry_def(
            entries.last().0,
            entries.last().1,
        ) =~= entry_defs(entries.take(i)) + e + entry_defs(after));
    }
}

/// With associative headers on a shell that has arrays, every header
/// reaches the script as its element `[key]='value' `, the value
/// quote-escaped (which the shell reads back as the value itself).
pub proof fn lemma_header_element_in_script(
    shell: ShellType,
    headers: Seq<(Seq<char>, Seq<char>)>,
    query_format: HeaderFormat,
    query_params: Seq<(Seq<char>, Seq<char>)>,
    command: Seq<char>,
    i: int,
)
    requires
        has_assoc_arrays(shell),
        0 <= i < headers.len(),
    ensures
        contains_seq(
            shell_script(shell, HeaderFormat::Assoc, headers, query_format, query_params, command),
            entry_def(headers[i].0, headers[i].1),
        ),
{
    lemma_entry_defs_split(headers, i);
    let e = entry_def(headers[i].0, headers[i].1);
    let before = entry_defs(headers.take(i));
    let after = entry_defs(headers.skip(i + 1));
    let name = "HEADERS"@;
    let head = if shell == ShellType::Bash {
        "declare -A "@ + name + "=("@
    } else {
        "typeset -A "@ + name + "; "@ + name + "=("@
    };
    let tail = "); "@ + section(shell, query_format, "QUERY"@, query_params) + command;
    let script = shell_script(shell, HeaderFormat::Assoc, headers, query_format, query_params, command);
    assert(script =~= (head + before) + e + (after + tail));
    let p = (head + before).len() as int;
    assert(script.subrange(p, p + e.len()) =~= e);
}

} // verus!
