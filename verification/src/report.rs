//! What the subcommands print and run: export statements or a JSON object
//! for the environment, the workspace report, and the command line to
//! execute.

use vstd::prelude::*;
use crate::cli::ExportFormat;
use crate::env::{Entry, Environment, merged};
use crate::json::{json_object, json_object_text};
use crate::text::strs;
use crate::workspace::Workspace;

verus! {

/// One `export KEY=VALUE` line per variable, in order.
pub open spec fn bash_exports(entries: Seq<Entry>) -> Seq<char>
    decreases entries.len(),
{
    if entries.len() == 0 {
        Seq::empty()
    } else {
        bash_exports(entries.drop_last()) + "export "@ + entries.last().0 + "="@
            + entries.last().1 + "\n"@
    }
}

/// What the export subcommand prints: export statements, or one JSON object
/// line mapping each name to the value of its last occurrence.
pub open spec fn export_output(entries: Seq<Entry>, format: ExportFormat) -> Seq<char> {
    match format {
        ExportFormat::Bash => bash_exports(entries),
        ExportFormat::Json => json_object(merged(entries)) + "\n"@,
    }
}

/// Renders the environment as the export subcommand prints it.
pub fn export_text(environment: &Environment, format: ExportFormat) -> (r: String)
    ensures
        r@ == export_output(environment@, format),
{
    match format {
        ExportFormat::Bash => {
            let ghost entries = environment@;
            let mut out = String::new();
            let mut i: usize = 0;
            assert(entries.take(0) =~= Seq::<Entry>::empty());
            while i < environment.variables.len()
                invariant
                    i <= environment.variables.len(),
                    entries == environment@,
                    out@ =~= bash_exports(entries.take(i as int)),
                decreases environment.variables.len() - i,
            {
                out.append("export ");
                out.append(environment.variables[i].key.as_str());
                out.append("=");
                out.append(environment.variables[i].value.as_str());
                out.append("\n");
                assert(entries.take(i + 1).drop_last() =~= entries.take(i as int));
                i = i + 1;
            }
            assert(entries.take(i as int) =~= entries);
            out
        },
        ExportFormat::Json => {
            let pairs = environment.to_map_entries();
            let mut out = json_object_text(&pairs);
            out.append("\n");
            out
        },
    }
}

/// What the inspect subcommand prints: the workspace, or a notice that no
/// container of it runs.
pub open spec fn inspect_output(folder: Seq<char>, has_containers: bool, text: Seq<char>) -> Seq<
    char,
> {
    if has_containers {
        text
    } else {
        "No running devcontainers found for "@ + folder + "\n"@
    }
}

/// Renders the workspace as the inspect subcommand prints it.
pub fn inspect_text(workspace: &Workspace) -> (r: String)
    ensures
        r@ == inspect_output(workspace.folder@, workspace.containers.len() > 0, workspace.text()),
{
    if workspace.containers.len() == 0 {
        let mut out = String::from_str("No running devcontainers found for ");
        out.append(workspace.folder.as_str());
        out.append("\n");
        out
    } else {
        workspace.to_string()
    }
}

/// The program that the exec subcommand runs when none is given.
pub open spec fn default_shell() -> Seq<char> {
    "sh"@
}

/// The program and the arguments that the exec subcommand runs: the first
/// word and the rest, or the shell with no arguments.
pub fn exec_invocation(command: Vec<String>) -> (r: (String, Vec<String>))
    ensures
        command.len() > 0 ==> r.0@ == command@[0]@ && strs(r.1@) == strs(command@).drop_first(),
        command.len() == 0 ==> r.0@ == default_shell() && r.1.len() == 0,
{
    let mut arguments = command;
    if arguments.len() > 0 {
        let ghost before = arguments@;
        let name = arguments.remove(0);
        assert(strs(arguments@) =~= strs(before).drop_first());
        (name, arguments)
    } else {
        (String::from_str("sh"), arguments)
    }
}

// ---------------------------------------------------------------------------
// Laws
// ---------------------------------------------------------------------------

/// A single variable exports as the one line `export KEY=VALUE`.
pub proof fn lemma_bash_export_single(e: Entry)
    ensures
        bash_exports(seq![e]) == "export "@ + e.0 + "="@ + e.1 + "\n"@,
{
    assert(seq![e].drop_last() =~= Seq::<Entry>::empty());
    assert(bash_exports(Seq::<Entry>::empty()) =~= Seq::<char>::empty());
}

/// Exporting two lists one after the other gives the exports of both, one
/// after the other: nothing is dropped, repeated or reordered.
pub proof fn lemma_bash_exports_concat(a: Seq<Entry>, b: Seq<Entry>)
    ensures
        bash_exports(a + b) == bash_exports(a) + bash_exports(b),
    decreases b.len(),
{
    if b.len() == 0 {
        assert(a + b =~= a);
        assert(bash_exports(b) =~= Seq::<char>::empty());
        assert(bash_exports(a) + bash_exports(b) =~= bash_exports(a));
    } else {
        lemma_bash_exports_concat(a, b.drop_last());
        assert((a + b).drop_last() =~= a + b.drop_last());
        assert((a + b).last() == b.last());
    }
}

/// Each variable has its own line `export KEY=VALUE`, in the variables'
/// order, between the lines of the variables before it and after it.
pub proof fn lemma_bash_exports_line(entries: Seq<Entry>, i: int)
    requires
        0 <= i < entries.len(),
    ensures
        bash_exports(entries) == bash_exports(entries.take(i)) + ("export "@ + entries[i].0 + "="@
            + entries[i].1 + "\n"@) + bash_exports(entries.skip(i + 1)),
{
    let head = entries.take(i);
    let tail = entries.skip(i + 1);
    assert(entries =~= head + (seq![entries[i]] + tail));
    lemma_bash_exports_concat(head, seq![entries[i]] + tail);
    lemma_bash_exports_concat(seq![entries[i]], tail);
    lemma_bash_export_single(entries[i]);
}

/// The bash export has as many characters as its lines together: one
/// `export KEY=VALUE` line per variable.
pub proof fn lemma_bash_exports_len(entries: Seq<Entry>)
    ensures
        bash_exports(entries).len() == export_lengths(entries),
    decreases entries.len(),
{
    if entries.len() > 0 {
        lemma_bash_exports_len(entries.drop_last());
        reveal_strlit("export ");
        reveal_strlit("=");
        reveal_strlit("\n");
    }
}

/// The summed length of the `export KEY=VALUE` lines of the variables.
pub open spec fn export_lengths(entries: Seq<Entry>) -> nat
    decreases entries.len(),
{
    if entries.len() == 0 {
        0
    } else {
        export_lengths(entries.drop_last()) + entries.last().0.len() + entries.last().1.len() + 9
    }
}

} // verus!
