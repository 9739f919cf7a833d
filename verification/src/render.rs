//! Rendering of runtime faults with the source that they point into.

use vstd::prelude::*;
use vstd::string::StringExecFns;
use codespan_reporting::diagnostic::{Diagnostic, Label, Severity};
use codespan_reporting::files::SimpleFile;
use codespan_reporting::term::termcolor::NoColor;
use codespan_reporting::term::{emit, Config};
use crate::filedb::FileDb;
use crate::interpreter::Program;
use crate::runtime::{CallFrame, IError};
use crate::util::CodeLoc;

verus! {

/// The text that the diagnostics renderer makes of one labelled span of a
/// source file, or nothing where the renderer refuses the span.
pub uninterp spec fn label_text(name: Seq<char>, source: Seq<char>, start: int, end: int) -> Option<
    Seq<char>,
>;

/// Renders the span `start..end` of the file `name` with the text
/// `source`, as a note without a message and with one primary label.
///
/// Trusted: `codespan_reporting::term::emit`, on a `SimpleFile`, without
/// colour and with the default configuration. What it writes depends on the
/// arguments alone; the contract gives that text its name and claims
/// nothing else of it. Only a span is handed over, with its start not
/// after its end. The start stays below the largest index: the renderer
/// adds one to the distance of the start from the start of its line, and
/// in a source of one line that distance is the start itself.
#[verifier::external_body]
fn emit_label(name: &str, source: &str, start: usize, end: usize) -> (r: Option<String>)
    requires
        start <= end,
        start < usize::MAX,
    ensures
        match label_text(name@, source@, start as int, end as int) {
            Some(text) => r is Some && r->Some_0@ == text,
            None => r is None,
        },
{
    let file = SimpleFile::new(name, source);
    let diagnostic = Diagnostic::new(Severity::Note).with_labels(vec![Label::primary((), start..end)]);
    let mut out = NoColor::new(Vec::new());
    emit(&mut out, &Config::default(), &file, &diagnostic).ok()?;
    String::from_utf8(out.into_inner()).ok()
}

/// Whether the renderer can be asked for the span of `loc`: the start is
/// not after the end, and below the largest index of the machine.
pub open spec fn can_render(loc: CodeLoc) -> bool {
    loc.start <= loc.end && loc.start < usize::MAX
}

/// The text for one place in the source: the rendered span, or nothing
/// where the place is in no file of `files` or its span cannot be
/// rendered.
pub open spec fn place_text(files: FileDb, loc: CodeLoc) -> Seq<char> {
    if loc.file < files.files@.len() && can_render(loc) {
        match label_text(
            files.files@[loc.file as int].name@,
            files.files@[loc.file as int].source@,
            loc.start as int,
            loc.end as int,
        ) {
            Some(text) => text,
            None => Seq::empty(),
        }
    } else {
        Seq::empty()
    }
}

/// The text for the frames from index `from` on, in order.
pub open spec fn trace_text(files: FileDb, frames: Seq<CallFrame>, from: int) -> Seq<char>
    decreases frames.len() - from,
{
    if from < 0 || from >= frames.len() {
        Seq::empty()
    } else {
        place_text(files, frames[from].loc) + trace_text(files, frames, from + 1)
    }
}

/// The rendering of a fault: a line with the short name and the message,
/// and then the source of every frame of the stack trace but the first.
pub open spec fn rendered(error: IError, stack_trace: Seq<CallFrame>, files: FileDb) -> Seq<char> {
    error.short_name@ + ": "@ + error.message@ + "\n"@ + trace_text(files, stack_trace, 1)
}

/// Renders the place `loc`.
fn render_place(files: &FileDb, loc: CodeLoc) -> (r: Option<String>)
    ensures
        match r {
            Some(text) => text@ == place_text(*files, loc),
            None => place_text(*files, loc) == Seq::<char>::empty(),
        },
{
    if loc.start > loc.end || loc.start as usize >= usize::MAX {
        return None;
    }
    match files.get(loc.file) {
        Some(file) => emit_label(
            file.name.as_str(),
            file.source.as_str(),
            loc.start as usize,
            loc.end as usize,
        ),
        None => None,
    }
}

/// Renders a fault with its stack trace: a line `short_name: message`, and
/// then the source of every frame of the trace but the first.
pub fn render_err(error: &IError, stack_trace: &Vec<CallFrame>, program: &Program) -> (out: String)
    ensures
        out@ == rendered(*error, stack_trace@, program.files),
{
    let mut out: String = String::from_str(error.short_name.as_str());
    out.append(": ");
    out.append(error.message.as_str());
    out.append("\n");
    let ghost head = out@;
    let mut i: usize = 1;
    if stack_trace.len() == 0 {
        assert(out@ + trace_text(program.files, stack_trace@, 1) =~= out@);
        return out;
    }
    assert(out@ =~= head + Seq::<char>::empty());
    while i < stack_trace.len()
        invariant
            1 <= i <= stack_trace@.len(),
            head == error.short_name@ + ": "@ + error.message@ + "\n"@,
            head + trace_text(program.files, stack_trace@, 1) == out@ + trace_text(
                program.files,
                stack_trace@,
                i as int,
            ),
        decreases stack_trace@.len() - i,
    {
        let ghost before = out@;
        let ghost rest = trace_text(program.files, stack_trace@, i + 1);
        match render_place(&program.files, stack_trace[i].loc) {
            Some(text) => {
                out.append(text.as_str());
                assert(before + (text@ + rest) =~= out@ + rest);
            },
            None => {
                assert(before + (Seq::<char>::empty() + rest) =~= out@ + rest);
            },
        }
        i = i + 1;
    }
    assert(out@ + Seq::<char>::empty() =~= out@);
    out
}

} // verus!
