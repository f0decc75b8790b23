//! Where an entry function's output goes: the sink trait a run writes
//! through, and the two output builtins.

use vstd::prelude::*;

use crate::strbuf::{push_char, push_str};

verus! {

/// Receives an entry function's `print` output as the run produces it.
pub trait RunOutputSink {
    fn write(&mut self, text: &str);
}

impl RunOutputSink for String {
    /// Appends the text.
    fn write(&mut self, text: &str)
        ensures
            final(self)@ == old(self)@ + text@,
    {
        push_str(self, text);
    }
}

/// The output builtins: `print` ends its text with a line break, `write`
/// does not.
#[derive(Debug, Clone, Copy, PartialEq, Eq, Structural)]
pub enum OutputKind {
    Print,
    Write,
}

impl OutputKind {
    /// Whether the builtin ends its text with a line break.
    pub fn trailing_newline(self) -> (r: bool)
        ensures
            r == (self == OutputKind::Print),
    {
        match self {
            OutputKind::Print => true,
            OutputKind::Write => false,
        }
    }

    /// The builtin's language spelling.
    pub fn label(self) -> (r: &'static str)
        ensures
            r@ == (match self {
                OutputKind::Print => "print"@,
                OutputKind::Write => "write"@,
            }),
    {
        match self {
            OutputKind::Print => "print",
            OutputKind::Write => "write",
        }
    }
}

/// Appends what the builtin `kind` writes for `text` to the run's output.
pub fn emit_output(output: &mut String, kind: OutputKind, text: &str)
    ensures
        final(output)@ == old(output)@ + text@ + (if kind == OutputKind::Print {
            seq!['\n']
        } else {
            Seq::<char>::empty()
        }),
{
    push_str(output, text);
    if kind.trailing_newline() {
        push_char(output, '\n');
    }
    assert(output@ =~= old(output)@ + text@ + (if kind == OutputKind::Print {
        seq!['\n']
    } else {
        Seq::<char>::empty()
    }));
}

} // verus!
