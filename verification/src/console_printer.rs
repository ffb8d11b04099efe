//! The console sink: one switch for each level, and the block of lines that
//! an event is shown as.

use crate::date_time::civil_of;
use crate::log_event::{ContextModel, LogLevel, MyLogEvent, MyLogEventModel};
use crate::serializer::pairs_of;
use vstd::prelude::*;
use vstd::string::StringExecFns;

verus! {

/// What `format!("{:?}", text)` of the standard library writes for a string:
/// the text between double quotes, with the escapes of Rust.
pub uninterp spec fn debug_quoted(text: Seq<char>) -> Seq<char>;

/// `format!("{:?}", text)` of the standard library, for a string: the result
/// is named, and nothing else is claimed of it.
#[verifier::external_body]
fn debug_quote(text: &str) -> (quoted: String)
    ensures
        quoted@ == debug_quoted(text@),
{
    format!("{:?}", text)
}

/// Which levels reach the console.
#[derive(Debug, Clone, Copy, PartialEq, Eq, Structural)]
pub struct ConsoleFilter {
    pub print_debug: bool,
    pub print_fatal_errors: bool,
    pub print_errors: bool,
    pub print_warnings: bool,
    pub print_infos: bool,
}

/// What goes to the console for one event.
#[derive(Debug)]
pub struct ConsoleOutput {
    /// Whether the block goes to standard error; otherwise to standard
    /// output.
    pub to_stderr: bool,
    /// The lines of the block, each with its line feed.
    pub text: String,
}

/// The entries of a context as `{:?}` shows a map: `"key": "value"`, with
/// `, ` between each two.
pub open spec fn context_entries(pairs: ContextModel) -> Seq<char>
    decreases pairs.len(),
{
    if pairs.len() == 0 {
        Seq::empty()
    } else {
        context_entries(pairs.drop_last()) + if pairs.len() > 1 {
            ", "@
        } else {
            Seq::empty()
        } + debug_quoted(pairs.last().0) + ": "@ + debug_quoted(pairs.last().1)
    }
}

/// The line that shows the context of an event; nothing where the event has
/// none.
pub open spec fn context_line(context: Option<ContextModel>) -> Seq<char> {
    match context {
        Some(pairs) => "Context: {"@ + context_entries(pairs) + "}\n"@,
        None => Seq::empty(),
    }
}

/// The block of lines that shows an event: the time and the level, the
/// process, the message, the context if there is one, and a rule.
pub open spec fn console_block(event: MyLogEventModel) -> Seq<char> {
    civil_of(event.dt).rfc3339_text() + " "@ + event.level.name() + "\n"@ + "Process: "@
        + event.process + "\n"@ + "Message: "@ + event.message + "\n"@ + context_line(
        event.context,
    ) + "-------------------\n"@
}

/// Appends the entries of a context.
fn push_context_entries(out: &mut String, pairs: &[(String, String)])
    ensures
        final(out)@ == old(out)@ + context_entries(pairs_of(pairs@)),
{
    let ghost model = pairs_of(pairs@);
    let mut i: usize = 0;
    assert(model.take(0) == ContextModel::empty());
    while i < pairs.len()
        invariant
            i <= pairs.len(),
            model == pairs_of(pairs@),
            out@ == old(out)@ + context_entries(model.take(i as int)),
        decreases pairs.len() - i,
    {
        let ghost before = out@;
        proof {
            let longer = model.take(i as int + 1);
            assert(longer.drop_last() == model.take(i as int));
            assert(longer.last() == (pairs@[i as int].0@, pairs@[i as int].1@));
        }
        if i > 0 {
            out.append(", ");
        } else {
            assert(out@ == before + Seq::<char>::empty());
        }
        let key = debug_quote(pairs[i].0.as_str());
        let value = debug_quote(pairs[i].1.as_str());
        out.append(key.as_str());
        out.append(": ");
        out.append(value.as_str());
        i += 1;
        assert(out@ == old(out)@ + context_entries(model.take(i as int)));
    }
    assert(model.take(i as int) == model);
}

/// The block of lines that shows an event on the console, and the stream it
/// goes to: standard error for errors and fatal errors, standard output for
/// the rest.
pub fn write_log(log_event: &MyLogEvent) -> (output: ConsoleOutput)
    ensures
        output.text@ == console_block(log_event@),
        output.to_stderr == (log_event.level == LogLevel::Error || log_event.level
            == LogLevel::FatalError),
{
    let mut out = log_event.dt.to_rfc3339();
    out.append(" ");
    out.append(log_event.level.as_str());
    out.append("\n");
    out.append("Process: ");
    out.append(log_event.process.as_str());
    out.append("\n");
    out.append("Message: ");
    out.append(log_event.message.as_str());
    out.append("\n");
    let ghost head = out@;
    match &log_event.context {
        Some(context) => {
            assert(pairs_of(context@) == context.deep_view());
            out.append("Context: {");
            push_context_entries(&mut out, context.as_slice());
            out.append("}\n");
            assert(out@ == head + context_line(log_event@.context));
        },
        None => {
            assert(out@ == head + context_line(log_event@.context));
        },
    }
    out.append("-------------------\n");
    assert(out@ == console_block(log_event@));
    ConsoleOutput { to_stderr: log_event.level.is_error_or_fatal_error(), text: out }
}

impl ConsoleFilter {
    /// Whether events of `level` reach the console.
    pub open spec fn allows(self, level: LogLevel) -> bool {
        match level {
            LogLevel::Info => self.print_infos,
            LogLevel::Warning => self.print_warnings,
            LogLevel::Error => self.print_errors,
            LogLevel::FatalError => self.print_fatal_errors,
            LogLevel::Debug => self.print_debug,
        }
    }

    /// A filter that lets every level through.
    pub fn new() -> (filter: Self)
        ensures
            filter == (ConsoleFilter {
                print_debug: true,
                print_fatal_errors: true,
                print_errors: true,
                print_warnings: true,
                print_infos: true,
            }),
    {
        Self {
            print_fatal_errors: true,
            print_errors: true,
            print_warnings: true,
            print_infos: true,
            print_debug: true,
        }
    }

    pub fn set_print_fatal_errors(&mut self, value: bool)
        ensures
            *final(self) == (ConsoleFilter { print_fatal_errors: value, ..*old(self) }),
    {
        self.print_fatal_errors = value;
    }

    pub fn set_print_errors(&mut self, value: bool)
        ensures
            *final(self) == (ConsoleFilter { print_errors: value, ..*old(self) }),
    {
        self.print_errors = value;
    }

    pub fn set_print_warnings(&mut self, value: bool)
        ensures
            *final(self) == (ConsoleFilter { print_warnings: value, ..*old(self) }),
    {
        self.print_warnings = value;
    }

    pub fn set_print_infos(&mut self, value: bool)
        ensures
            *final(self) == (ConsoleFilter { print_infos: value, ..*old(self) }),
    {
        self.print_infos = value;
    }

    pub fn set_print_debug(&mut self, value: bool)
        ensures
            *final(self) == (ConsoleFilter { print_debug: value, ..*old(self) }),
    {
        self.print_debug = value;
    }

    /// What the console shows for an event: its block, if the switch of its
    /// level is on, and nothing otherwise.
    pub fn print_to_console(&self, log_event: &MyLogEvent) -> (output: Option<ConsoleOutput>)
        ensures
            output is Some == self.allows(log_event.level),
            output matches Some(block) ==> {
                &&& block.text@ == console_block(log_event@)
                &&& block.to_stderr == (log_event.level == LogLevel::Error || log_event.level
                    == LogLevel::FatalError)
            },
    {
        let enabled = match log_event.level {
            LogLevel::Info => self.print_infos,
            LogLevel::Warning => self.print_warnings,
            LogLevel::Error => self.print_errors,
            LogLevel::FatalError => self.print_fatal_errors,
            LogLevel::Debug => self.print_debug,
        };
        if enabled {
            Some(write_log(log_event))
        } else {
            None
        }
    }
}

} // verus!
