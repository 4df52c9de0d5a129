use vstd::prelude::*;

use crate::span::Span;
use crate::text::copy_string;

verus! {

/// Which stage of the pipeline reported an error.
#[derive(Clone, Copy, Debug, PartialEq, Eq, Structural)]
pub enum Reason {
    Lexer,
    Parse,
    Runtime,
    /// A run stopped at a call the host has not answered yet.
    Host,
}

/// A named piece of source text that errors can point into.
#[derive(Debug)]
pub struct SourceFile {
    pub name: String,
    pub text: String,
}

/// The model of a source file: its name and its text.
pub struct SourceFileView {
    pub name: Seq<char>,
    pub text: Seq<char>,
}

impl View for SourceFile {
    type V = SourceFileView;

    open spec fn view(&self) -> SourceFileView {
        SourceFileView { name: self.name@, text: self.text@ }
    }
}

impl SourceFile {
    pub fn new(name: String, text: String) -> (f: SourceFile)
        ensures
            f.name@ == name@,
            f.text@ == text@,
    {
        SourceFile { name, text }
    }

    /// A copy of this file with the same name and text.
    pub fn duplicate(&self) -> (f: SourceFile)
        ensures
            f@ == self@,
    {
        SourceFile { name: copy_string(&self.name), text: copy_string(&self.text) }
    }
}

/// A secondary message attached to a span.
#[derive(Debug)]
pub struct Label {
    pub span: Span,
    pub message: String,
}

/// A diagnostic: what went wrong, where, and how to fix it.
#[derive(Debug)]
pub struct Error {
    pub reason: Reason,
    pub message: String,
    pub span: Option<Span>,
    pub line: Option<usize>,
    pub labels: Vec<Label>,
    pub help: Option<String>,
    pub source_file: Option<SourceFile>,
}

/// The model of an error: every field by its view.
pub struct ErrorView {
    pub reason: Reason,
    pub message: Seq<char>,
    pub span: Option<Span>,
    pub line: Option<usize>,
    pub labels: Seq<(Span, Seq<char>)>,
    pub help: Option<Seq<char>>,
    pub source_file: Option<SourceFileView>,
}

pub open spec fn labels_view(labels: Seq<Label>) -> Seq<(Span, Seq<char>)> {
    labels.map_values(|l: Label| (l.span, l.message@))
}

pub open spec fn opt_string_view(s: Option<String>) -> Option<Seq<char>> {
    match s {
        Some(t) => Some(t@),
        None => None,
    }
}

pub open spec fn opt_file_view(f: Option<SourceFile>) -> Option<SourceFileView> {
    match f {
        Some(g) => Some(g@),
        None => None,
    }
}

impl View for Error {
    type V = ErrorView;

    open spec fn view(&self) -> ErrorView {
        ErrorView {
            reason: self.reason,
            message: self.message@,
            span: self.span,
            line: self.line,
            labels: labels_view(self.labels@),
            help: opt_string_view(self.help),
            source_file: opt_file_view(self.source_file),
        }
    }
}

/// The error that `Error::at` builds: a reason, a message and a span, nothing else.
pub open spec fn error_at(reason: Reason, message: Seq<char>, span: Span) -> ErrorView {
    ErrorView {
        reason,
        message,
        span: Some(span),
        line: None,
        labels: Seq::empty(),
        help: None,
        source_file: None,
    }
}

/// The error that `Error::init` builds: a message, maybe a line, maybe a reason.
pub open spec fn error_init(message: Seq<char>, line: Option<usize>, reason: Reason) -> ErrorView {
    ErrorView {
        reason,
        message,
        span: None,
        line,
        labels: Seq::empty(),
        help: None,
        source_file: None,
    }
}

pub open spec fn with_label_view(e: ErrorView, span: Span, message: Seq<char>) -> ErrorView {
    ErrorView { labels: e.labels.push((span, message)), ..e }
}

pub open spec fn with_help_view(e: ErrorView, help: Seq<char>) -> ErrorView {
    ErrorView { help: Some(help), ..e }
}

pub open spec fn with_source_view(e: ErrorView, file: SourceFileView) -> ErrorView {
    ErrorView { source_file: Some(file), ..e }
}

impl Error {
    /// An error of the given reason at `span`.
    pub fn at(reason: Reason, message: String, span: Span) -> (e: Error)
        ensures
            e@ == error_at(reason, message@, span),
    {
        let e = Error {
            reason,
            message,
            span: Some(span),
            line: None,
            labels: Vec::new(),
            help: None,
            source_file: None,
        };
        proof {
            assert(labels_view(e.labels@) =~= Seq::<(Span, Seq<char>)>::empty());
        }
        e
    }

    /// An error located by line number only.
    pub fn init(message: String, line: Option<usize>, reason: Reason) -> (e: Error)
        ensures
            e@ == error_init(message@, line, reason),
    {
        let e = Error {
            reason,
            message,
            span: None,
            line,
            labels: Vec::new(),
            help: None,
            source_file: None,
        };
        proof {
            assert(labels_view(e.labels@) =~= Seq::<(Span, Seq<char>)>::empty());
        }
        e
    }

    /// The same error with one more label at the end.
    pub fn with_label(self, span: Span, message: String) -> (e: Error)
        ensures
            e@ == with_label_view(self@, span, message@),
    {
        let mut e = self;
        let ghost before = e.labels@;
        e.labels.push(Label { span, message });
        proof {
            assert(labels_view(e.labels@) =~= labels_view(before).push((span, message@)));
        }
        e
    }

    /// The same error with `help` as its help text.
    pub fn with_help(self, help: String) -> (e: Error)
        ensures
            e@ == with_help_view(self@, help@),
    {
        let mut e = self;
        e.help = Some(help);
        e
    }

    /// The same error with a copy of `file` attached.
    pub fn with_source_file(self, file: &SourceFile) -> (e: Error)
        ensures
            e@ == with_source_view(self@, file@),
    {
        let mut e = self;
        e.source_file = Some(file.duplicate());
        e
    }
}

} // verus!
