use vstd::prelude::*;

use crate::environment::{bind, lookup, names_of, position, BindingView, Environment};
use crate::errors::{
    error_at, with_help_view, with_source_view, Error, ErrorView, Reason, SourceFile,
    SourceFileView,
};
use crate::span::Span;
use crate::suggest::{closest, closest_match, string_views};
use crate::text::{concat2, concat3, string_of};
use crate::value::{models, Value, ValueView};

verus! {

/// What the host answered to one call: a value, or that it has no function
/// of that name (with the names it does have).
#[derive(Debug)]
pub enum HostAnswer {
    Returned(Value),
    Unknown(Vec<String>),
}

/// A call the library asks the host to make: the function's name and the
/// argument values.
#[derive(Debug)]
pub struct HostRequest {
    pub name: String,
    pub args: Vec<Value>,
}

/// The reply a call got, by its model: the value returned, that the host has
/// no function of that name, or none yet.
pub enum HostReply {
    Returned(ValueView),
    Unknown(Seq<Seq<char>>),
    Awaited,
}

/// One call into the host: the name and arguments asked for, and the reply.
pub struct HostCall {
    pub name: Seq<char>,
    pub args: Seq<ValueView>,
    pub reply: HostReply,
}

impl HostAnswer {
    pub open spec fn reply(&self) -> HostReply {
        match self {
            HostAnswer::Returned(v) => HostReply::Returned(v@),
            HostAnswer::Unknown(names) => HostReply::Unknown(string_views(names@)),
        }
    }
}

/// The replies that `answers` give to the calls of a run, in order; past
/// the last answer a call gets no reply yet.
pub open spec fn reply_at(answers: Seq<HostAnswer>, i: int) -> HostReply {
    if 0 <= i < answers.len() {
        answers[i].reply()
    } else {
        HostReply::Awaited
    }
}

/// The host's side of a run. The library makes no call itself: the caller
/// hands it the answers to the calls of a run, in order, and the library takes
/// them one by one. The first call past the last answer is kept in `request`
/// for the caller to make; the run then stops, and the caller runs it again
/// with that answer added.
pub struct Host {
    pub answers: Vec<HostAnswer>,
    pub used: usize,
    pub request: Option<HostRequest>,
    /// Every call the run has asked for, with the reply it got, in order.
    pub calls: Ghost<Seq<HostCall>>,
}

impl Host {
    /// The log agrees with the answers: the `i`th call got the `i`th answer or,
    /// past the last one, no reply; `used` counts the answers taken; and
    /// `request` is the first call that found no answer.
    pub open spec fn wf(&self) -> bool {
        &&& self.used as int == if self.calls@.len() <= self.answers@.len() {
            self.calls@.len() as int
        } else {
            self.answers@.len() as int
        }
        &&& forall|i: int| 0 <= i < self.calls@.len() ==> #[trigger] self.calls@[i].reply == reply_at(self.answers@, i)
        &&& match self.request {
            None => self.calls@.len() <= self.answers@.len(),
            Some(req) => {
                &&& self.calls@.len() > self.answers@.len()
                &&& req.name@ == self.calls@[self.answers@.len() as int].name
                &&& models(req.args@) == self.calls@[self.answers@.len() as int].args
            },
        }
    }

    /// A host with these answers, before any call.
    pub fn new(answers: Vec<HostAnswer>) -> (h: Host)
        ensures
            h.wf(),
            h.answers == answers,
            h.calls@ == Seq::<HostCall>::empty(),
            h.request is None,
    {
        Host { answers, used: 0, request: None, calls: Ghost(Seq::empty()) }
    }
}

/// The error for a call the host has not answered yet.
pub open spec fn awaiting_error(name: Seq<char>, span: Span, src: Option<SourceFileView>) -> ErrorView {
    match src {
        Some(f) => with_source_view(error_at(Reason::Host, "call awaits the host: "@ + name, span), f),
        None => error_at(Reason::Host, "call awaits the host: "@ + name, span),
    }
}

/// Evaluates expressions and statements against an environment of variables.
pub struct Evaluator {
    pub environment: Environment,
    pub source_file: Option<SourceFile>,
}

/// A runtime error at `span`, with the source file attached when one is known.
pub open spec fn runtime_error(message: Seq<char>, span: Span, src: Option<SourceFileView>) -> ErrorView {
    match src {
        Some(f) => with_source_view(error_at(Reason::Runtime, message, span), f),
        None => error_at(Reason::Runtime, message, span),
    }
}

/// The help text that proposes `s` in place of a misspelled name.
pub open spec fn did_you_mean(s: Seq<char>) -> Seq<char> {
    "did you mean `"@ + s + "`?"@
}

/// `e`, with a suggestion among `cands` for `name` as its help where there is one.
pub open spec fn with_suggestion(e: ErrorView, name: Seq<char>, cands: Seq<Seq<char>>) -> ErrorView {
    match closest(name, cands) {
        Some(s) => with_help_view(e, did_you_mean(s)),
        None => e,
    }
}

/// The error for reading a variable that is not bound.
pub open spec fn undefined_variable_error(
    name: Seq<char>,
    env: Seq<BindingView>,
    span: Span,
    src: Option<SourceFileView>,
) -> ErrorView {
    with_suggestion(runtime_error("undefined variable "@ + name, span, src), name, names_of(env))
}

/// The error for assigning to a constant.
pub open spec fn constant_assignment_error(name: Seq<char>, span: Span, src: Option<SourceFileView>) -> ErrorView {
    runtime_error("cannot assign to constant '"@ + name + "'"@, span, src)
}

/// The error for declaring a constant under a name already bound.
pub open spec fn redeclaration_error(name: Seq<char>, span: Span, src: Option<SourceFileView>) -> ErrorView {
    runtime_error("'"@ + name + "' is already declared"@, span, src)
}

/// The error for calling a function the host does not have.
pub open spec fn undefined_function_error(
    name: Seq<char>,
    known: Seq<Seq<char>>,
    span: Span,
    src: Option<SourceFileView>,
) -> ErrorView {
    with_suggestion(runtime_error("undefined function "@ + name, span, src), name, known)
}

/// Reading a variable: its value, or the error for an unbound name.
pub open spec fn read_variable(
    env: Seq<BindingView>,
    name: Seq<char>,
    span: Span,
    src: Option<SourceFileView>,
) -> Result<ValueView, ErrorView> {
    match lookup(env, name) {
        Some((v, _)) => Ok(v),
        None => Err(undefined_variable_error(name, env, span, src)),
    }
}

/// Assigning a variable: refused on a constant, else the name is bound as a variable.
pub open spec fn assign_variable(
    env: Seq<BindingView>,
    name: Seq<char>,
    value: ValueView,
    span: Span,
    src: Option<SourceFileView>,
) -> Result<Seq<BindingView>, ErrorView> {
    match lookup(env, name) {
        Some((_, true)) => Err(constant_assignment_error(name, span, src)),
        _ => Ok(bind(env, name, value, false)),
    }
}

/// Declaring a constant: refused on any bound name, else the name is bound as a constant.
pub open spec fn declare_constant(
    env: Seq<BindingView>,
    name: Seq<char>,
    value: ValueView,
    span: Span,
    src: Option<SourceFileView>,
) -> Result<Seq<BindingView>, ErrorView> {
    match lookup(env, name) {
        Some(_) => Err(redeclaration_error(name, span, src)),
        None => Ok(bind(env, name, value, true)),
    }
}

/// What a call returns, given the host's reply.
pub open spec fn call_result(
    name: Seq<char>,
    reply: HostReply,
    span: Span,
    src: Option<SourceFileView>,
) -> Result<ValueView, ErrorView> {
    match reply {
        HostReply::Returned(v) => Ok(v),
        HostReply::Unknown(known) => Err(undefined_function_error(name, known, span, src)),
        HostReply::Awaited => Err(awaiting_error(name, span, src)),
    }
}

pub open spec fn opt_src(f: Option<SourceFile>) -> Option<SourceFileView> {
    match f {
        Some(g) => Some(g@),
        None => None,
    }
}

pub open spec fn result_view(r: Result<Value, Error>) -> Result<ValueView, ErrorView> {
    match r {
        Ok(v) => Ok(v@),
        Err(e) => Err(e@),
    }
}

pub open spec fn unit_result_view(r: Result<(), Error>) -> Result<(), ErrorView> {
    match r {
        Ok(()) => Ok(()),
        Err(e) => Err(e@),
    }
}

impl Evaluator {
    /// The evaluator's model state: the bindings in scope.
    pub open spec fn env(&self) -> Seq<BindingView> {
        self.environment@
    }

    /// The source file errors are attached to, by its view.
    pub open spec fn src(&self) -> Option<SourceFileView> {
        opt_src(self.source_file)
    }

    /// An evaluator with nothing bound and no source file.
    pub fn new() -> (ev: Evaluator)
        ensures
            ev.env() == Seq::<BindingView>::empty(),
            ev.source_file is None,
    {
        Evaluator {
            environment: Environment::new(),
            source_file: None,
        }
    }

    /// The same evaluator, attaching `file` to the errors it reports.
    pub fn with_source_file(self, file: SourceFile) -> (ev: Evaluator)
        ensures
            ev.env() == self.env(),
            ev.src() == Some(file@),
    {
        let mut ev = self;
        ev.source_file = Some(file);
        ev
    }

    /// Attaches `file` to the errors this evaluator reports from now on.
    pub fn set_source_file(&mut self, file: SourceFile)
        ensures
            final(self).env() == old(self).env(),
            final(self).src() == Some(file@),
    {
        self.source_file = Some(file);
    }

    /// A runtime error at `span`, with the source attached when known.
    pub fn err(&self, message: String, span: Span) -> (e: Error)
        ensures
            e@ == runtime_error(message@, span, self.src()),
    {
        let e = Error::at(Reason::Runtime, message, span);
        match &self.source_file {
            Some(file) => e.with_source_file(file),
            None => e,
        }
    }

    /// `e` with a suggestion among `candidates` for `name` as its help, where there is one.
    fn suggest(e: Error, name: &str, candidates: &Vec<String>) -> (r: Error)
        ensures
            r@ == with_suggestion(e@, name@, string_views(candidates@)),
    {
        match closest_match(name, candidates) {
            Some(s) => e.with_help(concat3("did you mean `", s.as_str(), "`?")),
            None => e,
        }
    }

    /// The value bound to `name`, or an error (with a suggestion) when it is unbound.
    pub fn get_value(&self, name: &str, span: Span) -> (r: Result<Value, Error>)
        ensures
            result_view(r) == read_variable(self.env(), name@, span, self.src()),
    {
        let key = string_of(name);
        match self.environment.position(&key) {
            Some(i) => Ok(self.environment.bindings[i].value.duplicate()),
            None => {
                let e = self.err(concat2("undefined variable ", name), span);
                let names = self.environment.names();
                Err(Self::suggest(e, name, &names))
            },
        }
    }

    /// Binds `name` to `value` as a variable; refused where `name` is a constant.
    pub fn insert_value(&mut self, name: String, value: Value, span: Span) -> (r: Result<(), Error>)
        ensures
            match assign_variable(old(self).env(), name@, value@, span, old(self).src()) {
                Ok(env) => r is Ok && final(self).env() == env,
                Err(e) => r matches Err(x) && x@ == e && final(self).env() == old(self).env(),
            },
            final(self).source_file == old(self).source_file,
    {
        match self.environment.position(&name) {
            Some(i) => {
                if self.environment.bindings[i].constant {
                    let msg = concat3("cannot assign to constant '", name.as_str(), "'");
                    return Err(self.err(msg, span));
                }
            },
            None => {},
        }
        self.environment.bind(name, value, false);
        Ok(())
    }

    /// Binds `name` to `value` as a constant; refused where `name` is already bound.
    pub fn insert_const(&mut self, name: String, value: Value, span: Span) -> (r: Result<(), Error>)
        ensures
            match declare_constant(old(self).env(), name@, value@, span, old(self).src()) {
                Ok(env) => r is Ok && final(self).env() == env,
                Err(e) => r matches Err(x) && x@ == e && final(self).env() == old(self).env(),
            },
            final(self).source_file == old(self).source_file,
    {
        match self.environment.position(&name) {
            Some(_) => {
                let msg = concat3("'", name.as_str(), "' is already declared");
                Err(self.err(msg, span))
            },
            None => {
                self.environment.bind(name, value, true);
                Ok(())
            },
        }
    }

    /// What a call of `name` gives when the host answered `answer`: the
    /// value returned, or, for a name the host does not have, the error with
    /// a suggestion among the names it does have.
    pub fn answer(&self, name: &str, answer: &HostAnswer, span: Span) -> (r: Result<Value, Error>)
        ensures
            result_view(r) == call_result(name@, answer.reply(), span, self.src()),
    {
        match answer {
            HostAnswer::Returned(v) => Ok(v.duplicate()),
            HostAnswer::Unknown(names) => {
                let e = self.err(concat2("undefined function ", name), span);
                Err(Self::suggest(e, name, names))
            },
        }
    }

    /// Calls the host function `name` on `args`. The library does not make
    /// the call: it takes the next answer the host was given, or, where there
    /// is none left, records the call in `host.request` (unless an earlier
    /// call is already there) and gives the error that the call awaits the host.
    pub fn call_function(
        &mut self,
        name: &str,
        args: Vec<Value>,
        span: Span,
        host: &mut Host,
    ) -> (r: Result<Value, Error>)
        requires
            old(host).wf(),
        ensures
            *final(self) == *old(self),
            final(host).wf(),
            final(host).answers == old(host).answers,
            final(host).calls@ == old(host).calls@.push(
                HostCall {
                    name: name@,
                    args: models(args@),
                    reply: reply_at(old(host).answers@, old(host).calls@.len() as int),
                },
            ),
            old(host).request is None && old(host).calls@.len() == old(host).answers@.len() ==> (
            final(host).request matches Some(req) && req.name@ == name@ && models(req.args@) == models(
                args@,
            )),
            result_view(r) == call_result(
                name@,
                reply_at(old(host).answers@, old(host).calls@.len() as int),
                span,
                old(self).src(),
            ),
    {
        let ghost arg_views = models(args@);
        let ghost k = host.calls@.len();
        if host.used < host.answers.len() {
            let i = host.used;
            let ghost reply = host.answers@[i as int].reply();
            host.used = host.used + 1;
            host.calls = Ghost(host.calls@.push(HostCall { name: name@, args: arg_views, reply }));
            proof {
                assert forall|j: int| 0 <= j < host.calls@.len() implies #[trigger] host.calls@[j].reply
                    == reply_at(host.answers@, j) by {
                    if j < k {
                        assert(old(host).calls@[j].reply == reply_at(host.answers@, j));
                    }
                }
            }
            self.answer(name, &host.answers[i], span)
        } else {
            host.calls = Ghost(host.calls@.push(HostCall { name: name@, args: arg_views, reply: HostReply::Awaited }));
            if host.request.is_none() {
                host.request = Some(HostRequest { name: string_of(name), args });
            }
            proof {
                assert forall|j: int| 0 <= j < host.calls@.len() implies #[trigger] host.calls@[j].reply
                    == reply_at(host.answers@, j) by {
                    if j < k {
                        assert(old(host).calls@[j].reply == reply_at(host.answers@, j));
                    }
                }
            }
            let e = Error::at(Reason::Host, concat2("call awaits the host: ", name), span);
            match &self.source_file {
                Some(file) => Err(e.with_source_file(file)),
                None => Err(e),
            }
        }
    }
}

impl Default for Evaluator {
    fn default() -> (ev: Evaluator)
        ensures
            ev.env() == Seq::<BindingView>::empty(),
            ev.source_file is None,
    {
        Evaluator::new()
    }
}

} // verus!
