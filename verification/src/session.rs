//! What the interactive shell does with a command line.
//!
//! The shell remembers a current model, where it was loaded from, and the
//! analysis result for it. A [`Session`] holds what its decisions depend on;
//! [`Session::plan`] turns a command line into the steps to carry out, in
//! order, and [`Session::record`] updates the session with the outcome of
//! each step. The steps themselves (reading files, solving, printing) are
//! carried out by the caller, which stops at the first step that fails.
use vstd::prelude::*;

use crate::paths::{has_extension, path_extension, path_with_extension, with_extension};
use crate::numbers::{ascii_lower, eq_ignore_case};
use crate::shell::{
    command_of, lower_text, lowercase, parse_command, parse_port, report_format,
    spec_port, spec_report_format, split_command, split_command_spec, ReportFormat,
    ShellCommand,
};
use crate::text::{push_str, trim, trim_str};

verus! {

/// What the shell remembers between commands, as far as its decisions go.
pub struct Session {
    /// Path the current model was loaded from.
    pub path: Option<String>,
    /// Whether a model is loaded.
    pub has_model: bool,
    /// Whether an analysis result for the current model is held.
    pub has_solution: bool,
}

pub struct SessionV {
    pub path: Option<Seq<char>>,
    pub has_model: bool,
    pub has_solution: bool,
}

impl View for Session {
    type V = SessionV;

    open spec fn view(&self) -> SessionV {
        SessionV {
            path: match self.path {
                Some(p) => Some(p@),
                None => None,
            },
            has_model: self.has_model,
            has_solution: self.has_solution,
        }
    }
}

/// A model is loaded exactly when a path is known, and an analysis result
/// is only held for a loaded model.
pub open spec fn session_wf(s: SessionV) -> bool {
    &&& s.path is Some <==> s.has_model
    &&& s.has_solution ==> s.has_model
}

/// One step of a command.
#[derive(Debug, PartialEq, Eq)]
pub enum Step {
    /// Print the list of commands.
    PrintHelp,
    /// Leave the shell.
    Quit,
    /// Clear the screen.
    ClearScreen,
    /// List the bundled sample models.
    ListSamples,
    /// Write the example input file to this path.
    WriteExample(String),
    /// Read and check the model in this file; it becomes the current model.
    Load(String),
    /// Analyze the current model.
    Solve,
    /// Print a summary of the current model.
    PrintInfo,
    /// Print the report of the current analysis.
    PrintReport(ReportFormat),
    /// Write the report of the current analysis to this path.
    SaveReport(String, ReportFormat),
    /// Write the current model in the input format to this path.
    SaveModel(String),
    /// Write the web viewer of the current analysis to this path and open it.
    WriteViewer(String),
    /// Serve the web viewer of the current analysis on this port.
    Serve(u16),
    /// The command fails with this message.
    Fail(String),
}

pub enum StepV {
    PrintHelp,
    Quit,
    ClearScreen,
    ListSamples,
    WriteExample(Seq<char>),
    Load(Seq<char>),
    Solve,
    PrintInfo,
    PrintReport(ReportFormat),
    SaveReport(Seq<char>, ReportFormat),
    SaveModel(Seq<char>),
    WriteViewer(Seq<char>),
    Serve(u16),
    Fail(Seq<char>),
}

impl View for Step {
    type V = StepV;

    open spec fn view(&self) -> StepV {
        match self {
            Step::PrintHelp => StepV::PrintHelp,
            Step::Quit => StepV::Quit,
            Step::ClearScreen => StepV::ClearScreen,
            Step::ListSamples => StepV::ListSamples,
            Step::WriteExample(p) => StepV::WriteExample(p@),
            Step::Load(p) => StepV::Load(p@),
            Step::Solve => StepV::Solve,
            Step::PrintInfo => StepV::PrintInfo,
            Step::PrintReport(f) => StepV::PrintReport(*f),
            Step::SaveReport(p, f) => StepV::SaveReport(p@, *f),
            Step::SaveModel(p) => StepV::SaveModel(p@),
            Step::WriteViewer(p) => StepV::WriteViewer(p@),
            Step::Serve(port) => StepV::Serve(*port),
            Step::Fail(m) => StepV::Fail(m@),
        }
    }
}

pub open spec fn steps_view(v: Seq<Step>) -> Seq<StepV> {
    v.map_values(|s: Step| s@)
}

// ---------------------------------------------------------------------------
// Planning
// ---------------------------------------------------------------------------

pub open spec fn no_model_msg() -> Seq<char> {
    "no model loaded \u{2014} use 'load <file>' first (see 'samples')"@
}

pub open spec fn unknown_command_msg(word: Seq<char>) -> Seq<char> {
    "unknown command '"@ + word + "' \u{2014} type 'help' for a list"@
}

/// `rest`, preceded by what makes sure an analysis result is held: nothing
/// when one is, an analysis of the current model when a model is loaded,
/// otherwise the failure that asks for a model (and then nothing else).
pub open spec fn solved_then(s: SessionV, rest: Seq<StepV>) -> Seq<StepV> {
    if s.has_solution {
        rest
    } else if s.has_model {
        seq![StepV::Solve] + rest
    } else {
        seq![StepV::Fail(no_model_msg())]
    }
}

/// `rest`, when a model is loaded; otherwise the failure that asks for one.
pub open spec fn model_then(s: SessionV, rest: Seq<StepV>) -> Seq<StepV> {
    if s.has_model {
        rest
    } else {
        seq![StepV::Fail(no_model_msg())]
    }
}

/// Whether a path names a file with the extension `ext` (ignoring ASCII case).
pub open spec fn ext_is(path: Seq<char>, ext: Seq<char>) -> bool {
    path_extension(path) is Some && eq_ignore_case(path_extension(path)->0, ext)
}

/// The steps of command `c` with argument `arg` in session `s`; `word` is the
/// command word in lower case.
pub open spec fn command_steps(
    s: SessionV,
    c: ShellCommand,
    word: Seq<char>,
    arg: Seq<char>,
) -> Seq<StepV> {
    match c {
        ShellCommand::Help => seq![StepV::PrintHelp],
        ShellCommand::Exit => seq![StepV::Quit],
        ShellCommand::Load => if arg.len() == 0 {
            seq![StepV::Fail("usage: load <file>"@)]
        } else {
            seq![StepV::Load(arg)]
        },
        ShellCommand::Info => if arg.len() > 0 {
            seq![StepV::Load(arg), StepV::PrintInfo]
        } else {
            model_then(s, seq![StepV::PrintInfo])
        },
        ShellCommand::Solve => if arg.len() > 0 {
            seq![StepV::Load(arg), StepV::Solve, StepV::PrintReport(ReportFormat::Text)]
        } else {
            model_then(s, seq![StepV::Solve, StepV::PrintReport(ReportFormat::Text)])
        },
        ShellCommand::Report => solved_then(
            s,
            match spec_report_format(arg) {
                Ok(f) => seq![StepV::PrintReport(f)],
                Err(m) => seq![StepV::Fail(m)],
            },
        ),
        ShellCommand::Save => if arg.len() == 0 {
            seq![
                StepV::Fail(
                    "usage: save <file>   ('.json' extension saves JSON, otherwise text)"@,
                ),
            ]
        } else {
            solved_then(
                s,
                seq![
                    StepV::SaveReport(
                        arg,
                        if ext_is(arg, "json"@) {
                            ReportFormat::Json
                        } else {
                            ReportFormat::Text
                        },
                    ),
                ],
            )
        },
        ShellCommand::SaveModel => if arg.len() == 0 {
            seq![StepV::Fail("usage: save-model <file>"@)]
        } else {
            model_then(s, seq![StepV::SaveModel(arg)])
        },
        ShellCommand::View => if arg.len() > 0 && ext_is(arg, "html"@) {
            solved_then(s, seq![StepV::WriteViewer(arg)])
        } else if arg.len() > 0 {
            seq![
                StepV::Load(arg),
                StepV::Solve,
                StepV::WriteViewer(path_with_extension(arg, "html"@)),
            ]
        } else {
            solved_then(
                s,
                seq![
                    StepV::WriteViewer(
                        match s.path {
                            Some(p) => path_with_extension(p, "html"@),
                            None => "truss_view.html"@,
                        },
                    ),
                ],
            )
        },
        ShellCommand::Serve => match spec_port(arg) {
            Ok(p) => solved_then(s, seq![StepV::Serve(p)]),
            Err(m) => seq![StepV::Fail(m)],
        },
        ShellCommand::Samples => seq![StepV::ListSamples],
        ShellCommand::Example => seq![
            StepV::WriteExample(
                if arg.len() == 0 {
                    "truss_example.txt"@
                } else {
                    arg
                },
            ),
        ],
        ShellCommand::Clear => seq![StepV::ClearScreen],
        ShellCommand::Unknown => seq![StepV::Fail(unknown_command_msg(word))],
    }
}

/// The steps of a command line: nothing for a blank line, otherwise those
/// of the command its first word names, with the rest of the line as the
/// argument.
pub open spec fn spec_plan(s: SessionV, line: Seq<char>) -> Seq<StepV> {
    let t = trim(line);
    if t.len() == 0 {
        seq![]
    } else {
        let (word, arg) = split_command_spec(t);
        command_steps(s, command_of(lower_text(word)), lower_text(word), arg)
    }
}

// ---------------------------------------------------------------------------
// Outcomes
// ---------------------------------------------------------------------------

/// The session after `step` succeeded: a loaded model replaces the current
/// one and drops the analysis result; an analysis leaves a result.
pub open spec fn after_success(s: SessionV, step: StepV) -> SessionV {
    match step {
        StepV::Load(p) => SessionV { path: Some(p), has_model: true, has_solution: false },
        StepV::Solve => SessionV { has_solution: true, ..s },
        _ => s,
    }
}

/// The session after `step` failed: a failed analysis leaves no result,
/// any other failure changes nothing.
pub open spec fn after_failure(s: SessionV, step: StepV) -> SessionV {
    match step {
        StepV::Solve => SessionV { has_solution: false, ..s },
        _ => s,
    }
}

/// What a step needs of the session it is carried out in.
pub open spec fn step_ready(s: SessionV, step: StepV) -> bool {
    match step {
        StepV::Solve | StepV::PrintInfo | StepV::SaveModel(_) => s.has_model,
        StepV::PrintReport(_) | StepV::SaveReport(_, _) | StepV::WriteViewer(_) | StepV::Serve(
            _,
        ) => s.has_solution,
        _ => true,
    }
}

/// A step after which a command goes no further.
pub open spec fn is_final(step: StepV) -> bool {
    step is Quit || step is Fail
}

/// Every step of `steps`, carried out from `s` with all the steps before it
/// succeeding, finds the session it needs; a final step comes last.
pub open spec fn steps_ready(s: SessionV, steps: Seq<StepV>) -> bool
    decreases steps.len(),
{
    if steps.len() == 0 {
        true
    } else {
        &&& step_ready(s, steps[0])
        &&& (is_final(steps[0]) ==> steps.len() == 1)
        &&& steps_ready(after_success(s, steps[0]), steps.drop_first())
    }
}

// ---------------------------------------------------------------------------
// Making the decisions
// ---------------------------------------------------------------------------

fn single(step: Step) -> (v: Vec<Step>)
    ensures
        steps_view(v@) == seq![step@],
{
    let v = vec![step];
    assert(steps_view(v@) =~= seq![step@]);
    v
}

fn pair(a: Step, b: Step) -> (v: Vec<Step>)
    ensures
        steps_view(v@) == seq![a@, b@],
{
    let v = vec![a, b];
    assert(steps_view(v@) =~= seq![a@, b@]);
    v
}

fn triple(a: Step, b: Step, c: Step) -> (v: Vec<Step>)
    ensures
        steps_view(v@) == seq![a@, b@, c@],
{
    let v = vec![a, b, c];
    assert(steps_view(v@) =~= seq![a@, b@, c@]);
    v
}

fn fail_with(msg: &str) -> (v: Vec<Step>)
    ensures
        steps_view(v@) == seq![StepV::Fail(msg@)],
{
    single(Step::Fail(msg.to_owned()))
}

impl Session {
    /// A session with no model loaded.
    pub fn new() -> (s: Session)
        ensures
            s@ == (SessionV { path: None, has_model: false, has_solution: false }),
            session_wf(s@),
    {
        Session { path: None, has_model: false, has_solution: false }
    }

    /// `rest`, preceded by an analysis when none is held (see [`solved_then`]).
    fn solved_then(&self, rest: Vec<Step>) -> (v: Vec<Step>)
        ensures
            steps_view(v@) == solved_then(self@, steps_view(rest@)),
    {
        if self.has_solution {
            rest
        } else if self.has_model {
            let mut v = rest;
            let ghost before = v@;
            v.insert(0, Step::Solve);
            assert(steps_view(v@) =~= seq![StepV::Solve] + steps_view(before));
            v
        } else {
            fail_with("no model loaded \u{2014} use 'load <file>' first (see 'samples')")
        }
    }

    /// `rest` when a model is loaded (see [`model_then`]).
    fn model_then(&self, rest: Vec<Step>) -> (v: Vec<Step>)
        ensures
            steps_view(v@) == model_then(self@, steps_view(rest@)),
    {
        if self.has_model {
            rest
        } else {
            fail_with("no model loaded \u{2014} use 'load <file>' first (see 'samples')")
        }
    }

    /// The steps of command `c` whose word is `word`, with argument `arg`.
    fn command_steps(&self, c: ShellCommand, word: &str, arg: &str) -> (v: Vec<Step>)
        requires
            c == command_of(lower_text(word@)),
        ensures
            steps_view(v@) == command_steps(self@, c, lower_text(word@), arg@),
    {
        proof {
            reveal_strlit("html");
        }
        match c {
            ShellCommand::Help => single(Step::PrintHelp),
            ShellCommand::Exit => single(Step::Quit),
            ShellCommand::Load => {
                if arg.is_empty() {
                    fail_with("usage: load <file>")
                } else {
                    single(Step::Load(arg.to_owned()))
                }
            },
            ShellCommand::Info => {
                if !arg.is_empty() {
                    pair(Step::Load(arg.to_owned()), Step::PrintInfo)
                } else {
                    self.model_then(single(Step::PrintInfo))
                }
            },
            ShellCommand::Solve => {
                if !arg.is_empty() {
                    triple(
                        Step::Load(arg.to_owned()),
                        Step::Solve,
                        Step::PrintReport(ReportFormat::Text),
                    )
                } else {
                    self.model_then(pair(Step::Solve, Step::PrintReport(ReportFormat::Text)))
                }
            },
            ShellCommand::Report => {
                let rest = match report_format(arg) {
                    Ok(f) => single(Step::PrintReport(f)),
                    Err(m) => single(Step::Fail(m)),
                };
                self.solved_then(rest)
            },
            ShellCommand::Save => {
                if arg.is_empty() {
                    fail_with("usage: save <file>   ('.json' extension saves JSON, otherwise text)")
                } else {
                    let f = if has_extension(arg, "json") {
                        ReportFormat::Json
                    } else {
                        ReportFormat::Text
                    };
                    self.solved_then(single(Step::SaveReport(arg.to_owned(), f)))
                }
            },
            ShellCommand::SaveModel => {
                if arg.is_empty() {
                    fail_with("usage: save-model <file>")
                } else {
                    self.model_then(single(Step::SaveModel(arg.to_owned())))
                }
            },
            ShellCommand::View => {
                if !arg.is_empty() && has_extension(arg, "html") {
                    self.solved_then(single(Step::WriteViewer(arg.to_owned())))
                } else if !arg.is_empty() {
                    triple(
                        Step::Load(arg.to_owned()),
                        Step::Solve,
                        Step::WriteViewer(with_extension(arg, "html")),
                    )
                } else {
                    let out = match &self.path {
                        Some(p) => with_extension(p.as_str(), "html"),
                        None => "truss_view.html".to_owned(),
                    };
                    self.solved_then(single(Step::WriteViewer(out)))
                }
            },
            ShellCommand::Serve => {
                match parse_port(arg) {
                    Ok(p) => self.solved_then(single(Step::Serve(p))),
                    Err(m) => single(Step::Fail(m)),
                }
            },
            ShellCommand::Samples => single(Step::ListSamples),
            ShellCommand::Example => {
                if arg.is_empty() {
                    single(Step::WriteExample("truss_example.txt".to_owned()))
                } else {
                    single(Step::WriteExample(arg.to_owned()))
                }
            },
            ShellCommand::Clear => single(Step::ClearScreen),
            ShellCommand::Unknown => {
                let mut m = String::new();
                push_str(&mut m, "unknown command '");
                push_str(&mut m, lowercase(word).as_str());
                push_str(&mut m, "' \u{2014} type 'help' for a list");
                single(Step::Fail(m))
            },
        }
    }

    /// The steps that a command line asks for, in order: nothing for a
    /// blank line, otherwise those of the command named by its first word.
    /// They are carried out until one fails; the session is told of each
    /// outcome through [`Session::record`].
    pub fn plan(&self, line: &str) -> (steps: Vec<Step>)
        ensures
            steps_view(steps@) == spec_plan(self@, line@),
    {
        let t = trim_str(line);
        if t.is_empty() {
            let v: Vec<Step> = Vec::new();
            assert(steps_view(v@) =~= Seq::<StepV>::empty());
            return v;
        }
        let (word, arg) = split_command(t);
        let c = parse_command(word);
        self.command_steps(c, word, arg)
    }

    /// Take note of the outcome of a step.
    pub fn record(&mut self, step: &Step, succeeded: bool)
        ensures
            final(self)@ == (if succeeded {
                after_success(old(self)@, step@)
            } else {
                after_failure(old(self)@, step@)
            }),
    {
        match step {
            Step::Load(p) => {
                if succeeded {
                    self.path = Some(p.clone());
                    self.has_model = true;
                    self.has_solution = false;
                }
            },
            Step::Solve => {
                self.has_solution = succeeded;
            },
            _ => {},
        }
    }
}

// ---------------------------------------------------------------------------
// Laws
// ---------------------------------------------------------------------------

/// Whatever the outcome of a step, a well-formed session stays well-formed:
/// in particular an analysis result never outlives the model it was made for.
pub proof fn lemma_outcome_keeps_wf(s: SessionV, step: StepV)
    requires
        session_wf(s),
    ensures
        step_ready(s, step) ==> session_wf(after_success(s, step)),
        session_wf(after_failure(s, step)),
        step is Load ==> !after_success(s, step).has_solution,
{
}

proof fn lemma_cons_ready(s: SessionV, step: StepV, rest: Seq<StepV>)
    requires
        step_ready(s, step),
        is_final(step) ==> rest.len() == 0,
        steps_ready(after_success(s, step), rest),
    ensures
        steps_ready(s, seq![step] + rest),
{
    let all = seq![step] + rest;
    assert(all[0] == step);
    assert(all.drop_first() =~= rest);
}

proof fn lemma_one_ready(s: SessionV, step: StepV)
    requires
        step_ready(s, step),
    ensures
        steps_ready(s, seq![step]),
{
    lemma_cons_ready(s, step, seq![]);
    assert(seq![step] + Seq::<StepV>::empty() =~= seq![step]);
}

proof fn lemma_solved_then_ready(s: SessionV, rest: Seq<StepV>)
    requires
        session_wf(s),
        s.has_model ==> steps_ready(SessionV { has_solution: true, ..s }, rest),
        s.has_solution ==> steps_ready(s, rest),
    ensures
        steps_ready(s, solved_then(s, rest)),
{
    if !s.has_solution && s.has_model {
        lemma_cons_ready(s, StepV::Solve, rest);
    } else if !s.has_model {
        lemma_one_ready(s, StepV::Fail(no_model_msg()));
    }
}

proof fn lemma_model_then_ready(s: SessionV, rest: Seq<StepV>)
    requires
        s.has_model ==> steps_ready(s, rest),
    ensures
        steps_ready(s, model_then(s, rest)),
{
    if !s.has_model {
        lemma_one_ready(s, StepV::Fail(no_model_msg()));
    }
}

/// Every command line, in a well-formed session, plans steps that each find
/// what they need when the steps before them succeed: the shell never
/// analyzes, summarizes or saves without a model, and never prints, saves or
/// shows a report without an analysis result.
pub proof fn lemma_plan_ready(s: SessionV, line: Seq<char>)
    requires
        session_wf(s),
    ensures
        steps_ready(s, spec_plan(s, line)),
{
    let t = trim(line);
    if t.len() > 0 {
        let (word, arg) = split_command_spec(t);
        let w = lower_text(word);
        let c = command_of(w);
        let solved = SessionV { has_solution: true, ..s };
        assert(spec_plan(s, line) == command_steps(s, c, w, arg));
        match c {
            ShellCommand::Help => lemma_one_ready(s, StepV::PrintHelp),
            ShellCommand::Exit => lemma_one_ready(s, StepV::Quit),
            ShellCommand::Load => {
                if arg.len() == 0 {
                    lemma_one_ready(s, StepV::Fail("usage: load <file>"@));
                } else {
                    lemma_one_ready(s, StepV::Load(arg));
                }
            },
            ShellCommand::Info => {
                if arg.len() > 0 {
                    let loaded = after_success(s, StepV::Load(arg));
                    lemma_one_ready(loaded, StepV::PrintInfo);
                    lemma_cons_ready(s, StepV::Load(arg), seq![StepV::PrintInfo]);
                    assert(seq![StepV::Load(arg)] + seq![StepV::PrintInfo] =~= seq![
                        StepV::Load(arg),
                        StepV::PrintInfo,
                    ]);
                } else {
                    if s.has_model {
                        lemma_one_ready(s, StepV::PrintInfo);
                    }
                    lemma_model_then_ready(s, seq![StepV::PrintInfo]);
                }
            },
            ShellCommand::Solve => {
                let print = StepV::PrintReport(ReportFormat::Text);
                let both = seq![StepV::Solve, print];
                assert(seq![StepV::Solve] + seq![print] =~= both);
                if arg.len() > 0 {
                    let loaded = after_success(s, StepV::Load(arg));
                    lemma_one_ready(after_success(loaded, StepV::Solve), print);
                    lemma_cons_ready(loaded, StepV::Solve, seq![print]);
                    lemma_cons_ready(s, StepV::Load(arg), both);
                    assert(seq![StepV::Load(arg)] + both =~= seq![StepV::Load(arg), StepV::Solve, print]);
                } else {
                    if s.has_model {
                        lemma_one_ready(after_success(s, StepV::Solve), print);
                        lemma_cons_ready(s, StepV::Solve, seq![print]);
                    }
                    lemma_model_then_ready(s, both);
                }
            },
            ShellCommand::Report => {
                let rest = match spec_report_format(arg) {
                    Ok(f) => seq![StepV::PrintReport(f)],
                    Err(m) => seq![StepV::Fail(m)],
                };
                lemma_one_ready(solved, rest[0]);
                if s.has_solution {
                    lemma_one_ready(s, rest[0]);
                }
                lemma_solved_then_ready(s, rest);
            },
            ShellCommand::Save => {
                if arg.len() == 0 {
                    lemma_one_ready(
                        s,
                        StepV::Fail(
                            "usage: save <file>   ('.json' extension saves JSON, otherwise text)"@,
                        ),
                    );
                } else {
                    let f = if ext_is(arg, "json"@) {
                        ReportFormat::Json
                    } else {
                        ReportFormat::Text
                    };
                    lemma_one_ready(solved, StepV::SaveReport(arg, f));
                    if s.has_solution {
                        lemma_one_ready(s, StepV::SaveReport(arg, f));
                    }
                    lemma_solved_then_ready(s, seq![StepV::SaveReport(arg, f)]);
                }
            },
            ShellCommand::SaveModel => {
                if arg.len() == 0 {
                    lemma_one_ready(s, StepV::Fail("usage: save-model <file>"@));
                } else {
                    if s.has_model {
                        lemma_one_ready(s, StepV::SaveModel(arg));
                    }
                    lemma_model_then_ready(s, seq![StepV::SaveModel(arg)]);
                }
            },
            ShellCommand::View => {
                if arg.len() > 0 && ext_is(arg, "html"@) {
                    lemma_one_ready(solved, StepV::WriteViewer(arg));
                    if s.has_solution {
                        lemma_one_ready(s, StepV::WriteViewer(arg));
                    }
                    lemma_solved_then_ready(s, seq![StepV::WriteViewer(arg)]);
                } else if arg.len() > 0 {
                    let out = StepV::WriteViewer(path_with_extension(arg, "html"@));
                    let loaded = after_success(s, StepV::Load(arg));
                    lemma_one_ready(after_success(loaded, StepV::Solve), out);
                    lemma_cons_ready(loaded, StepV::Solve, seq![out]);
                    lemma_cons_ready(s, StepV::Load(arg), seq![StepV::Solve] + seq![out]);
                    assert(seq![StepV::Load(arg)] + (seq![StepV::Solve] + seq![out]) =~= seq![
                        StepV::Load(arg),
                        StepV::Solve,
                        out,
                    ]);
                } else {
                    let out = StepV::WriteViewer(
                        match s.path {
                            Some(p) => path_with_extension(p, "html"@),
                            None => "truss_view.html"@,
                        },
                    );
                    lemma_one_ready(solved, out);
                    if s.has_solution {
                        lemma_one_ready(s, out);
                    }
                    lemma_solved_then_ready(s, seq![out]);
                }
            },
            ShellCommand::Serve => {
                match spec_port(arg) {
                    Ok(p) => {
                        lemma_one_ready(solved, StepV::Serve(p));
                        if s.has_solution {
                            lemma_one_ready(s, StepV::Serve(p));
                        }
                        lemma_solved_then_ready(s, seq![StepV::Serve(p)]);
                    },
                    Err(m) => lemma_one_ready(s, StepV::Fail(m)),
                }
            },
            ShellCommand::Samples => lemma_one_ready(s, StepV::ListSamples),
            ShellCommand::Example => lemma_one_ready(
                s,
                StepV::WriteExample(
                    if arg.len() == 0 {
                        "truss_example.txt"@
                    } else {
                        arg
                    },
                ),
            ),
            ShellCommand::Clear => lemma_one_ready(s, StepV::ClearScreen),
            ShellCommand::Unknown => lemma_one_ready(s, StepV::Fail(unknown_command_msg(w))),
        }
    }
}

/// Every failure a step list can hold is one whose message does not start
/// with `n` (the message for a missing model does).
pub open spec fn fails_not_n(steps: Seq<StepV>) -> bool {
    forall|i: int|
        0 <= i < steps.len() && (#[trigger] steps[i]) is Fail ==> steps[i]->Fail_0.len() > 0
            && steps[i]->Fail_0[0] != 'n'
}

proof fn lemma_fails_not_n_one(step: StepV)
    requires
        step is Fail ==> step->Fail_0.len() > 0 && step->Fail_0[0] != 'n',
    ensures
        fails_not_n(seq![step]),
{
}

proof fn lemma_fails_not_n_add(a: Seq<StepV>, b: Seq<StepV>)
    requires
        fails_not_n(a),
        fails_not_n(b),
    ensures
        fails_not_n(a + b),
{
    assert forall|i: int| 0 <= i < (a + b).len() && (#[trigger] (a + b)[i]) is Fail implies (a
        + b)[i]->Fail_0.len() > 0 && (a + b)[i]->Fail_0[0] != 'n' by {
        if i < a.len() {
            assert((a + b)[i] == a[i]);
        } else {
            assert((a + b)[i] == b[i - a.len()]);
        }
    }
}

/// With a model loaded, no command line fails for want of a model: its steps
/// never hold the failure "no model loaded".
pub proof fn lemma_model_loaded_never_missing(s: SessionV, line: Seq<char>)
    requires
        s.has_model,
    ensures
        forall|i: int|
            0 <= i < spec_plan(s, line).len() ==> #[trigger] spec_plan(s, line)[i]
                != StepV::Fail(
                "no model loaded \u{2014} use 'load <file>' first (see 'samples')"@,
            ),
{
    reveal_strlit("no model loaded \u{2014} use 'load <file>' first (see 'samples')");
    reveal_strlit("usage: load <file>");
    reveal_strlit("usage: save <file>   ('.json' extension saves JSON, otherwise text)");
    reveal_strlit("usage: save-model <file>");
    reveal_strlit("unknown command '");
    reveal_strlit("unknown format '");
    reveal_strlit("invalid port '");
    let nm = "no model loaded \u{2014} use 'load <file>' first (see 'samples')"@;
    assert(nm[0] == 'n');
    let p = spec_plan(s, line);
    let t = trim(line);
    if t.len() > 0 {
        let (word, arg) = split_command_spec(t);
        let w = lower_text(word);
        let c = command_of(w);
        assert(p == command_steps(s, c, w, arg));
        let solved = seq![StepV::Solve];
        lemma_fails_not_n_one(StepV::Solve);
        match c {
            ShellCommand::Report => {
                let rest = match spec_report_format(arg) {
                    Ok(f) => seq![StepV::PrintReport(f)],
                    Err(m) => seq![StepV::Fail(m)],
                };
                match spec_report_format(arg) {
                    Ok(f) => lemma_fails_not_n_one(StepV::PrintReport(f)),
                    Err(m) => {
                        assert(m[0] == 'u');
                        lemma_fails_not_n_one(StepV::Fail(m));
                    },
                }
                lemma_fails_not_n_add(solved, rest);
            },
            ShellCommand::Save => {
                if arg.len() > 0 {
                    let f = if ext_is(arg, "json"@) {
                        ReportFormat::Json
                    } else {
                        ReportFormat::Text
                    };
                    lemma_fails_not_n_one(StepV::SaveReport(arg, f));
                    lemma_fails_not_n_add(solved, seq![StepV::SaveReport(arg, f)]);
                }
            },
            ShellCommand::View => {
                let out = StepV::WriteViewer(
                    match s.path {
                        Some(pp) => path_with_extension(pp, "html"@),
                        None => "truss_view.html"@,
                    },
                );
                lemma_fails_not_n_one(out);
                lemma_fails_not_n_add(solved, seq![out]);
                lemma_fails_not_n_one(StepV::WriteViewer(arg));
                lemma_fails_not_n_add(solved, seq![StepV::WriteViewer(arg)]);
            },
            ShellCommand::Serve => {
                match spec_port(arg) {
                    Ok(port) => {
                        lemma_fails_not_n_one(StepV::Serve(port));
                        lemma_fails_not_n_add(solved, seq![StepV::Serve(port)]);
                    },
                    Err(m) => {
                        assert(m[0] == 'i');
                    },
                }
            },
            ShellCommand::Unknown => {
                assert(unknown_command_msg(w)[0] == 'u');
            },
            _ => {},
        }
        assert(fails_not_n(p));
        assert forall|i: int| 0 <= i < p.len() implies #[trigger] p[i] != StepV::Fail(nm) by {
            if p[i] is Fail {
                assert(p[i]->Fail_0[0] != 'n');
            }
        }
    }
}

/// With a model loaded, `info` without an argument prints the summary of
/// that model and does nothing else; with an argument it loads that file
/// first. This holds whatever the letter case of `info`.
pub proof fn lemma_info_plan(s: SessionV, line: Seq<char>)
    requires
        trim(line).len() > 0,
        lower_text(split_command_spec(trim(line)).0) == "info"@,
    ensures
        split_command_spec(trim(line)).1.len() == 0 && s.has_model ==> spec_plan(s, line)
            == seq![StepV::PrintInfo],
        split_command_spec(trim(line)).1.len() > 0 ==> spec_plan(s, line) == seq![
            StepV::Load(split_command_spec(trim(line)).1),
            StepV::PrintInfo,
        ],
{
    crate::shell::lemma_command_words(split_command_spec(trim(line)).0);
}

/// `exit`, `quit` and `q` (in any letter case) leave the shell, whatever the
/// session and whatever follows the word.
pub proof fn lemma_exit_plan(s: SessionV, line: Seq<char>)
    requires
        trim(line).len() > 0,
        ({
            let w = lower_text(split_command_spec(trim(line)).0);
            w == "exit"@ || w == "quit"@ || w == "q"@
        }),
    ensures
        spec_plan(s, line) == seq![StepV::Quit],
{
    crate::shell::lemma_command_words(split_command_spec(trim(line)).0);
}

/// The command word of a command line, in lower case, and its argument.
pub open spec fn word_of(line: Seq<char>) -> Seq<char> {
    lower_text(split_command_spec(trim(line)).0)
}

pub open spec fn arg_of(line: Seq<char>) -> Seq<char> {
    split_command_spec(trim(line)).1
}

/// `load <file>` loads that file and does nothing else; `load` alone fails
/// with its usage.
pub proof fn lemma_load_plan(s: SessionV, line: Seq<char>)
    requires
        trim(line).len() > 0,
        word_of(line) == "load"@,
    ensures
        arg_of(line).len() > 0 ==> spec_plan(s, line) == seq![StepV::Load(arg_of(line))],
        arg_of(line).len() == 0 ==> spec_plan(s, line) == seq![
            StepV::Fail("usage: load <file>"@),
        ],
{
    crate::shell::lemma_command_words(split_command_spec(trim(line)).0);
}

/// `solve` (or `run`) always analyzes afresh and prints the text report: of
/// the file given, loaded first, or of the current model.
pub proof fn lemma_solve_plan(s: SessionV, line: Seq<char>)
    requires
        trim(line).len() > 0,
        word_of(line) == "solve"@ || word_of(line) == "run"@,
    ensures
        arg_of(line).len() > 0 ==> spec_plan(s, line) == seq![
            StepV::Load(arg_of(line)),
            StepV::Solve,
            StepV::PrintReport(ReportFormat::Text),
        ],
        arg_of(line).len() == 0 && s.has_model ==> spec_plan(s, line) == seq![
            StepV::Solve,
            StepV::PrintReport(ReportFormat::Text),
        ],
{
    crate::shell::lemma_command_words(split_command_spec(trim(line)).0);
}

/// `report`, `report text` and `report json` (in any letter case) print the
/// report in that format, analyzing first only when no result is held.
pub proof fn lemma_report_plan(s: SessionV, line: Seq<char>)
    requires
        trim(line).len() > 0,
        word_of(line) == "report"@,
        s.has_model,
    ensures
        ({
            let a = lower_text(arg_of(line));
            let then = if s.has_solution {
                seq![]
            } else {
                seq![StepV::Solve]
            };
            &&& (a.len() == 0 || a == "text"@) ==> spec_plan(s, line) == then + seq![
                StepV::PrintReport(ReportFormat::Text),
            ]
            &&& a == "json"@ ==> spec_plan(s, line) == then + seq![
                StepV::PrintReport(ReportFormat::Json),
            ]
        }),
{
    crate::shell::lemma_command_words(split_command_spec(trim(line)).0);
    reveal_strlit("text");
    reveal_strlit("json");
    let a = lower_text(arg_of(line));
    assert("text"@.len() == 4 && "json"@.len() == 4 && "text"@[0] == 't' && "json"@[0] == 'j');
    if s.has_solution {
        assert(Seq::<StepV>::empty() + seq![StepV::PrintReport(ReportFormat::Text)] =~= seq![
            StepV::PrintReport(ReportFormat::Text),
        ]);
        assert(Seq::<StepV>::empty() + seq![StepV::PrintReport(ReportFormat::Json)] =~= seq![
            StepV::PrintReport(ReportFormat::Json),
        ]);
    }
}

/// `save <file>` writes the report to that file, as JSON exactly when the
/// file's extension is `json` in any letter case, analyzing first only when
/// no result is held.
pub proof fn lemma_save_plan(s: SessionV, line: Seq<char>)
    requires
        trim(line).len() > 0,
        word_of(line) == "save"@,
        arg_of(line).len() > 0,
        s.has_model,
    ensures
        ({
            let f = arg_of(line);
            let json = path_extension(f) is Some && lower_text(path_extension(f)->0) == "json"@;
            let step = StepV::SaveReport(
                f,
                if json {
                    ReportFormat::Json
                } else {
                    ReportFormat::Text
                },
            );
            &&& s.has_solution ==> spec_plan(s, line) == seq![step]
            &&& !s.has_solution ==> spec_plan(s, line) == seq![StepV::Solve, step]
        }),
{
    crate::shell::lemma_command_words(split_command_spec(trim(line)).0);
    let f = arg_of(line);
    if path_extension(f) is Some {
        let x = path_extension(f)->0;
        let j = "json"@;
        if eq_ignore_case(x, j) {
            assert(lower_text(x) =~= lower_text(j));
        }
        if lower_text(x) == lower_text(j) {
            assert(x.len() == j.len());
            assert forall|i: int| 0 <= i < x.len() implies ascii_lower(#[trigger] x[i])
                == ascii_lower(j[i]) by {
                assert(lower_text(x)[i] == lower_text(j)[i]);
            }
        }
        reveal_strlit("json");
        assert(lower_text("json"@) =~= "json"@);
    }
}

/// What the outcome of a step does to the session: a file loaded becomes the
/// current model, with its path and no analysis result; an analysis that
/// succeeds leaves a result and one that fails leaves none; nothing else
/// changes the session, and a failed load changes nothing.
pub proof fn lemma_record_outcomes(s: SessionV, step: StepV)
    ensures
        step matches StepV::Load(f) ==> after_success(s, step).path == Some(f)
            && after_success(s, step).has_model && !after_success(s, step).has_solution,
        step is Load ==> after_failure(s, step) == s,
        step is Solve ==> after_success(s, step).has_solution && !after_failure(s, step).has_solution
            && after_success(s, step).path == s.path && after_success(s, step).has_model
            == s.has_model,
        !(step is Load) && !(step is Solve) ==> after_success(s, step) == s && after_failure(s, step)
            == s,
{
}

proof fn lemma_ext_is_lower(x: Seq<char>, e: Seq<char>)
    requires
        lower_text(e) == e,
    ensures
        eq_ignore_case(x, e) <==> lower_text(x) == e,
{
    if eq_ignore_case(x, e) {
        assert(lower_text(x) =~= lower_text(e));
    }
    if lower_text(x) == e {
        assert forall|i: int| 0 <= i < x.len() implies ascii_lower(#[trigger] x[i])
            == ascii_lower(e[i]) by {
            assert(lower_text(x)[i] == lower_text(e)[i]);
        }
    }
}

/// `view`: with a `.html` path (any letter case) the viewer is written there;
/// with another path that model file is loaded and analyzed and the viewer
/// goes next to it with the extension `html`; alone, the viewer of the
/// current analysis goes next to the current model file. An analysis is run
/// first only when no result is held.
pub proof fn lemma_view_plan(s: SessionV, line: Seq<char>)
    requires
        session_wf(s),
        trim(line).len() > 0,
        word_of(line) == "view"@,
    ensures
        ({
            let f = arg_of(line);
            let html = path_extension(f) is Some && lower_text(path_extension(f)->0) == "html"@;
            let then = if s.has_solution {
                seq![]
            } else {
                seq![StepV::Solve]
            };
            &&& f.len() > 0 && html && s.has_model ==> spec_plan(s, line) == then + seq![
                StepV::WriteViewer(f),
            ]
            &&& f.len() > 0 && !html ==> spec_plan(s, line) == seq![
                StepV::Load(f),
                StepV::Solve,
                StepV::WriteViewer(path_with_extension(f, "html"@)),
            ]
            &&& f.len() == 0 && s.has_model ==> spec_plan(s, line) == then + seq![
                StepV::WriteViewer(path_with_extension(s.path->0, "html"@)),
            ]
        }),
{
    crate::shell::lemma_command_words(split_command_spec(trim(line)).0);
    reveal_strlit("html");
    assert(lower_text("html"@) =~= "html"@);
    let f = arg_of(line);
    if path_extension(f) is Some {
        lemma_ext_is_lower(path_extension(f)->0, "html"@);
    }
    assert(Seq::<StepV>::empty() + seq![StepV::WriteViewer(f)] =~= seq![StepV::WriteViewer(f)]);
    if s.has_model {
        let out = StepV::WriteViewer(path_with_extension(s.path->0, "html"@));
        assert(Seq::<StepV>::empty() + seq![out] =~= seq![out]);
    }
}

/// `serve` with no port serves on 8080, with a port number up to 65535 on
/// that port, analyzing first only when no result is held; any other
/// argument fails, before any analysis.
pub proof fn lemma_serve_plan(s: SessionV, line: Seq<char>)
    requires
        trim(line).len() > 0,
        word_of(line) == "serve"@,
    ensures
        ({
            let a = arg_of(line);
            let then = if s.has_solution {
                seq![]
            } else {
                seq![StepV::Solve]
            };
            &&& a.len() == 0 && s.has_model ==> spec_plan(s, line) == then + seq![
                StepV::Serve(8080),
            ]
            &&& crate::numbers::unsigned_in_range(a, 65535) && s.has_model ==> spec_plan(s, line)
                == then + seq![StepV::Serve(crate::numbers::unsigned_value(a)->0 as u16)]
            &&& a.len() > 0 && !crate::numbers::unsigned_in_range(a, 65535) ==> spec_plan(s, line)
                == seq![StepV::Fail("invalid port '"@ + a + "'"@)]
        }),
{
    crate::shell::lemma_command_words(split_command_spec(trim(line)).0);
    let a = arg_of(line);
    assert(Seq::<StepV>::empty() + seq![StepV::Serve(8080)] =~= seq![StepV::Serve(8080)]);
    if crate::numbers::unsigned_in_range(a, 65535) {
        let p = StepV::Serve(crate::numbers::unsigned_value(a)->0 as u16);
        assert(Seq::<StepV>::empty() + seq![p] =~= seq![p]);
    }
}

/// `save-model <file>` writes the current model to that file; `example`
/// writes the example input to the file given, or to `truss_example.txt`;
/// `help`, `samples` and `clear` (with their other spellings) do only that.
pub proof fn lemma_simple_plans(s: SessionV, line: Seq<char>)
    requires
        trim(line).len() > 0,
    ensures
        ({
            let w = word_of(line);
            let a = arg_of(line);
            &&& (w == "save-model"@ || w == "savemodel"@) && a.len() > 0 && s.has_model
                ==> spec_plan(s, line) == seq![StepV::SaveModel(a)]
            &&& w == "example"@ && a.len() > 0 ==> spec_plan(s, line) == seq![StepV::WriteExample(a)]
            &&& w == "example"@ && a.len() == 0 ==> spec_plan(s, line) == seq![
                StepV::WriteExample("truss_example.txt"@),
            ]
            &&& (w == "help"@ || w == "?"@) ==> spec_plan(s, line) == seq![StepV::PrintHelp]
            &&& (w == "samples"@ || w == "ls"@) ==> spec_plan(s, line) == seq![StepV::ListSamples]
            &&& (w == "clear"@ || w == "cls"@) ==> spec_plan(s, line) == seq![StepV::ClearScreen]
        }),
{
    crate::shell::lemma_command_words(split_command_spec(trim(line)).0);
}

} // verus!
