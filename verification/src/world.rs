//! What passes between the agent's decisions and the box it runs on. The agent asks for one
//! thing at a time and is given a reply; before each question come effects whose outcome does
//! not matter to it.

use crate::address::{detect, detected_v4, detected_v6, Survey};
use crate::config::{find_variable, loaded, variable, Cfg, CfgView, Settings};
use crate::text::{lemma_views_push, same, trim, trimmed, view_of, views};
use vstd::prelude::*;

verus! {

/// A text, as its characters.
pub type Text = Seq<char>;

/// A list of texts.
pub type Words = Seq<Seq<char>>;

// ---------------------------------------------------------------- commands

/// A command line: the program and its arguments.
#[derive(Debug)]
pub struct Argv {
    pub words: Vec<String>,
}

impl View for Argv {
    type V = Words;

    open spec fn view(&self) -> Words {
        views(self.words@)
    }
}

impl Argv {
    /// The command `program`, without arguments so far.
    pub fn new(program: &str) -> (r: Argv)
        ensures
            r@ == seq![program@],
    {
        broadcast use lemma_views_push;

        let mut words: Vec<String> = Vec::new();
        assert(views(words@) =~= seq![]);
        words.push(program.to_owned());
        Argv { words }
    }

    /// The command with one more argument.
    pub fn arg(self, word: &str) -> (r: Argv)
        ensures
            r@ == self@.push(word@),
    {
        broadcast use lemma_views_push;

        let mut words = self.words;
        words.push(word.to_owned());
        Argv { words }
    }
}

/// The command line of two words.
pub open spec fn words2(a: Text, b: Text) -> Words {
    seq![a, b]
}

/// The command line of three words.
pub open spec fn words3(a: Text, b: Text, c: Text) -> Words {
    seq![a, b, c]
}

/// The command line of four words.
pub open spec fn words4(a: Text, b: Text, c: Text, d: Text) -> Words {
    seq![a, b, c, d]
}

/// The command line of two words.
pub fn argv2(a: &str, b: &str) -> (r: Argv)
    ensures
        r@ == words2(a@, b@),
{
    Argv::new(a).arg(b)
}

/// The command line of three words.
pub fn argv3(a: &str, b: &str, c: &str) -> (r: Argv)
    ensures
        r@ == words3(a@, b@, c@),
{
    Argv::new(a).arg(b).arg(c)
}

/// The command line of four words.
pub fn argv4(a: &str, b: &str, c: &str, d: &str) -> (r: Argv)
    ensures
        r@ == words4(a@, b@, c@, d@),
{
    Argv::new(a).arg(b).arg(c).arg(d)
}

// ---------------------------------------------------------------- effects and questions

/// Something to do whose outcome the agent does not look at. `S` is the type of texts and `A`
/// that of command lines.
#[derive(Debug)]
pub enum Effect<S, A> {
    /// Print a line.
    Print(S),
    /// Print a line to the error output.
    Complain(S),
    /// Run a command and discard what it prints.
    Run(A),
    /// Make a directory and those above it.
    MakeDir(S),
    /// Write a file.
    Write(S, S),
    /// Remove a file.
    Remove(S),
}

/// Something to do or to find out, whose reply the agent needs.
#[derive(Debug)]
pub enum Ask<S, A> {
    /// Run a command, discarding what it prints: did it succeed? `Reply::Flag`.
    Run(A),
    /// Run a command for its output. `Reply::Ran`.
    Output(A),
    /// Run a command with the given input. `Reply::Fed`.
    Feed(A, S),
    /// Run a command with the given input, discarding its error output. `Reply::Fed`.
    Filter(A, S),
    /// Read a file. `Reply::Text`.
    Read(S),
    /// Make the directory that holds a path, and those above it. `Reply::Done`.
    MakeParent(S),
    /// Write a file that only its owner can read. `Reply::Done`.
    Store(S, S),
    /// Add to the end of a file that exists. `Reply::Done`.
    Append(S, S),
    /// Do all these paths exist? `Reply::Flag`.
    Exist(A),
    /// Read the settings. `Reply::Settings`.
    Settings,
    /// Look at the box's addresses and routes. `Reply::Survey`.
    Survey,
    /// Read the clock. `Reply::Clock`.
    Clock,
    /// The path of the running program. `Reply::Text`.
    Program,
    /// Wait for a number of seconds. `Reply::Nothing`.
    Sleep(u64),
    /// Nothing more: end with this exit code.
    Exit(i32),
    /// Nothing more: a text was to be cut inside a character.
    Abort,
}

/// An effect, with its texts as characters.
pub type EffectView = Effect<Text, Words>;

/// A question, with its texts as characters.
pub type AskView = Ask<Text, Words>;

impl View for Effect<String, Argv> {
    type V = EffectView;

    open spec fn view(&self) -> EffectView {
        match self {
            Effect::Print(s) => Effect::Print(s@),
            Effect::Complain(s) => Effect::Complain(s@),
            Effect::Run(a) => Effect::Run(a@),
            Effect::MakeDir(s) => Effect::MakeDir(s@),
            Effect::Write(s, t) => Effect::Write(s@, t@),
            Effect::Remove(s) => Effect::Remove(s@),
        }
    }
}

impl View for Ask<String, Argv> {
    type V = AskView;

    open spec fn view(&self) -> AskView {
        match self {
            Ask::Run(a) => Ask::Run(a@),
            Ask::Output(a) => Ask::Output(a@),
            Ask::Feed(a, s) => Ask::Feed(a@, s@),
            Ask::Filter(a, s) => Ask::Filter(a@, s@),
            Ask::Read(s) => Ask::Read(s@),
            Ask::MakeParent(s) => Ask::MakeParent(s@),
            Ask::Store(s, t) => Ask::Store(s@, t@),
            Ask::Append(s, t) => Ask::Append(s@, t@),
            Ask::Exist(a) => Ask::Exist(a@),
            Ask::Settings => Ask::Settings,
            Ask::Survey => Ask::Survey,
            Ask::Clock => Ask::Clock,
            Ask::Program => Ask::Program,
            Ask::Sleep(n) => Ask::Sleep(*n),
            Ask::Exit(n) => Ask::Exit(*n),
            Ask::Abort => Ask::Abort,
        }
    }
}

/// Effects, in order.
#[derive(Debug)]
pub struct Effects {
    pub list: Vec<Effect<String, Argv>>,
}

impl View for Effects {
    type V = Seq<EffectView>;

    open spec fn view(&self) -> Seq<EffectView> {
        self.list@.map_values(|e: Effect<String, Argv>| e@)
    }
}

impl Effects {
    /// No effects.
    pub fn none() -> (r: Effects)
        ensures
            r@ == Seq::<EffectView>::empty(),
    {
        let r = Effects { list: Vec::new() };
        assert(r@ =~= Seq::empty());
        r
    }

    /// These effects and one more.
    pub fn and(self, e: Effect<String, Argv>) -> (r: Effects)
        ensures
            r@ == self@.push(e@),
    {
        let ghost before = self@;
        let mut list = self.list;
        list.push(e);
        let r = Effects { list };
        assert(r@ =~= before.push(e@));
        r
    }

    /// These effects and a line to print.
    pub fn print(self, line: String) -> (r: Effects)
        ensures
            r@ == self@.push(Effect::Print(line@)),
    {
        self.and(Effect::Print(line))
    }

    /// These effects and a line to print to the error output.
    pub fn complain(self, line: String) -> (r: Effects)
        ensures
            r@ == self@.push(Effect::Complain(line@)),
    {
        self.and(Effect::Complain(line))
    }

    /// These effects and a command to run.
    pub fn run(self, argv: Argv) -> (r: Effects)
        ensures
            r@ == self@.push(Effect::Run(argv@)),
    {
        self.and(Effect::Run(argv))
    }

    /// These effects and a file to remove.
    pub fn remove(self, path: &str) -> (r: Effects)
        ensures
            r@ == self@.push(Effect::Remove(path@)),
    {
        self.and(Effect::Remove(path.to_owned()))
    }

    /// These effects, then the question.
    pub fn ask(self, ask: Ask<String, Argv>) -> (r: Turn)
        ensures
            r@ == (TurnView { effects: self@, ask: ask@ }),
    {
        Turn { effects: self, ask }
    }
}

/// One turn of the agent: effects, then a question.
#[derive(Debug)]
pub struct Turn {
    pub effects: Effects,
    pub ask: Ask<String, Argv>,
}

/// A turn, with its texts as characters.
pub struct TurnView {
    pub effects: Seq<EffectView>,
    pub ask: AskView,
}

impl View for Turn {
    type V = TurnView;

    open spec fn view(&self) -> TurnView {
        TurnView { effects: self.effects@, ask: self.ask@ }
    }
}

/// The turn of the given effects and question.
pub open spec fn turn(effects: Seq<EffectView>, ask: AskView) -> TurnView {
    TurnView { effects, ask }
}

// ---------------------------------------------------------------- replies

/// How a command ended, and what it printed.
#[derive(Debug)]
pub struct Ran {
    pub ok: bool,
    pub stdout: String,
}

/// How a command that was given an input ended.
#[derive(Debug)]
pub enum Fed {
    /// It could not be started.
    NotStarted(String),
    /// It has no standard input.
    NoInput,
    /// Its input could not be written, or its end could not be awaited.
    Broken(String),
    /// It ended by itself.
    Ended { ok: bool, stdout: String, stderr: String },
}

/// The reply to a question. A reply of another kind than the question asks for counts as a
/// failure of what was asked.
pub enum Reply {
    Nothing,
    Flag(bool),
    Ran(Option<Ran>),
    Fed(Fed),
    Text(Option<String>),
    Done(Result<(), String>),
    Clock(Option<u64>),
    Settings(Settings),
    Survey(Survey),
}

/// The output of a command that succeeded, without white space at its ends.
pub open spec fn output_of(r: Option<Ran>) -> Option<Text> {
    match r {
        Some(x) => if x.ok {
            Some(trimmed(x.stdout@))
        } else {
            None
        },
        None => None,
    }
}

/// The output of a command that succeeded, without white space at its ends.
pub fn run_out(r: &Option<Ran>) -> (o: Option<String>)
    ensures
        view_of(o) == output_of(*r),
{
    match r {
        Some(x) => if x.ok {
            Some(trim(x.stdout.as_str()))
        } else {
            None
        },
        None => None,
    }
}

/// The view of a result with text on both sides.
pub open spec fn result_view(r: Result<String, String>) -> Result<Text, Text> {
    match r {
        Ok(s) => Ok(s@),
        Err(s) => Err(s@),
    }
}

/// The view of a result with text as its error.
pub open spec fn done_view(r: Result<(), String>) -> Result<(), Text> {
    match r {
        Ok(_) => Ok(()),
        Err(s) => Err(s@),
    }
}

impl Reply {
    /// Yes, as far as the reply says so.
    pub open spec fn yes(self) -> bool {
        self matches Reply::Flag(b) && b
    }

    /// Whether the reply says yes.
    pub fn is_yes(&self) -> (r: bool)
        ensures
            r == self.yes(),
    {
        match self {
            Reply::Flag(b) => *b,
            _ => false,
        }
    }

    /// The output of a command that succeeded.
    pub open spec fn output(self) -> Option<Text> {
        match self {
            Reply::Ran(r) => output_of(r),
            _ => None,
        }
    }

    /// The output of a command that succeeded.
    pub fn get_output(&self) -> (r: Option<String>)
        ensures
            view_of(r) == self.output(),
    {
        match self {
            Reply::Ran(r) => run_out(r),
            _ => None,
        }
    }

    /// The command printed the number of the superuser.
    pub open spec fn says_root(self) -> bool {
        self matches Reply::Ran(Some(x)) && trimmed(x.stdout@) == "0"@
    }

    /// Whether the command `id -u` printed the number of the superuser.
    pub fn is_root(&self) -> (r: bool)
        ensures
            r == self.says_root(),
    {
        match self {
            Reply::Ran(Some(x)) => same(trim(x.stdout.as_str()).as_str(), "0"),
            _ => false,
        }
    }

    /// The text of a file or a path.
    pub open spec fn text(self) -> Option<Text> {
        match self {
            Reply::Text(t) => view_of(t),
            _ => None,
        }
    }

    /// The text of a file or a path.
    pub fn get_text(&self) -> (r: Option<String>)
        ensures
            view_of(r) == self.text(),
    {
        match self {
            Reply::Text(Some(s)) => Some(s.clone()),
            _ => None,
        }
    }

    /// The configuration that the settings give.
    pub open spec fn cfg(self) -> CfgView {
        match self {
            Reply::Settings(s) => loaded(s.vars@, view_of(s.file), view_of(s.hostname)),
            _ => loaded(Seq::empty(), None, None),
        }
    }

    /// The configuration that the settings give.
    pub fn get_cfg(&self) -> (r: Cfg)
        ensures
            r@ == self.cfg(),
            5 <= r.poll <= 600,
    {
        match self {
            Reply::Settings(s) => Cfg::load(s),
            _ => {
                let s = Settings { vars: Vec::new(), file: None, hostname: None };
                assert(s.vars@ =~= Seq::empty());
                Cfg::load(&s)
            },
        }
    }

    /// The environment variable `key` among the settings.
    pub open spec fn variable(self, key: Text) -> Option<Text> {
        match self {
            Reply::Settings(s) => variable(s.vars@, key),
            _ => None,
        }
    }

    /// The environment variable `key` among the settings.
    pub fn get_variable(&self, key: &str) -> (r: Option<String>)
        ensures
            view_of(r) == self.variable(key@),
    {
        match self {
            Reply::Settings(s) => find_variable(&s.vars, key),
            _ => None,
        }
    }

    /// The best global addresses of the box.
    pub open spec fn detected(self) -> (Option<Text>, Option<Text>) {
        match self {
            Reply::Survey(s) => (detected_v4(s), detected_v6(s)),
            _ => (None, None),
        }
    }

    /// The best global addresses of the box.
    pub fn get_detected(&self) -> (r: (Option<String>, Option<String>))
        ensures
            (view_of(r.0), view_of(r.1)) == self.detected(),
    {
        match self {
            Reply::Survey(s) => detect(s),
            _ => (None, None),
        }
    }

    /// The seconds on the clock; zero where it stands before the epoch.
    pub open spec fn seconds(self) -> nat {
        match self {
            Reply::Clock(Some(n)) => n as nat,
            _ => 0,
        }
    }

    /// The seconds on the clock; zero where it stands before the epoch.
    pub fn get_seconds(&self) -> (r: u64)
        ensures
            r == self.seconds(),
    {
        match self {
            Reply::Clock(Some(n)) => *n,
            _ => 0,
        }
    }

    /// Whether something was done, or why not.
    pub open spec fn done(self) -> Result<(), Text> {
        match self {
            Reply::Done(r) => done_view(r),
            _ => Err(seq![]),
        }
    }

    /// Whether something was done, or why not.
    pub fn get_done(&self) -> (r: Result<(), String>)
        ensures
            done_view(r) == self.done(),
    {
        match self {
            Reply::Done(Ok(_)) => Ok(()),
            Reply::Done(Err(e)) => Err(e.clone()),
            _ => {
                let e = String::new();
                assert(e@ =~= seq![]);
                Err(e)
            },
        }
    }
}

} // verus!
