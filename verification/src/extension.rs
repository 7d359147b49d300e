//! The editor extension's search for the language server binary, as a
//! state machine: the caller performs each action (reading the settings,
//! checking that a file exists, running `which`) and hands back what came
//! of it, until a path is found or the search fails.
use vstd::prelude::*;
use crate::text::{chars_of, push_chars, string_of, trim, trim_chars};

verus! {

/// The common installation location of index `i` (0 to 2), the last one
/// under the home directory `home`.
pub open spec fn common_path(home: Seq<char>, i: int) -> Seq<char> {
    if i == 0 {
        "/usr/local/bin/skill-lsp"@
    } else if i == 1 {
        "/usr/bin/skill-lsp"@
    } else {
        home + "/.local/bin/skill-lsp"@
    }
}

/// The message of a search that found nothing.
pub open spec fn not_found_message() -> Seq<char> {
    "SKILL LSP server not found. Please install skill-lsp or configure the path in settings."@
}

/// The message of a `which` that could not be run, from its error's message.
pub open spec fn which_failed_message(err: Seq<char>) -> Seq<char> {
    "Failed to find skill-lsp: "@ + err
}

/// Where the search stands.
#[derive(Clone, Copy, Debug, PartialEq, Eq, Structural)]
pub enum LookupStage {
    /// Waiting for the path configured in the settings, if any.
    Settings,
    /// Waiting to learn whether the cached path exists.
    Cached,
    /// Waiting for the result of `which skill-lsp`.
    Which,
    /// Waiting to learn whether common location `i` exists.
    Common(u8),
    /// The search is over.
    Done,
}

/// What the caller is to do next.
pub enum LookupAction {
    /// Read the configured binary path from the settings.
    ReadSettings,
    /// Check whether a file exists at this path.
    CheckExists(String),
    /// Run `which skill-lsp`.
    RunWhich,
    /// The binary is at this path.
    Found(String),
    /// The search failed with this message.
    Fail(String),
}

/// What came of the last action.
pub enum LookupEvent {
    /// The path that the settings configure, if any.
    Settings(Option<String>),
    /// Whether the file checked exists.
    Exists(bool),
    /// `which` ran: its standard output when it succeeded, else nothing.
    WhichRan(Option<String>),
    /// `which` could not be run: the message of its error.
    WhichError(String),
}

/// The plain value of an action.
pub enum ActionModel {
    ReadSettings,
    CheckExists(Seq<char>),
    RunWhich,
    Found(Seq<char>),
    Fail(Seq<char>),
}

/// The plain value of an event.
pub enum EventModel {
    Settings(Option<Seq<char>>),
    Exists(bool),
    WhichRan(Option<Seq<char>>),
    WhichError(Seq<char>),
}

impl View for LookupAction {
    type V = ActionModel;

    open spec fn view(&self) -> ActionModel {
        match self {
            LookupAction::ReadSettings => ActionModel::ReadSettings,
            LookupAction::CheckExists(p) => ActionModel::CheckExists(p@),
            LookupAction::RunWhich => ActionModel::RunWhich,
            LookupAction::Found(p) => ActionModel::Found(p@),
            LookupAction::Fail(m) => ActionModel::Fail(m@),
        }
    }
}

impl View for LookupEvent {
    type V = EventModel;

    open spec fn view(&self) -> EventModel {
        match self {
            LookupEvent::Settings(p) => EventModel::Settings(
                match p {
                    Some(s) => Some(s@),
                    None => None,
                },
            ),
            LookupEvent::Exists(b) => EventModel::Exists(*b),
            LookupEvent::WhichRan(o) => EventModel::WhichRan(
                match o {
                    Some(s) => Some(s@),
                    None => None,
                },
            ),
            LookupEvent::WhichError(m) => EventModel::WhichError(m@),
        }
    }
}

/// The plain value of a search: its stage, the cached path and the home
/// directory.
pub struct LookupModel {
    pub stage: LookupStage,
    pub cached: Option<Seq<char>>,
    pub home: Seq<char>,
}

/// A search for the language server binary.
pub struct BinaryLookup {
    stage: LookupStage,
    cached: Option<String>,
    home: String,
}

impl View for BinaryLookup {
    type V = LookupModel;

    closed spec fn view(&self) -> LookupModel {
        LookupModel {
            stage: self.stage,
            cached: match self.cached {
                Some(s) => Some(s@),
                None => None,
            },
            home: self.home@,
        }
    }
}

/// The action that a stage waits on: what the caller was asked to do.
pub open spec fn pending_action(m: LookupModel) -> ActionModel {
    match m.stage {
        LookupStage::Settings => ActionModel::ReadSettings,
        LookupStage::Cached => match m.cached {
            Some(c) => ActionModel::CheckExists(c),
            None => ActionModel::RunWhich,
        },
        LookupStage::Which => ActionModel::RunWhich,
        LookupStage::Common(i) => ActionModel::CheckExists(common_path(m.home, i as int)),
        LookupStage::Done => ActionModel::Fail(not_found_message()),
    }
}

/// The search after `e`, and the action that follows. The configured path
/// wins; then the cached path, if its file still exists; then the output of
/// `which`, trimmed, which becomes the cached path; then the first common
/// location that exists, which becomes the cached path. An event that does
/// not answer the pending action leaves the search as it is and asks again.
pub open spec fn lookup_step(m: LookupModel, e: EventModel) -> (LookupModel, ActionModel) {
    let done = LookupModel { stage: LookupStage::Done, ..m };
    match (m.stage, e) {
        (LookupStage::Settings, EventModel::Settings(Some(p))) => (done, ActionModel::Found(p)),
        (LookupStage::Settings, EventModel::Settings(None)) => match m.cached {
            Some(c) => (LookupModel { stage: LookupStage::Cached, ..m }, ActionModel::CheckExists(c)),
            None => (LookupModel { stage: LookupStage::Which, ..m }, ActionModel::RunWhich),
        },
        (LookupStage::Cached, EventModel::Exists(true)) => match m.cached {
            Some(c) => (done, ActionModel::Found(c)),
            None => (LookupModel { stage: LookupStage::Which, ..m }, ActionModel::RunWhich),
        },
        (LookupStage::Cached, EventModel::Exists(false)) => (
            LookupModel { stage: LookupStage::Which, ..m },
            ActionModel::RunWhich,
        ),
        (LookupStage::Which, EventModel::WhichRan(Some(out))) => (
            LookupModel { stage: LookupStage::Done, cached: Some(trim(out)), ..m },
            ActionModel::Found(trim(out)),
        ),
        (LookupStage::Which, EventModel::WhichRan(None)) => (
            LookupModel { stage: LookupStage::Common(0), ..m },
            ActionModel::CheckExists(common_path(m.home, 0)),
        ),
        (LookupStage::Which, EventModel::WhichError(err)) => (done, ActionModel::Fail(which_failed_message(err))),
        (LookupStage::Common(i), EventModel::Exists(true)) => (
            LookupModel { stage: LookupStage::Done, cached: Some(common_path(m.home, i as int)), ..m },
            ActionModel::Found(common_path(m.home, i as int)),
        ),
        (LookupStage::Common(i), EventModel::Exists(false)) => if i < 2 {
            (
                LookupModel { stage: LookupStage::Common((i + 1) as u8), ..m },
                ActionModel::CheckExists(common_path(m.home, i + 1)),
            )
        } else {
            (done, ActionModel::Fail(not_found_message()))
        },
        _ => (m, pending_action(m)),
    }
}

/// How many answers a search can still wait for at most.
pub open spec fn stages_left(s: LookupStage) -> nat {
    match s {
        LookupStage::Settings => 6,
        LookupStage::Cached => 5,
        LookupStage::Which => 4,
        LookupStage::Common(i) => if i < 3 {
            (3 - i) as nat
        } else {
            0
        },
        LookupStage::Done => 0,
    }
}

/// The common location of index `i` under `home`.
fn common_path_exec(home: &String, i: u8) -> (r: String)
    requires
        i <= 2,
    ensures
        r@ == common_path(home@, i as int),
{
    if i == 0 {
        String::from_str("/usr/local/bin/skill-lsp")
    } else if i == 1 {
        String::from_str("/usr/bin/skill-lsp")
    } else {
        let mut p = home.clone();
        let tail = chars_of("/.local/bin/skill-lsp");
        push_chars(&mut p, tail.as_slice());
        p
    }
}

impl BinaryLookup {
    /// The search invariant: a location index is one of the three.
    #[verifier::type_invariant]
    spec fn stage_ok(&self) -> bool {
        self.stage matches LookupStage::Common(i) ==> i <= 2
    }

    /// A search that starts with the given cached path and home directory;
    /// its first action is to read the settings.
    pub fn new(cached: Option<String>, home: String) -> (r: (BinaryLookup, LookupAction))
        ensures
            r.0@ == (LookupModel {
                stage: LookupStage::Settings,
                cached: match cached {
                    Some(s) => Some(s@),
                    None => None,
                },
                home: home@,
            }),
            r.1@ == ActionModel::ReadSettings,
    {
        (BinaryLookup { stage: LookupStage::Settings, cached, home }, LookupAction::ReadSettings)
    }

    /// The cached path, as the search leaves it.
    pub fn cached_path(&self) -> (r: Option<String>)
        ensures
            match r {
                Some(s) => self@.cached == Some(s@),
                None => self@.cached is None,
            },
    {
        match &self.cached {
            Some(s) => Some(s.clone()),
            None => None,
        }
    }

    /// Whether the search is over.
    pub fn is_done(&self) -> (r: bool)
        ensures
            r == (self@.stage == LookupStage::Done),
    {
        match self.stage {
            LookupStage::Done => true,
            _ => false,
        }
    }

    fn pending(&self) -> (r: LookupAction)
        ensures
            r@ == pending_action(self@),
    {
        proof {
            use_type_invariant(self);
        }
        match self.stage {
            LookupStage::Settings => LookupAction::ReadSettings,
            LookupStage::Cached => match &self.cached {
                Some(c) => LookupAction::CheckExists(c.clone()),
                None => LookupAction::RunWhich,
            },
            LookupStage::Which => LookupAction::RunWhich,
            LookupStage::Common(i) => LookupAction::CheckExists(common_path_exec(&self.home, i)),
            LookupStage::Done => LookupAction::Fail(String::from_str(
                "SKILL LSP server not found. Please install skill-lsp or configure the path in settings.",
            )),
        }
    }

    /// Takes what came of the last action and gives the next one.
    pub fn step(&mut self, event: LookupEvent) -> (r: LookupAction)
        ensures
            (final(self)@, r@) == lookup_step(old(self)@, event@),
    {
        proof {
            use_type_invariant(&*self);
        }
        match (self.stage, event) {
            (LookupStage::Settings, LookupEvent::Settings(Some(p))) => {
                self.stage = LookupStage::Done;
                LookupAction::Found(p)
            },
            (LookupStage::Settings, LookupEvent::Settings(None)) => match &self.cached {
                Some(c) => {
                    let c2 = c.clone();
                    self.stage = LookupStage::Cached;
                    LookupAction::CheckExists(c2)
                },
                None => {
                    self.stage = LookupStage::Which;
                    LookupAction::RunWhich
                },
            },
            (LookupStage::Cached, LookupEvent::Exists(true)) => match &self.cached {
                Some(c) => {
                    let c2 = c.clone();
                    self.stage = LookupStage::Done;
                    LookupAction::Found(c2)
                },
                None => {
                    self.stage = LookupStage::Which;
                    LookupAction::RunWhich
                },
            },
            (LookupStage::Cached, LookupEvent::Exists(false)) => {
                self.stage = LookupStage::Which;
                LookupAction::RunWhich
            },
            (LookupStage::Which, LookupEvent::WhichRan(Some(out))) => {
                let cs = chars_of(out.as_str());
                let t = trim_chars(cs.as_slice());
                let p = string_of(t.as_slice());
                let p2 = string_of(t.as_slice());
                self.cached = Some(p2);
                self.stage = LookupStage::Done;
                LookupAction::Found(p)
            },
            (LookupStage::Which, LookupEvent::WhichRan(None)) => {
                self.stage = LookupStage::Common(0);
                LookupAction::CheckExists(common_path_exec(&self.home, 0))
            },
            (LookupStage::Which, LookupEvent::WhichError(err)) => {
                let mut m = String::from_str("Failed to find skill-lsp: ");
                let ec = chars_of(err.as_str());
                push_chars(&mut m, ec.as_slice());
                self.stage = LookupStage::Done;
                LookupAction::Fail(m)
            },
            (LookupStage::Common(i), LookupEvent::Exists(true)) => {
                let p = common_path_exec(&self.home, i);
                let p2 = common_path_exec(&self.home, i);
                self.cached = Some(p2);
                self.stage = LookupStage::Done;
                LookupAction::Found(p)
            },
            (LookupStage::Common(i), LookupEvent::Exists(false)) => {
                if i < 2 {
                    self.stage = LookupStage::Common(i + 1);
                    LookupAction::CheckExists(common_path_exec(&self.home, i + 1))
                } else {
                    self.stage = LookupStage::Done;
                    LookupAction::Fail(String::from_str(
                        "SKILL LSP server not found. Please install skill-lsp or configure the path in settings.",
                    ))
                }
            },
            _ => self.pending(),
        }
    }
}

/// The arguments the language server is started with.
pub fn server_arguments() -> (r: Vec<String>)
    ensures
        r@.len() == 1,
        r@[0]@ == "--stdio"@,
{
    let mut v: Vec<String> = Vec::new();
    v.push(String::from_str("--stdio"));
    v
}

} // verus!
