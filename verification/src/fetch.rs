//! The decisions of the two requests, apart from the work on the file system.
//!
//! A request is a conversation. It names an [`Action`]; whoever drives it
//! performs the action and reports what happened as an [`Event`]; the request
//! then names the next action, or ends with its result. Nothing here touches
//! the file system: all of it is decided from the events alone. The paths
//! that the actions speak of are those of [`crate::paths::ConfigPaths`].
use crate::error::FetchError;
use crate::hyprland::hyprland_bindings;
use crate::hyprland::parse_hyprland_keybinds;
use crate::paths::Location;
use crate::simple::parse_keybind_file;
use crate::simple::simple_bindings;
use crate::BundleModel;
use crate::FileBundle;
use vstd::prelude::*;
use vstd::string::StringExecFns;

verus! {

/// What the driver of a request is asked to do next.
#[derive(Clone, Copy, Debug, PartialEq, Eq, Structural)]
pub enum Action {
    /// Say whether anything exists at the location. Answered by
    /// [`Event::Present`] or [`Event::Absent`].
    Probe(Location),
    /// Create the shortcuts directory and its missing ancestors; a directory
    /// that is there by now counts as created. Answered by
    /// [`Event::Created`] or [`Event::CreateFailed`].
    CreateDir,
    /// Begin to enumerate the shortcuts directory. Answered by
    /// [`Event::Listed`] or [`Event::ListFailed`].
    ListDir,
    /// Move on to the next entry of the enumeration. Answered by
    /// [`Event::RegularFile`], [`Event::OtherEntry`], [`Event::EntryFailed`]
    /// or [`Event::EndOfEntries`].
    NextEntry,
    /// Read the whole entry that was just reported, as text. Answered by
    /// [`Event::EntryContent`] or [`Event::ReadFailed`].
    ReadEntry,
    /// Read the whole file at the location, as text. Answered by
    /// [`Event::Content`] or [`Event::ReadFailed`].
    Read(Location),
}

/// What the driver reports back.
#[derive(Debug, PartialEq, Eq)]
pub enum Event {
    /// Something exists at the probed location.
    Present,
    /// Nothing exists at the probed location.
    Absent,
    /// The shortcuts directory exists now.
    Created,
    /// The shortcuts directory could not be created.
    CreateFailed(String),
    /// The enumeration of the shortcuts directory has begun.
    Listed,
    /// The shortcuts directory could not be enumerated.
    ListFailed(String),
    /// The next entry is a regular file.
    RegularFile,
    /// The next entry is something else: a directory, a socket, a link that
    /// leads nowhere.
    OtherEntry,
    /// The enumeration broke off.
    EntryFailed(String),
    /// The enumeration is over.
    EndOfEntries,
    /// The text of the entry, with its base name where that name is text,
    /// and its path for messages.
    EntryContent { name: Option<String>, path: String, content: String },
    /// The text of the file.
    Content(String),
    /// The file or entry could not be opened or read.
    ReadFailed(String),
}

/// Where the request for the stylesheet stands: which answer it waits for.
#[derive(Clone, Copy, Debug, PartialEq, Eq, Structural)]
pub enum StylesheetFetch {
    /// Waiting to hear whether the stylesheet exists.
    Probe,
    /// Waiting for the stylesheet's text.
    Content,
}

/// One step of the request for the stylesheet.
#[derive(Debug, PartialEq, Eq)]
pub enum StylesheetStep {
    /// The request goes on: its new state, and what to do next.
    Continue(StylesheetFetch, Action),
    /// The request is over: the stylesheet's text, or `None` where the user
    /// has no stylesheet, or the failure.
    Finished(Result<Option<String>, FetchError>),
}

impl StylesheetFetch {
    /// The action whose answer the request waits for.
    pub open spec fn pending(self) -> Action {
        match self {
            StylesheetFetch::Probe => Action::Probe(Location::Stylesheet),
            StylesheetFetch::Content => Action::Read(Location::Stylesheet),
        }
    }

    /// The step that `event` brings about. An event that does not answer
    /// the pending action changes nothing: the action is asked for again.
    pub open spec fn step(self, event: Event) -> StylesheetStep {
        match (self, event) {
            (StylesheetFetch::Probe, Event::Present) => StylesheetStep::Continue(
                StylesheetFetch::Content,
                StylesheetFetch::Content.pending(),
            ),
            (StylesheetFetch::Probe, Event::Absent) => StylesheetStep::Finished(Ok(None)),
            (StylesheetFetch::Content, Event::Content(text)) => StylesheetStep::Finished(
                Ok(Some(text)),
            ),
            (StylesheetFetch::Content, Event::ReadFailed(m)) => StylesheetStep::Finished(
                Err(FetchError::ReadFailed(m)),
            ),
            _ => StylesheetStep::Continue(self, self.pending()),
        }
    }

    /// Where the request stands after `events`, or how it ended; events
    /// that come after its end are not looked at.
    pub open spec fn run(self, events: Seq<Event>) -> StylesheetStep
        decreases events.len(),
    {
        if events.len() == 0 {
            StylesheetStep::Continue(self, self.pending())
        } else {
            match self.step(events[0]) {
                StylesheetStep::Continue(next, _) => next.run(events.drop_first()),
                StylesheetStep::Finished(r) => StylesheetStep::Finished(r),
            }
        }
    }

    /// A new request, and its first action.
    pub fn start() -> (r: (StylesheetFetch, Action))
        ensures
            r.0 == StylesheetFetch::Probe,
            r.1 == r.0.pending(),
    {
        (StylesheetFetch::Probe, Action::Probe(Location::Stylesheet))
    }

    /// Takes the answer to the pending action and decides how the request
    /// goes on.
    pub fn advance(self, event: Event) -> (r: StylesheetStep)
        ensures
            r == self.step(event),
    {
        match (self, event) {
            (StylesheetFetch::Probe, Event::Present) => StylesheetStep::Continue(
                StylesheetFetch::Content,
                Action::Read(Location::Stylesheet),
            ),
            (StylesheetFetch::Probe, Event::Absent) => StylesheetStep::Finished(Ok(None)),
            (StylesheetFetch::Content, Event::Content(text)) => StylesheetStep::Finished(
                Ok(Some(text)),
            ),
            (StylesheetFetch::Content, Event::ReadFailed(m)) => StylesheetStep::Finished(
                Err(FetchError::ReadFailed(m)),
            ),
            (StylesheetFetch::Probe, _) => StylesheetStep::Continue(
                self,
                Action::Probe(Location::Stylesheet),
            ),
            (StylesheetFetch::Content, _) => StylesheetStep::Continue(
                self,
                Action::Read(Location::Stylesheet),
            ),
        }
    }
}

/// Where the request for the shortcuts stands: which answer it waits for.
#[derive(Clone, Copy, Debug, PartialEq, Eq, Structural)]
pub enum Phase {
    /// Waiting to hear whether the shortcuts directory exists.
    DirProbe,
    /// Waiting for the shortcuts directory to be created.
    Create,
    /// Waiting for the enumeration to begin.
    Listing,
    /// Waiting for the next entry.
    Entry,
    /// Waiting for the text of the entry.
    EntryContent,
    /// Waiting to hear whether the window manager's configuration exists.
    ConfigProbe,
    /// Waiting for the text of the window manager's configuration.
    Config,
}

/// The request for the shortcuts: where it stands, and the bundles it has
/// gathered so far.
#[derive(Debug, PartialEq, Eq)]
pub struct KeybindFetch {
    phase: Phase,
    bundles: Vec<FileBundle>,
}

/// The model of a [`KeybindFetch`].
pub struct KeybindState {
    pub phase: Phase,
    pub bundles: Seq<BundleModel>,
}

/// One step of the request for the shortcuts.
#[derive(Debug, PartialEq, Eq)]
pub enum KeybindStep {
    /// The request goes on: its new state, and what to do next.
    Continue(KeybindFetch, Action),
    /// The request is over: the bundles in the order in which the files were
    /// enumerated, the window manager's last; or the failure.
    Finished(Result<Vec<FileBundle>, FetchError>),
}

/// The model of a [`KeybindStep`].
pub enum KeybindOutcome {
    Continue(KeybindState, Action),
    Finished(Result<Seq<BundleModel>, FetchError>),
}

impl View for KeybindFetch {
    type V = KeybindState;

    closed spec fn view(&self) -> KeybindState {
        KeybindState { phase: self.phase, bundles: self.bundles.deep_view() }
    }
}

impl View for KeybindStep {
    type V = KeybindOutcome;

    open spec fn view(&self) -> KeybindOutcome {
        match *self {
            KeybindStep::Continue(fetch, action) => KeybindOutcome::Continue(fetch@, action),
            KeybindStep::Finished(Ok(bundles)) => KeybindOutcome::Finished(Ok(bundles.deep_view())),
            KeybindStep::Finished(Err(e)) => KeybindOutcome::Finished(Err(e)),
        }
    }
}

/// The name under which the window manager's bindings are bundled.
pub open spec fn config_bundle_name() -> Seq<char> {
    "hyprland.conf"@
}

impl Phase {
    /// The action whose answer the request waits for.
    pub open spec fn pending(self) -> Action {
        match self {
            Phase::DirProbe => Action::Probe(Location::ShortcutsDir),
            Phase::Create => Action::CreateDir,
            Phase::Listing => Action::ListDir,
            Phase::Entry => Action::NextEntry,
            Phase::EntryContent => Action::ReadEntry,
            Phase::ConfigProbe => Action::Probe(Location::WindowManagerConfig),
            Phase::Config => Action::Read(Location::WindowManagerConfig),
        }
    }

    fn pending_action(self) -> (a: Action)
        ensures
            a == self.pending(),
    {
        match self {
            Phase::DirProbe => Action::Probe(Location::ShortcutsDir),
            Phase::Create => Action::CreateDir,
            Phase::Listing => Action::ListDir,
            Phase::Entry => Action::NextEntry,
            Phase::EntryContent => Action::ReadEntry,
            Phase::ConfigProbe => Action::Probe(Location::WindowManagerConfig),
            Phase::Config => Action::Read(Location::WindowManagerConfig),
        }
    }
}

impl KeybindState {
    /// The state that waits in `phase`, with the same bundles.
    pub open spec fn at(self, phase: Phase) -> KeybindOutcome {
        KeybindOutcome::Continue(
            KeybindState { phase, bundles: self.bundles },
            phase.pending(),
        )
    }

    /// The step that `event` brings about.
    ///
    /// A shortcuts directory that is absent is created, and the request goes
    /// on as if it had enumerated nothing. Otherwise the directory is
    /// enumerated: what is no regular file is passed over; a regular file is
    /// read, parsed in the simple format and bundled under its base name. A
    /// file whose base name is missing or empty ends the request. When the
    /// enumeration is over, the window manager's configuration, where it
    /// exists, is read and parsed, and its bundle comes last. Any failure
    /// ends the request; no part of the result is handed out then.
    ///
    /// An event that does not answer the pending action changes nothing:
    /// the action is asked for again.
    pub open spec fn step(self, event: Event) -> KeybindOutcome {
        match (self.phase, event) {
            (Phase::DirProbe, Event::Present) => self.at(Phase::Listing),
            (Phase::DirProbe, Event::Absent) => self.at(Phase::Create),
            (Phase::Create, Event::Created) => self.at(Phase::ConfigProbe),
            (Phase::Create, Event::CreateFailed(m)) => KeybindOutcome::Finished(
                Err(FetchError::MkdirFailed(m)),
            ),
            (Phase::Listing, Event::Listed) => self.at(Phase::Entry),
            (Phase::Listing, Event::ListFailed(m)) => KeybindOutcome::Finished(
                Err(FetchError::EnumFailed(m)),
            ),
            (Phase::Entry, Event::RegularFile) => self.at(Phase::EntryContent),
            (Phase::Entry, Event::OtherEntry) => self.at(Phase::Entry),
            (Phase::Entry, Event::EntryFailed(m)) => KeybindOutcome::Finished(
                Err(FetchError::EnumFailed(m)),
            ),
            (Phase::Entry, Event::EndOfEntries) => self.at(Phase::ConfigProbe),
            (Phase::EntryContent, Event::EntryContent { name, path, content }) => {
                if name is Some && name->0@.len() > 0 {
                    KeybindOutcome::Continue(
                        KeybindState {
                            phase: Phase::Entry,
                            bundles: self.bundles.push((name->0@, simple_bindings(content@))),
                        },
                        Phase::Entry.pending(),
                    )
                } else {
                    KeybindOutcome::Finished(Err(FetchError::BadFilename(path)))
                }
            },
            (Phase::EntryContent, Event::ReadFailed(m)) => KeybindOutcome::Finished(
                Err(FetchError::ReadFailed(m)),
            ),
            (Phase::ConfigProbe, Event::Present) => self.at(Phase::Config),
            (Phase::ConfigProbe, Event::Absent) => KeybindOutcome::Finished(Ok(self.bundles)),
            (Phase::Config, Event::Content(text)) => KeybindOutcome::Finished(
                Ok(self.bundles.push((config_bundle_name(), hyprland_bindings(text@)))),
            ),
            (Phase::Config, Event::ReadFailed(m)) => KeybindOutcome::Finished(
                Err(FetchError::ReadFailed(m)),
            ),
            _ => self.at(self.phase),
        }
    }

    /// Where the request stands after `events`, or how it ended; events
    /// that come after its end are not looked at.
    pub open spec fn run(self, events: Seq<Event>) -> KeybindOutcome
        decreases events.len(),
    {
        if events.len() == 0 {
            self.at(self.phase)
        } else {
            match self.step(events[0]) {
                KeybindOutcome::Continue(next, _) => next.run(events.drop_first()),
                KeybindOutcome::Finished(r) => KeybindOutcome::Finished(r),
            }
        }
    }
}

impl KeybindFetch {
    /// The state of a request that has just begun.
    pub open spec fn initial() -> KeybindState {
        KeybindState { phase: Phase::DirProbe, bundles: Seq::empty() }
    }

    /// A new request, and its first action.
    pub fn start() -> (r: (KeybindFetch, Action))
        ensures
            r.0@ == Self::initial(),
            r.1 == Phase::DirProbe.pending(),
    {
        let fetch = KeybindFetch { phase: Phase::DirProbe, bundles: Vec::new() };
        assert(fetch.bundles.deep_view() =~= Seq::empty());
        (fetch, Action::Probe(Location::ShortcutsDir))
    }

    fn goto(self, phase: Phase) -> (r: KeybindStep)
        ensures
            r@ == self@.at(phase),
    {
        let action = phase.pending_action();
        KeybindStep::Continue(KeybindFetch { phase, bundles: self.bundles }, action)
    }

    /// Takes the answer to the pending action and decides how the request
    /// goes on.
    pub fn advance(self, event: Event) -> (r: KeybindStep)
        ensures
            r@ == self@.step(event),
    {
        match (self.phase, event) {
            (Phase::DirProbe, Event::Present) => self.goto(Phase::Listing),
            (Phase::DirProbe, Event::Absent) => self.goto(Phase::Create),
            (Phase::Create, Event::Created) => self.goto(Phase::ConfigProbe),
            (Phase::Create, Event::CreateFailed(m)) => KeybindStep::Finished(
                Err(FetchError::MkdirFailed(m)),
            ),
            (Phase::Listing, Event::Listed) => self.goto(Phase::Entry),
            (Phase::Listing, Event::ListFailed(m)) => KeybindStep::Finished(
                Err(FetchError::EnumFailed(m)),
            ),
            (Phase::Entry, Event::RegularFile) => self.goto(Phase::EntryContent),
            (Phase::Entry, Event::OtherEntry) => self.goto(Phase::Entry),
            (Phase::Entry, Event::EntryFailed(m)) => KeybindStep::Finished(
                Err(FetchError::EnumFailed(m)),
            ),
            (Phase::Entry, Event::EndOfEntries) => self.goto(Phase::ConfigProbe),
            (Phase::EntryContent, Event::EntryContent { name, path, content }) => {
                match name {
                    Some(n) => {
                        if n.as_str().is_empty() {
                            KeybindStep::Finished(Err(FetchError::BadFilename(path)))
                        } else {
                            let ghost before = self.bundles.deep_view();
                            let mut bundles = self.bundles;
                            let bindings = parse_keybind_file(content.as_str());
                            bundles.push((n, bindings));
                            assert(bundles.deep_view() =~~= before.push(
                                (n@, simple_bindings(content@)),
                            ));
                            KeybindStep::Continue(
                                KeybindFetch { phase: Phase::Entry, bundles },
                                Action::NextEntry,
                            )
                        }
                    },
                    None => KeybindStep::Finished(Err(FetchError::BadFilename(path))),
                }
            },
            (Phase::EntryContent, Event::ReadFailed(m)) => KeybindStep::Finished(
                Err(FetchError::ReadFailed(m)),
            ),
            (Phase::ConfigProbe, Event::Present) => self.goto(Phase::Config),
            (Phase::ConfigProbe, Event::Absent) => KeybindStep::Finished(Ok(self.bundles)),
            (Phase::Config, Event::Content(text)) => {
                let ghost before = self.bundles.deep_view();
                let mut bundles = self.bundles;
                let bindings = parse_hyprland_keybinds(text.as_str());
                let name = String::from_str("hyprland.conf");
                bundles.push((name, bindings));
                assert(bundles.deep_view() =~~= before.push(
                    (config_bundle_name(), hyprland_bindings(text@)),
                ));
                KeybindStep::Finished(Ok(bundles))
            },
            (Phase::Config, Event::ReadFailed(m)) => KeybindStep::Finished(
                Err(FetchError::ReadFailed(m)),
            ),
            (phase, _) => self.goto(phase),
        }
    }
}

/// An entry of a directory as it is met while enumerating: `None` for what
/// is no regular file, and for a regular file its base name, its path and
/// its text.
pub type EntryModel = Option<(String, String, String)>;

/// What the driver reports while it enumerates a directory that holds
/// `entries`, each regular file being read as it is met.
pub open spec fn enumeration_of(entries: Seq<EntryModel>) -> Seq<Event>
    decreases entries.len(),
{
    if entries.len() == 0 {
        seq![Event::EndOfEntries]
    } else {
        let first = match entries[0] {
            None => seq![Event::OtherEntry],
            Some((name, path, content)) => seq![
                Event::RegularFile,
                Event::EntryContent { name: Some(name), path, content },
            ],
        };
        first + enumeration_of(entries.drop_first())
    }
}

/// One bundle for each regular file among `entries`, in their order.
pub open spec fn bundles_of(entries: Seq<EntryModel>) -> Seq<BundleModel>
    decreases entries.len(),
{
    if entries.len() == 0 {
        Seq::empty()
    } else {
        let first = match entries[0] {
            None => Seq::empty(),
            Some((name, path, content)) => seq![(name@, simple_bindings(content@))],
        };
        first + bundles_of(entries.drop_first())
    }
}

/// What the driver reports of the window manager's configuration: that
/// there is none, or that there is one, and its text.
pub open spec fn configuration_of(config: Option<String>) -> Seq<Event> {
    match config {
        None => seq![Event::Absent],
        Some(text) => seq![Event::Present, Event::Content(text)],
    }
}

/// The bundle of the window manager's configuration, where there is one.
pub open spec fn config_bundles(config: Option<String>) -> Seq<BundleModel> {
    match config {
        None => Seq::empty(),
        Some(text) => seq![(config_bundle_name(), hyprland_bindings(text@))],
    }
}

/// Whether every regular file among `entries` has a name.
pub open spec fn files_named(entries: Seq<EntryModel>) -> bool {
    forall|i: int|
        0 <= i < entries.len() ==> ((#[trigger] entries[i]) matches Some(file) ==> file.0@.len()
            > 0)
}

/// Whether every bundle bears a name.
pub open spec fn all_named(bundles: Seq<BundleModel>) -> bool {
    forall|i: int| 0 <= i < bundles.len() ==> (#[trigger] bundles[i]).0.len() > 0
}

impl StylesheetFetch {
    /// When the stylesheet is absent the request ends, whatever is reported
    /// after that, with `None` and without a failure.
    pub proof fn law_absent_stylesheet(rest: Seq<Event>)
        ensures
            StylesheetFetch::Probe.run(seq![Event::Absent] + rest) == StylesheetStep::Finished(
                Ok(None),
            ),
    {
        let events = seq![Event::Absent] + rest;
        assert(events[0] == Event::Absent);
    }

    /// When the stylesheet is present, the request asks for its text. It
    /// ends with the text that is reported, whatever that is; where reading
    /// fails, it ends with that failure.
    pub proof fn law_present_stylesheet(answer: Event, rest: Seq<Event>)
        ensures
            StylesheetFetch::Probe.step(Event::Present) == StylesheetStep::Continue(
                StylesheetFetch::Content,
                Action::Read(Location::Stylesheet),
            ),
            answer matches Event::Content(text) ==> StylesheetFetch::Probe.run(
                seq![Event::Present, answer] + rest,
            ) == StylesheetStep::Finished(Ok(Some(text))),
            answer matches Event::ReadFailed(m) ==> StylesheetFetch::Probe.run(
                seq![Event::Present, answer] + rest,
            ) == StylesheetStep::Finished(Err(FetchError::ReadFailed(m))),
    {
        let events = seq![Event::Present, answer] + rest;
        assert(events[0] == Event::Present);
        assert(events.drop_first()[0] == answer);
        assert(StylesheetFetch::Probe.run(events) == StylesheetFetch::Content.run(
            events.drop_first(),
        ));
    }
}

impl KeybindState {
    /// A step keeps what was gathered and adds at the end only; it names the
    /// action that the new state waits for; and where every bundle bore a
    /// name before, every bundle bears one after.
    pub proof fn lemma_step_gathers(self, event: Event)
        ensures
            match self.step(event) {
                KeybindOutcome::Continue(next, action) => {
                    &&& self.bundles.is_prefix_of(next.bundles)
                    &&& action == next.phase.pending()
                    &&& all_named(self.bundles) ==> all_named(next.bundles)
                },
                KeybindOutcome::Finished(Ok(bundles)) => {
                    &&& self.bundles.is_prefix_of(bundles)
                    &&& all_named(self.bundles) ==> all_named(bundles)
                },
                KeybindOutcome::Finished(Err(_)) => true,
            },
    {
        reveal_strlit("hyprland.conf");
        match self.step(event) {
            KeybindOutcome::Continue(next, _) => {
                assert(self.bundles =~= next.bundles.subrange(0, self.bundles.len() as int));
            },
            KeybindOutcome::Finished(Ok(bundles)) => {
                assert(self.bundles =~= bundles.subrange(0, self.bundles.len() as int));
            },
            KeybindOutcome::Finished(Err(_)) => {},
        }
    }

    /// What holds of one step holds of any number of them: the bundles of a
    /// request stay in the order in which they were gathered, and each bears
    /// a name.
    pub proof fn law_run_gathers(self, events: Seq<Event>)
        ensures
            match self.run(events) {
                KeybindOutcome::Continue(next, action) => {
                    &&& self.bundles.is_prefix_of(next.bundles)
                    &&& action == next.phase.pending()
                    &&& all_named(self.bundles) ==> all_named(next.bundles)
                },
                KeybindOutcome::Finished(Ok(bundles)) => {
                    &&& self.bundles.is_prefix_of(bundles)
                    &&& all_named(self.bundles) ==> all_named(bundles)
                },
                KeybindOutcome::Finished(Err(_)) => true,
            },
        decreases events.len(),
    {
        if events.len() == 0 {
            assert(self.bundles =~= self.bundles.subrange(0, self.bundles.len() as int));
        } else {
            self.lemma_step_gathers(events[0]);
            match self.step(events[0]) {
                KeybindOutcome::Continue(next, _) => {
                    next.law_run_gathers(events.drop_first());
                    match next.run(events.drop_first()) {
                        KeybindOutcome::Continue(last, _) => {
                            assert(self.bundles =~= last.bundles.subrange(
                                0,
                                self.bundles.len() as int,
                            ));
                        },
                        KeybindOutcome::Finished(Ok(bundles)) => {
                            assert(self.bundles =~= bundles.subrange(
                                0,
                                self.bundles.len() as int,
                            ));
                        },
                        KeybindOutcome::Finished(Err(_)) => {},
                    }
                },
                KeybindOutcome::Finished(_) => {},
            }
        }
    }

    /// Once the request has turned to the window manager's configuration, it
    /// can only end with the bundles it holds, or with those and the
    /// configuration's bundle after them.
    pub proof fn lemma_configuration_comes_last(self, events: Seq<Event>)
        requires
            self.phase == Phase::ConfigProbe || self.phase == Phase::Config,
        ensures
            self.run(events) matches KeybindOutcome::Finished(Ok(bundles)) ==> {
                ||| bundles == self.bundles
                ||| exists|text: String|
                    bundles == self.bundles.push(
                        (config_bundle_name(), #[trigger] hyprland_bindings(text@)),
                    )
            },
        decreases events.len(),
    {
        if events.len() > 0 {
            match self.step(events[0]) {
                KeybindOutcome::Continue(next, _) => {
                    next.lemma_configuration_comes_last(events.drop_first());
                },
                KeybindOutcome::Finished(_) => {},
            }
        }
    }
}

impl KeybindFetch {
    /// When the shortcuts directory is absent, the request asks for it to be
    /// created. Once it is, nothing is enumerated: whatever is reported
    /// after that, the request can only end with no bundle at all, or with
    /// the window manager's alone.
    pub proof fn law_absent_directory(rest: Seq<Event>)
        ensures
            Self::initial().step(Event::Absent) == KeybindOutcome::Continue(
                KeybindState { phase: Phase::Create, bundles: Seq::empty() },
                Action::CreateDir,
            ),
            Self::initial().run(seq![Event::Absent, Event::Created] + rest)
                matches KeybindOutcome::Finished(Ok(bundles)) ==> {
                ||| bundles == Seq::<BundleModel>::empty()
                ||| exists|text: String|
                    bundles == seq![(config_bundle_name(), #[trigger] hyprland_bindings(text@))]
            },
    {
        let start = Self::initial();
        let creating = KeybindState { phase: Phase::Create, bundles: Seq::empty() };
        let turned = KeybindState { phase: Phase::ConfigProbe, bundles: Seq::empty() };
        let events = seq![Event::Absent, Event::Created] + rest;
        assert(events[0] == Event::Absent);
        assert(events.drop_first()[0] == Event::Created);
        assert(events.drop_first().drop_first() =~= rest);
        assert(start.step(Event::Absent) == start.at(Phase::Create));
        assert(creating.step(Event::Created) == creating.at(Phase::ConfigProbe));
        assert(start.run(events) == creating.run(events.drop_first()));
        assert(creating.run(events.drop_first()) == turned.run(rest));
        turned.lemma_configuration_comes_last(rest);
        assert forall|text: String|
            turned.bundles.push((config_bundle_name(), #[trigger] hyprland_bindings(text@)))
                =~= seq![(config_bundle_name(), hyprland_bindings(text@))] by {}
    }
}

impl KeybindState {
    /// Enumerating a directory whose files all have names adds one bundle
    /// for each regular file, in the order of the enumeration, and then
    /// turns to the window manager's configuration.
    pub proof fn lemma_enumeration(self, entries: Seq<EntryModel>, rest: Seq<Event>)
        requires
            self.phase == Phase::Entry,
            files_named(entries),
        ensures
            self.run(enumeration_of(entries) + rest) == (KeybindState {
                phase: Phase::ConfigProbe,
                bundles: self.bundles + bundles_of(entries),
            }).run(rest),
        decreases entries.len(),
    {
        let events = enumeration_of(entries) + rest;
        if entries.len() == 0 {
            assert(events[0] == Event::EndOfEntries);
            assert(events.drop_first() =~= rest);
            assert(self.bundles + bundles_of(entries) =~= self.bundles);
        } else {
            let tail = entries.drop_first();
            assert forall|i: int| 0 <= i < tail.len() implies ((#[trigger] tail[i]) matches Some(
                file,
            ) ==> file.0@.len() > 0) by {
                assert(tail[i] == entries[i + 1]);
            }
            match entries[0] {
                None => {
                    assert(events[0] == Event::OtherEntry);
                    assert(events.drop_first() =~= enumeration_of(tail) + rest);
                    self.lemma_enumeration(tail, rest);
                    assert(self.bundles + bundles_of(entries) =~= self.bundles + bundles_of(tail));
                    assert(self.step(Event::OtherEntry) == self.at(Phase::Entry));
                },
                Some((name, path, content)) => {
                    let report = Event::EntryContent { name: Some(name), path, content };
                    let reading = KeybindState { phase: Phase::EntryContent, bundles: self.bundles };
                    let next = KeybindState {
                        phase: Phase::Entry,
                        bundles: self.bundles.push((name@, simple_bindings(content@))),
                    };
                    assert(events[0] == Event::RegularFile);
                    assert(events.drop_first()[0] == report);
                    assert(events.drop_first().drop_first() =~= enumeration_of(tail) + rest);
                    assert(self.step(Event::RegularFile) == self.at(Phase::EntryContent));
                    assert(self.run(events) == reading.run(events.drop_first()));
                    assert(reading.run(events.drop_first()) == next.run(
                        events.drop_first().drop_first(),
                    ));
                    next.lemma_enumeration(tail, rest);
                    assert(next.bundles + bundles_of(tail) =~= self.bundles + bundles_of(entries));
                },
            }
        }
    }
}

impl KeybindFetch {
    /// The result of a request that meets no failure: where the shortcuts
    /// directory exists, one bundle for each of its regular files, in the
    /// order of the enumeration, and then the bundle of the window manager's
    /// configuration, where there is one.
    pub proof fn law_result(entries: Seq<EntryModel>, config: Option<String>)
        requires
            files_named(entries),
        ensures
            Self::initial().run(
                seq![Event::Present, Event::Listed] + enumeration_of(entries) + configuration_of(
                    config,
                ),
            ) == KeybindOutcome::Finished(Ok(bundles_of(entries) + config_bundles(config))),
    {
        let start = Self::initial();
        let listing = KeybindState { phase: Phase::Listing, bundles: Seq::empty() };
        let enumerating = KeybindState { phase: Phase::Entry, bundles: Seq::empty() };
        let turned = KeybindState { phase: Phase::ConfigProbe, bundles: bundles_of(entries) };
        let tail = enumeration_of(entries) + configuration_of(config);
        let events = seq![Event::Present, Event::Listed] + enumeration_of(entries)
            + configuration_of(config);
        assert(events[0] == Event::Present);
        assert(events.drop_first()[0] == Event::Listed);
        assert(events.drop_first().drop_first() =~= tail);
        assert(start.step(Event::Present) == start.at(Phase::Listing));
        assert(listing.step(Event::Listed) == listing.at(Phase::Entry));
        assert(start.run(events) == listing.run(events.drop_first()));
        assert(listing.run(events.drop_first()) == enumerating.run(tail));
        enumerating.lemma_enumeration(entries, configuration_of(config));
        assert(enumerating.bundles + bundles_of(entries) =~= bundles_of(entries));
        let last = configuration_of(config);
        match config {
            None => {
                assert(last[0] == Event::Absent);
                assert(bundles_of(entries) + config_bundles(config) =~= bundles_of(entries));
            },
            Some(text) => {
                let reading = KeybindState { phase: Phase::Config, bundles: bundles_of(entries) };
                assert(last[0] == Event::Present);
                assert(last.drop_first()[0] == Event::Content(text));
                assert(turned.step(Event::Present) == turned.at(Phase::Config));
                assert(turned.run(last) == reading.run(last.drop_first()));
                assert(bundles_of(entries) + config_bundles(config) =~= bundles_of(entries).push(
                    (config_bundle_name(), hyprland_bindings(text@)),
                ));
            },
        }
    }
}

} // verus!
