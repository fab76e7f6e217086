//! The depth-first walk that fills a registry.
//!
//! A [`Traversal`] never reads a file. It holds one [`Request`] at a time,
//! which names the path it needs, and moves on when it is told what was
//! found there. The driver performs the request and hands back a [`Reply`];
//! the walk ends with [`Request::Finished`] or [`Request::Failed`].
//!
//! A module is inserted into the registry before any of its references is
//! followed, so that a cycle of references comes back to a known module and
//! stops there.

use crate::module::{Module, ModuleView};
use crate::parser::{parse, parse_outcome};
use crate::registry::{known, lemma_push_well_formed, well_formed, Registry};
use crate::specifier::{
    get_path_name,
    is_relative,
    parent_directory,
    parent_of,
    path_name_of,
    PathName,
    PathNameView,
};
use crate::syntax::{extract, references_of, texts, SyntaxTree, SyntaxTreeView};
use vstd::prelude::*;
use vstd::string::*;

verus! {

/// Why a walk was abandoned. Each of these is fatal: there is no partial
/// result.
#[derive(Debug, Clone, PartialEq, Eq)]
pub enum TraverseError {
    /// The file at `path` could not be read.
    Unreadable { path: String },
    /// The file at `path` is not a valid module.
    Parse { path: String, message: String },
    /// A relative specifier led to `path`, which does not exist.
    Resolution { path: String },
}

pub enum TraverseErrorView {
    Unreadable { path: Seq<char> },
    Parse { path: Seq<char>, message: Seq<char> },
    Resolution { path: Seq<char> },
}

impl View for TraverseError {
    type V = TraverseErrorView;

    open spec fn view(&self) -> TraverseErrorView {
        match self {
            TraverseError::Unreadable { path } => TraverseErrorView::Unreadable { path: path@ },
            TraverseError::Parse { path, message } => TraverseErrorView::Parse {
                path: path@,
                message: message@,
            },
            TraverseError::Resolution { path } => TraverseErrorView::Resolution { path: path@ },
        }
    }
}

/// What a walk is waiting for.
#[derive(Debug, Clone, PartialEq, Eq)]
pub enum Request {
    /// Read the file at `path` and canonicalize `path`.
    Load { path: String },
    /// Canonicalize `path`, which a relative specifier led to.
    Resolve { path: String },
    /// Nothing: every reachable module is in the registry.
    Finished,
    /// Nothing: the walk was abandoned.
    Failed(TraverseError),
}

pub enum RequestView {
    Load { path: Seq<char> },
    Resolve { path: Seq<char> },
    Finished,
    Failed(TraverseErrorView),
}

impl View for Request {
    type V = RequestView;

    open spec fn view(&self) -> RequestView {
        match self {
            Request::Load { path } => RequestView::Load { path: path@ },
            Request::Resolve { path } => RequestView::Resolve { path: path@ },
            Request::Finished => RequestView::Finished,
            Request::Failed(error) => RequestView::Failed(error@),
        }
    }
}

/// What the driver found when it performed a request.
#[derive(Debug, Clone, PartialEq, Eq)]
pub enum Reply {
    /// The file was read: its canonical path and its text.
    Loaded { canonical: String, source: String },
    /// The path exists: its canonical form.
    Resolved { canonical: String },
    /// The file could not be read, or the path does not exist.
    Failed,
}

pub enum ReplyView {
    Loaded { canonical: Seq<char>, source: Seq<char> },
    Resolved { canonical: Seq<char> },
    Failed,
}

impl View for Reply {
    type V = ReplyView;

    open spec fn view(&self) -> ReplyView {
        match self {
            Reply::Loaded { canonical, source } => ReplyView::Loaded {
                canonical: canonical@,
                source: source@,
            },
            Reply::Resolved { canonical } => ReplyView::Resolved { canonical: canonical@ },
            Reply::Failed => ReplyView::Failed,
        }
    }
}

/// A reply whose text, if it had one, has been parsed.
#[derive(Debug, Clone, PartialEq, Eq)]
pub enum Event {
    /// The file was read and is a valid module.
    Parsed { canonical: String, tree: SyntaxTree },
    /// The file was read and is not a valid module.
    Unparsable { message: String },
    /// The path exists: its canonical form.
    Resolved { canonical: String },
    /// The file could not be read, or the path does not exist.
    Missing,
}

pub enum EventView {
    Parsed { canonical: Seq<char>, tree: SyntaxTreeView },
    Unparsable { message: Seq<char> },
    Resolved { canonical: Seq<char> },
    Missing,
}

impl View for Event {
    type V = EventView;

    open spec fn view(&self) -> EventView {
        match self {
            Event::Parsed { canonical, tree } => EventView::Parsed {
                canonical: canonical@,
                tree: tree@,
            },
            Event::Unparsable { message } => EventView::Unparsable { message: message@ },
            Event::Resolved { canonical } => EventView::Resolved { canonical: canonical@ },
            Event::Missing => EventView::Missing,
        }
    }
}

/// The event that a reply becomes once its text, if it has one, is parsed:
/// the tree of a valid module, or the message of the failure.
pub open spec fn event_of(reply: ReplyView) -> EventView {
    match reply {
        ReplyView::Loaded { canonical, source } => match parse_outcome(source) {
            Ok(tree) => EventView::Parsed { canonical, tree },
            Err(message) => EventView::Unparsable { message },
        },
        ReplyView::Resolved { canonical } => EventView::Resolved { canonical },
        ReplyView::Failed => EventView::Missing,
    }
}

/// A module whose references are being followed: the directory it lies in
/// and the specifiers not yet looked at.
struct Frame {
    base_dir: String,
    specifiers: Vec<String>,
    next: usize,
}

pub struct FrameView {
    pub base: Seq<char>,
    pub remaining: Seq<Seq<char>>,
}

impl View for Frame {
    type V = FrameView;

    closed spec fn view(&self) -> FrameView {
        FrameView {
            base: self.base_dir@,
            remaining: if self.next <= self.specifiers.len() {
                texts(self.specifiers@).skip(self.next as int)
            } else {
                Seq::empty()
            },
        }
    }
}

/// The state of a walk: the registry, the modules whose references are
/// being followed, innermost last, and the request that is pending.
pub struct TraversalView {
    pub registry: Seq<ModuleView>,
    pub stack: Seq<FrameView>,
    pub pending: RequestView,
}

/// The state in which a walk from `entry` begins.
pub open spec fn initial_state(registry: Seq<ModuleView>, entry: Seq<char>) -> TraversalView {
    TraversalView { registry, stack: Seq::empty(), pending: RequestView::Load { path: entry } }
}

/// The number of specifiers left in the innermost frame.
pub open spec fn innermost_remaining(stack: Seq<FrameView>) -> nat {
    if stack.len() > 0 {
        stack.last().remaining.len()
    } else {
        0
    }
}

/// Looks for the next relative specifier, innermost frame first. Package
/// specifiers are passed over and exhausted frames are dropped. Gives the
/// frames that are left and the request: to resolve the path of the
/// specifier found, or none when no frame is left.
pub open spec fn next_request(stack: Seq<FrameView>) -> (Seq<FrameView>, RequestView)
    decreases stack.len(), innermost_remaining(stack),
{
    if stack.len() == 0 {
        (stack, RequestView::Finished)
    } else {
        let frame = stack.last();
        if frame.remaining.len() == 0 {
            next_request(stack.drop_last())
        } else {
            let rest = stack.drop_last().push(
                FrameView { base: frame.base, remaining: frame.remaining.skip(1) },
            );
            match path_name_of(frame.base, frame.remaining[0]) {
                PathNameView::File(path) => (rest, RequestView::Resolve { path }),
                PathNameView::Package(_) => next_request(rest),
            }
        }
    }
}

/// The state after the work on one path is done.
pub open spec fn resumed(registry: Seq<ModuleView>, stack: Seq<FrameView>) -> TraversalView {
    TraversalView { registry, stack: next_request(stack).0, pending: next_request(stack).1 }
}

/// The state of an abandoned walk.
pub open spec fn abandoned(registry: Seq<ModuleView>, error: TraverseErrorView) -> TraversalView {
    TraversalView { registry, stack: Seq::empty(), pending: RequestView::Failed(error) }
}

/// One step of the walk. An event that does not answer the pending request
/// changes nothing.
pub open spec fn next_state(state: TraversalView, event: EventView) -> TraversalView {
    match state.pending {
        RequestView::Load { path } => match event {
            EventView::Parsed { canonical, tree } => {
                if known(state.registry, canonical) {
                    resumed(state.registry, state.stack)
                } else {
                    resumed(
                        state.registry.push(
                            ModuleView {
                                id: state.registry.len(),
                                path: canonical,
                                tree: Some(tree),
                            },
                        ),
                        state.stack.push(
                            FrameView { base: parent_of(path), remaining: references_of(tree) },
                        ),
                    )
                }
            },
            EventView::Unparsable { message } => abandoned(
                state.registry,
                TraverseErrorView::Parse { path, message },
            ),
            EventView::Missing => abandoned(
                state.registry,
                TraverseErrorView::Unreadable { path },
            ),
            EventView::Resolved { .. } => state,
        },
        RequestView::Resolve { path } => match event {
            EventView::Resolved { canonical } => {
                if known(state.registry, canonical) {
                    resumed(state.registry, state.stack)
                } else {
                    TraversalView {
                        registry: state.registry,
                        stack: state.stack,
                        pending: RequestView::Load { path: canonical },
                    }
                }
            },
            EventView::Missing => abandoned(
                state.registry,
                TraverseErrorView::Resolution { path },
            ),
            _ => state,
        },
        _ => state,
    }
}

/// No step breaks the registry: identifiers stay positions and canonical
/// paths stay pairwise distinct.
pub proof fn lemma_step_keeps_well_formed(state: TraversalView, event: EventView)
    requires
        well_formed(state.registry),
    ensures
        well_formed(next_state(state, event).registry),
{
    if let RequestView::Load { path } = state.pending {
        if let EventView::Parsed { canonical, tree } = event {
            if !known(state.registry, canonical) {
                lemma_push_well_formed(
                    state.registry,
                    ModuleView { id: state.registry.len(), path: canonical, tree: Some(tree) },
                );
            }
        }
    }
}

/// A module, once inserted, stays as it is: a step leaves the registry
/// unchanged or appends one module to it.
pub proof fn lemma_step_only_appends(state: TraversalView, event: EventView)
    ensures
        state.registry.len() <= next_state(state, event).registry.len() <= state.registry.len()
            + 1,
        next_state(state, event).registry.take(state.registry.len() as int) == state.registry,
{
    let after = next_state(state, event).registry;
    assert(after.take(state.registry.len() as int) =~= state.registry);
}

/// A package specifier is passed over: with one at the head of the
/// innermost frame, the next request is what it would be without it.
pub proof fn lemma_package_specifier_skipped(stack: Seq<FrameView>)
    requires
        stack.len() > 0,
        stack.last().remaining.len() > 0,
        !is_relative(stack.last().remaining[0]),
    ensures
        next_request(stack) == next_request(
            stack.drop_last().push(
                FrameView { base: stack.last().base, remaining: stack.last().remaining.skip(1) },
            ),
        ),
{
}

/// A module that refers to packages only asks for nothing: its frame is
/// used up without a request.
pub proof fn lemma_packages_only(stack: Seq<FrameView>)
    requires
        stack.len() > 0,
        forall|i: int|
            0 <= i < stack.last().remaining.len() ==> !is_relative(
                #[trigger] stack.last().remaining[i],
            ),
    ensures
        next_request(stack) == next_request(stack.drop_last()),
    decreases stack.last().remaining.len(),
{
    let frame = stack.last();
    if frame.remaining.len() > 0 {
        let rest = stack.drop_last().push(
            FrameView { base: frame.base, remaining: frame.remaining.skip(1) },
        );
        assert(!is_relative(frame.remaining[0]));
        assert forall|i: int| 0 <= i < rest.last().remaining.len() implies !is_relative(
            #[trigger] rest.last().remaining[i],
        ) by {
            assert(rest.last().remaining[i] == frame.remaining[i + 1]);
        }
        lemma_packages_only(rest);
        assert(rest.drop_last() =~= stack.drop_last());
    }
}

/// A walk in progress.
pub struct Traversal {
    registry: Registry,
    stack: Vec<Frame>,
    pending: Request,
}

impl View for Traversal {
    type V = TraversalView;

    closed spec fn view(&self) -> TraversalView {
        TraversalView {
            registry: self.registry@,
            stack: self.stack@.map_values(|f: Frame| f@),
            pending: self.pending@,
        }
    }
}

impl Traversal {
    /// Begins a walk at `entry_path`, adding to `registry`.
    pub fn new(entry_path: String, registry: Registry) -> (traversal: Traversal)
        ensures
            traversal@ == initial_state(registry@, entry_path@),
    {
        let traversal = Traversal {
            registry,
            stack: Vec::new(),
            pending: Request::Load { path: entry_path },
        };
        assert(traversal@.stack =~= Seq::empty());
        traversal
    }

    /// What the walk is waiting for.
    pub fn request(&self) -> (pending: &Request)
        ensures
            pending@ == self@.pending,
    {
        &self.pending
    }

    /// The modules discovered so far.
    pub fn registry(&self) -> (registry: &Registry)
        ensures
            registry@ == self@.registry,
    {
        &self.registry
    }

    /// The registry of a finished walk; nothing for a walk that is still
    /// waiting or was abandoned.
    pub fn finish(self) -> (registry: Option<Registry>)
        ensures
            match registry {
                Some(complete) => self@.pending is Finished && complete@ == self@.registry,
                None => !(self@.pending is Finished),
            },
    {
        match self.pending {
            Request::Finished => Some(self.registry),
            _ => None,
        }
    }

    fn resume(&mut self)
        ensures
            final(self)@ == resumed(old(self)@.registry, old(self)@.stack),
    {
        let ghost registry = self@.registry;
        let ghost target = next_request(self@.stack);
        let mut searching = true;
        while searching
            invariant
                self@.registry == registry,
                searching ==> next_request(self@.stack) == target,
                !searching ==> (self@.stack, self@.pending) == target,
            decreases self@.stack.len(), innermost_remaining(self@.stack), (if searching { 1nat } else { 0nat }),
        {
            let ghost before = self@.stack;
            match self.stack.pop() {
                None => {
                    self.pending = Request::Finished;
                    searching = false;
                    assert(self@.stack =~= before);
                },
                Some(frame) => {
                    assert(frame@ == before.last());
                    assert(self@.stack =~= before.drop_last());
                    if frame.next < frame.specifiers.len() {
                        let specifier = frame.specifiers[frame.next].clone();
                        let base = frame.base_dir.clone();
                        let advanced = Frame {
                            base_dir: frame.base_dir,
                            specifiers: frame.specifiers,
                            next: frame.next + 1,
                        };
                        proof {
                            let all = texts(frame.specifiers@);
                            assert(frame@.remaining[0] == specifier@);
                            assert(advanced@.remaining =~= frame@.remaining.skip(1));
                        }
                        self.stack.push(advanced);
                        assert(self@.stack =~= before.drop_last().push(advanced@));
                        match get_path_name(base, specifier) {
                            PathName::File(path) => {
                                self.pending = Request::Resolve { path };
                                searching = false;
                            },
                            PathName::Package(_) => {},
                        }
                    }
                },
            }
        }
    }

    fn abandon(&mut self, error: TraverseError)
        ensures
            final(self)@ == abandoned(old(self)@.registry, error@),
    {
        self.stack = Vec::new();
        self.pending = Request::Failed(error);
        assert(self@.stack =~= Seq::empty());
    }

    fn load_path(&self) -> (path: Option<String>)
        ensures
            match path {
                Some(p) => self@.pending == (RequestView::Load { path: p@ }),
                None => !(self@.pending is Load),
            },
    {
        match &self.pending {
            Request::Load { path } => Some(path.clone()),
            _ => None,
        }
    }

    fn resolve_path(&self) -> (path: Option<String>)
        ensures
            match path {
                Some(p) => self@.pending == (RequestView::Resolve { path: p@ }),
                None => !(self@.pending is Resolve),
            },
    {
        match &self.pending {
            Request::Resolve { path } => Some(path.clone()),
            _ => None,
        }
    }

    /// Moves the walk on by one event. A well-formed registry stays well
    /// formed.
    pub fn advance(&mut self, event: Event)
        ensures
            final(self)@ == next_state(old(self)@, event@),
            well_formed(old(self)@.registry) ==> well_formed(final(self)@.registry),
    {
        match event {
            Event::Parsed { canonical, tree } => {
                if let Some(path) = self.load_path() {
                    if !self.registry.contains(canonical.as_str()) {
                        let specifiers = extract(&tree);
                        let base_dir = parent_directory(path.as_str());
                        let module = Module {
                            id: self.registry.next_id(),
                            path_name: canonical,
                            ast: Some(tree),
                        };
                        let ghost stack = self@.stack;
                        let frame = Frame { base_dir, specifiers, next: 0 };
                        assert(frame@.remaining =~= references_of(tree@));
                        self.registry.insert(module);
                        self.stack.push(frame);
                        assert(self@.stack =~= stack.push(frame@));
                    }
                    self.resume();
                }
            },
            Event::Unparsable { message } => {
                if let Some(path) = self.load_path() {
                    self.abandon(TraverseError::Parse { path, message });
                }
            },
            Event::Resolved { canonical } => {
                if self.resolve_path().is_some() {
                    if self.registry.contains(canonical.as_str()) {
                        self.resume();
                    } else {
                        self.pending = Request::Load { path: canonical };
                    }
                }
            },
            Event::Missing => {
                if let Some(path) = self.load_path() {
                    self.abandon(TraverseError::Unreadable { path });
                } else if let Some(path) = self.resolve_path() {
                    self.abandon(TraverseError::Resolution { path });
                }
            },
        }
    }

    /// Moves the walk on by one reply of the driver. The text of a file that
    /// was loaded is parsed first: a text that is not a valid module abandons
    /// the walk, and the tree of a valid one is registered and its references
    /// followed, as [`Traversal::advance`] says for the event that the reply
    /// becomes. A well-formed registry stays well formed.
    pub fn step(&mut self, reply: Reply)
        ensures
            final(self)@ == next_state(old(self)@, event_of(reply@)),
            well_formed(old(self)@.registry) ==> well_formed(final(self)@.registry),
    {
        let event = match reply {
            Reply::Loaded { canonical, source } => match parse(source.as_str()) {
                Ok(tree) => Event::Parsed { canonical, tree },
                Err(error) => Event::Unparsable { message: error.message },
            },
            Reply::Resolved { canonical } => Event::Resolved { canonical },
            Reply::Failed => Event::Missing,
        };
        assert(event@ == event_of(reply@));
        self.advance(event);
    }
}

} // verus!
