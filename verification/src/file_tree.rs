//! What a walk computes over a fixed tree of files.
//!
//! A [`FileTree`] is a picture of the file system as the walk meets it:
//! which paths exist, what their canonical form is, and what each file
//! parses to. A walk that is always told what the tree holds is a sequence
//! of states fixed by the tree and the entry path, and when it finishes its
//! registry holds exactly the modules that can be reached from the entry.
//!
//! [`SourceFiles`] are the same files with their texts, as a driver reads
//! them. A step on the reply that a driver finds there is a step over the
//! tree that the texts parse to, so that all that is said of walks over a
//! tree holds of the walk that a driver runs.

use crate::module::ModuleView;
use crate::parser::parse_outcome;
use crate::registry::{known, lemma_paths_distinct, lemma_push_well_formed, paths, well_formed};
use crate::specifier::{parent_of, path_name_of, PathNameView};
use crate::syntax::{references_of, SyntaxTreeView};
use crate::traversal::{
    event_of,
    initial_state,
    innermost_remaining,
    lemma_step_keeps_well_formed,
    next_request,
    next_state,
    resumed,
    EventView,
    FrameView,
    ReplyView,
    RequestView,
    TraversalView,
};
use vstd::prelude::*;

verus! {

/// The files a walk can meet.
pub struct FileTree {
    /// The canonical form of every path that exists.
    pub canonical: Map<Seq<char>, Seq<char>>,
    /// For the canonical path of every file that can be read, what its text
    /// parses to: a tree, or the message of a syntax error.
    pub parsed: Map<Seq<char>, Result<SyntaxTreeView, Seq<char>>>,
}

impl FileTree {
    /// Canonical paths exist and are their own canonical form.
    pub open spec fn consistent(self) -> bool {
        forall|path: Seq<char>| #[trigger]
            self.canonical.dom().contains(path) ==> self.canonical.dom().contains(
                self.canonical[path],
            ) && self.canonical[self.canonical[path]] == self.canonical[path]
    }

    /// The canonical form of `path`, if it exists.
    pub open spec fn resolve(self, path: Seq<char>) -> Option<Seq<char>> {
        if self.canonical.dom().contains(path) {
            Some(self.canonical[path])
        } else {
            None
        }
    }

    /// What the driver finds when it performs `request` on these files.
    pub open spec fn found(self, request: RequestView) -> EventView {
        match request {
            RequestView::Load { path } => match self.resolve(path) {
                Some(canonical) => if self.parsed.dom().contains(canonical) {
                    match self.parsed[canonical] {
                        Ok(tree) => EventView::Parsed { canonical, tree },
                        Err(message) => EventView::Unparsable { message },
                    }
                } else {
                    EventView::Missing
                },
                None => EventView::Missing,
            },
            RequestView::Resolve { path } => match self.resolve(path) {
                Some(canonical) => EventView::Resolved { canonical },
                None => EventView::Missing,
            },
            _ => EventView::Missing,
        }
    }

    /// The state that follows `state` when its request is performed on
    /// these files. A finished or abandoned walk stays as it is.
    pub open spec fn served(self, state: TraversalView) -> TraversalView {
        next_state(state, self.found(state.pending))
    }

    /// Whether each state of `walk` but the first follows from the one
    /// before it by performing its request on these files.
    pub open spec fn follows(self, walk: Seq<TraversalView>) -> bool {
        forall|i: int| 0 <= i < walk.len() - 1 ==> #[trigger] walk[i + 1] == self.served(walk[i])
    }

    /// The module that `specifier` leads to from directory `base`: the
    /// canonical form of its path, if the specifier is relative and the path
    /// exists.
    pub open spec fn target(self, base: Seq<char>, specifier: Seq<char>) -> Option<Seq<char>> {
        match path_name_of(base, specifier) {
            PathNameView::File(path) => self.resolve(path),
            PathNameView::Package(_) => None,
        }
    }

    /// Whether one of the specifiers left in `frame` leads to `module`.
    pub open spec fn frame_leads_to(self, frame: FrameView, module: Seq<char>) -> bool {
        exists|j: int|
            0 <= j < frame.remaining.len() && #[trigger] self.target(
                frame.base,
                frame.remaining[j],
            ) == Some(module)
    }

    /// Whether a specifier left in one of the frames leads to `module`.
    pub open spec fn stack_leads_to(self, stack: Seq<FrameView>, module: Seq<char>) -> bool {
        exists|k: int| 0 <= k < stack.len() && #[trigger] self.frame_leads_to(stack[k], module)
    }

    /// The module that the pending request is about, if its path exists.
    pub open spec fn pending_target(self, pending: RequestView) -> Option<Seq<char>> {
        match pending {
            RequestView::Load { path } => self.resolve(path),
            RequestView::Resolve { path } => self.resolve(path),
            _ => None,
        }
    }

    /// Whether the walk still has `module` before it: a frame or the
    /// pending request leads to it.
    pub open spec fn awaited(self, state: TraversalView, module: Seq<char>) -> bool {
        self.stack_leads_to(state.stack, module) || self.pending_target(state.pending) == Some(
            module,
        )
    }

    /// The directory against which the references of `module` are resolved:
    /// that of the entry path as it was given, for the entry module, and
    /// that of the canonical path for every other module.
    pub open spec fn base_of(self, entry: Seq<char>, module: Seq<char>) -> Seq<char> {
        if self.resolve(entry) == Some(module) {
            parent_of(entry)
        } else {
            parent_of(module)
        }
    }

    /// The references of a module with canonical path `module` and syntax
    /// tree `tree`, as a frame.
    pub open spec fn references(
        self,
        entry: Seq<char>,
        module: Seq<char>,
        tree: SyntaxTreeView,
    ) -> FrameView {
        FrameView { base: self.base_of(entry, module), remaining: references_of(tree) }
    }

    /// Whether module `from` is a valid module with a relative reference
    /// that leads to module `to`.
    pub open spec fn refers(self, entry: Seq<char>, from: Seq<char>, to: Seq<char>) -> bool {
        self.parsed.dom().contains(from) && match self.parsed[from] {
            Ok(tree) => self.frame_leads_to(self.references(entry, from, tree), to),
            Err(_) => false,
        }
    }

    /// Whether `route` begins at the entry module and goes on from each
    /// module to one it refers to.
    pub open spec fn is_route(self, entry: Seq<char>, route: Seq<Seq<char>>) -> bool {
        &&& route.len() > 0
        &&& self.resolve(entry) == Some(route[0])
        &&& forall|i: int|
            0 <= i < route.len() - 1 ==> self.refers(entry, #[trigger] route[i], route[i + 1])
    }

    /// Whether `module` can be reached from the entry.
    pub open spec fn reachable(self, entry: Seq<char>, module: Seq<char>) -> bool {
        exists|route: Seq<Seq<char>>| #[trigger] self.is_route(entry, route) && route.last() == module
    }

    /// Every module in `registry` can be reached from the entry and holds
    /// the tree that its file parses to.
    pub open spec fn registered_soundly(self, entry: Seq<char>, registry: Seq<ModuleView>) -> bool {
        forall|i: int|
            0 <= i < registry.len() ==> {
                let module = #[trigger] registry[i];
                &&& self.reachable(entry, module.path)
                &&& self.parsed.dom().contains(module.path)
                &&& module.tree is Some
                &&& self.parsed[module.path] == Ok::<SyntaxTreeView, Seq<char>>(module.tree->0)
            }
    }

    /// Whether a reference of `module` leads to `to`.
    pub open spec fn module_leads_to(self, entry: Seq<char>, module: ModuleView, to: Seq<char>) -> bool {
        module.tree is Some && self.frame_leads_to(
            self.references(entry, module.path, module.tree->0),
            to,
        )
    }

    /// Every module that a registered module refers to is registered too or
    /// still before the walk.
    pub open spec fn closed_so_far(self, entry: Seq<char>, state: TraversalView) -> bool {
        forall|i: int, to: Seq<char>|
            0 <= i < state.registry.len() && #[trigger] self.module_leads_to(
                entry,
                state.registry[i],
                to,
            ) ==> known(state.registry, to) || self.awaited(state, to)
    }

    /// What holds of every state of a walk over consistent files that began
    /// with an empty registry, unless the walk was abandoned.
    pub open spec fn sound(self, entry: Seq<char>, state: TraversalView) -> bool {
        state.pending is Failed || {
            &&& well_formed(state.registry)
            &&& state == initial_state(Seq::empty(), entry) || (state.registry.len() > 0
                && self.resolve(entry) == Some(state.registry[0].path))
            &&& self.registered_soundly(entry, state.registry)
            &&& forall|to: Seq<char>| #[trigger] self.awaited(state, to) ==> self.reachable(entry, to)
            &&& self.closed_so_far(entry, state)
            &&& state.pending matches RequestView::Load { path } ==> state.registry.len() > 0
                ==> self.resolve(path) == Some(path)
            &&& state.pending is Finished ==> state.stack.len() == 0
        }
    }

    /// The canonical paths that are not in `registry`.
    pub open spec fn unregistered(self, registry: Seq<ModuleView>) -> Set<Seq<char>> {
        self.canonical.values().filter(|path: Seq<char>| !known(registry, path))
    }

    /// The state of a walk from `entry`, begun with an empty registry, after
    /// `steps` requests have been performed on these files.
    pub open spec fn state_after(self, entry: Seq<char>, steps: nat) -> TraversalView
        decreases steps,
    {
        if steps == 0 {
            initial_state(Seq::empty(), entry)
        } else {
            self.served(self.state_after(entry, (steps - 1) as nat))
        }
    }
}

/// The files a driver reads.
pub struct SourceFiles {
    /// The canonical form of every path that exists.
    pub canonical: Map<Seq<char>, Seq<char>>,
    /// The text of every file that can be read, under its canonical path.
    pub texts: Map<Seq<char>, Seq<char>>,
}

impl SourceFiles {
    /// What a driver replies when it performs `request` on these files: it
    /// canonicalizes the path and, to load, reads the file found there.
    pub open spec fn reply(self, request: RequestView) -> ReplyView {
        match request {
            RequestView::Load { path } => if self.canonical.dom().contains(path)
                && self.texts.dom().contains(self.canonical[path]) {
                ReplyView::Loaded {
                    canonical: self.canonical[path],
                    source: self.texts[self.canonical[path]],
                }
            } else {
                ReplyView::Failed
            },
            RequestView::Resolve { path } => if self.canonical.dom().contains(path) {
                ReplyView::Resolved { canonical: self.canonical[path] }
            } else {
                ReplyView::Failed
            },
            _ => ReplyView::Failed,
        }
    }

    /// The tree of files that these texts parse to.
    pub open spec fn file_tree(self) -> FileTree {
        FileTree {
            canonical: self.canonical,
            parsed: Map::new(
                |path: Seq<char>| self.texts.dom().contains(path),
                |path: Seq<char>| parse_outcome(self.texts[path]),
            ),
        }
    }
}

/// The reply that a driver finds in the files becomes the event that the
/// tree of these files holds for the request.
pub proof fn lemma_reply_is_found(sources: SourceFiles, request: RequestView)
    ensures
        event_of(sources.reply(request)) == sources.file_tree().found(request),
{
}

/// A step on the reply that a driver finds in the files is a step over the
/// tree that their texts parse to. The state after it is fixed by the state
/// before it and the files: repeated runs over the same files agree step by
/// step.
pub proof fn lemma_step_is_served(sources: SourceFiles, state: TraversalView)
    ensures
        next_state(state, event_of(sources.reply(state.pending))) == sources.file_tree().served(
            state,
        ),
{
    lemma_reply_is_found(sources, state.pending);
}

/// Determinism: two walks over the same files that begin in the same state
/// are in the same state after the same number of steps. In particular they
/// hold the same modules under the same identifiers.
pub proof fn lemma_walks_agree(
    files: FileTree,
    first: Seq<TraversalView>,
    second: Seq<TraversalView>,
    step: int,
)
    requires
        files.follows(first),
        files.follows(second),
        0 <= step < first.len(),
        step < second.len(),
        first[0] == second[0],
    ensures
        first[step] == second[step],
    decreases step,
{
    if step > 0 {
        lemma_walks_agree(files, first, second, step - 1);
        assert(first[(step - 1) + 1] == files.served(first[step - 1]));
        assert(second[(step - 1) + 1] == files.served(second[step - 1]));
    }
}

/// The registry of a walk over files is well formed at every step.
pub proof fn lemma_walk_well_formed(files: FileTree, entry: Seq<char>, steps: nat)
    ensures
        well_formed(files.state_after(entry, steps).registry),
    decreases steps,
{
    if steps > 0 {
        let before = files.state_after(entry, (steps - 1) as nat);
        lemma_walk_well_formed(files, entry, (steps - 1) as nat);
        lemma_step_keeps_well_formed(before, files.found(before.pending));
    }
}

/// Whether a walk has come to its end, finished or abandoned.
pub open spec fn ended(state: TraversalView) -> bool {
    state.pending is Finished || state.pending is Failed
}

/// The work that the frames still hold: one for each frame and one for each
/// specifier left in it.
pub open spec fn work(stack: Seq<FrameView>) -> nat
    decreases stack.len(),
{
    if stack.len() == 0 {
        0
    } else {
        work(stack.drop_last()) + stack.last().remaining.len() + 1
    }
}

/// A request to resolve comes before the request to load that may follow it.
pub open spec fn rank(pending: RequestView) -> nat {
    if pending is Resolve {
        1
    } else {
        0
    }
}

/// Finding a specifier to resolve uses up work.
proof fn lemma_next_request_works(stack: Seq<FrameView>)
    ensures
        next_request(stack).1 is Finished || next_request(stack).1 is Resolve,
        next_request(stack).1 is Resolve ==> work(next_request(stack).0) < work(stack),
    decreases stack.len(), innermost_remaining(stack),
{
    if stack.len() > 0 {
        let frame = stack.last();
        let below = stack.drop_last();
        if frame.remaining.len() == 0 {
            lemma_next_request_works(below);
        } else {
            let shorter = FrameView { base: frame.base, remaining: frame.remaining.skip(1) };
            let rest = below.push(shorter);
            assert(rest.drop_last() =~= below);
            assert(work(rest) == work(stack) - 1);
            match path_name_of(frame.base, frame.remaining[0]) {
                PathNameView::File(path) => {},
                PathNameView::Package(_) => {
                    lemma_next_request_works(rest);
                },
            }
        }
    }
}

/// A step that does not end the walk brings it closer to its end: it
/// registers a canonical path that was not registered, or else uses up work
/// of the frames, or else turns a request to resolve into one to load.
proof fn lemma_step_progresses(files: FileTree, state: TraversalView)
    requires
        files.canonical.values().finite(),
        !ended(files.served(state)),
    ensures
        files.unregistered(files.served(state).registry).len() < files.unregistered(
            state.registry,
        ).len() || (files.unregistered(files.served(state).registry) == files.unregistered(
            state.registry,
        ) && (work(files.served(state).stack) < work(state.stack) || (work(
            files.served(state).stack,
        ) == work(state.stack) && rank(files.served(state).pending) < rank(state.pending)))),
{
    let after = files.served(state);
    let registry = state.registry;
    lemma_next_request_works(state.stack);
    match state.pending {
        RequestView::Load { path } => {
            if let EventView::Parsed { canonical, tree } = files.found(state.pending) {
                if !known(registry, canonical) {
                    let module = ModuleView { id: registry.len(), path: canonical, tree: Some(tree) };
                    let longer = registry.push(module);
                    assert(after.registry == longer);
                    let before = files.unregistered(registry);
                    assert(files.canonical.dom().contains(path));
                    assert(files.canonical.values().contains(canonical));
                    assert(before.contains(canonical));
                    assert(longer[registry.len() as int].path == canonical);
                    assert forall|other: Seq<char>|
                        files.unregistered(longer).contains(other) <==> before.remove(
                            canonical,
                        ).contains(other) by {
                        if known(registry, other) {
                            let k = choose|k: int|
                                0 <= k < registry.len() && (#[trigger] registry[k]).path == other;
                            assert(longer[k].path == other);
                        }
                        if known(longer, other) && other != canonical {
                            let k = choose|k: int|
                                0 <= k < longer.len() && (#[trigger] longer[k]).path == other;
                            assert(registry[k].path == other);
                        }
                    }
                    assert(files.unregistered(longer) =~= before.remove(canonical));
                }
            }
        },
        RequestView::Resolve { path } => {},
        _ => {},
    }
}

/// A frame leads where its first specifier leads or where the frame without
/// it leads.
proof fn lemma_frame_split(files: FileTree, frame: FrameView, to: Seq<char>)
    requires
        frame.remaining.len() > 0,
    ensures
        files.frame_leads_to(frame, to) <==> (files.target(frame.base, frame.remaining[0]) == Some(
            to,
        ) || files.frame_leads_to(
            FrameView { base: frame.base, remaining: frame.remaining.skip(1) },
            to,
        )),
{
    let shorter = FrameView { base: frame.base, remaining: frame.remaining.skip(1) };
    if files.frame_leads_to(frame, to) {
        let j = choose|j: int|
            0 <= j < frame.remaining.len() && #[trigger] files.target(
                frame.base,
                frame.remaining[j],
            ) == Some(to);
        if j > 0 {
            assert(shorter.remaining[j - 1] == frame.remaining[j]);
            assert(files.target(shorter.base, shorter.remaining[j - 1]) == Some(to));
        }
    }
    if files.frame_leads_to(shorter, to) {
        let j = choose|j: int|
            0 <= j < shorter.remaining.len() && #[trigger] files.target(
                shorter.base,
                shorter.remaining[j],
            ) == Some(to);
        assert(shorter.remaining[j] == frame.remaining[j + 1]);
        assert(files.target(frame.base, frame.remaining[j + 1]) == Some(to));
    }
    if files.target(frame.base, frame.remaining[0]) == Some(to) {
        assert(files.frame_leads_to(frame, to));
    }
}

/// A stack with one more frame leads where the stack led or where the new
/// frame leads.
proof fn lemma_stack_push(files: FileTree, stack: Seq<FrameView>, frame: FrameView, to: Seq<char>)
    ensures
        files.stack_leads_to(stack.push(frame), to) <==> (files.stack_leads_to(stack, to)
            || files.frame_leads_to(frame, to)),
{
    let longer = stack.push(frame);
    if files.stack_leads_to(longer, to) {
        let k = choose|k: int| 0 <= k < longer.len() && #[trigger] files.frame_leads_to(longer[k], to);
        if k < stack.len() {
            assert(longer[k] == stack[k]);
            assert(files.frame_leads_to(stack[k], to));
        }
    }
    if files.stack_leads_to(stack, to) {
        let k = choose|k: int| 0 <= k < stack.len() && #[trigger] files.frame_leads_to(stack[k], to);
        assert(longer[k] == stack[k]);
        assert(files.frame_leads_to(longer[k], to));
    }
    if files.frame_leads_to(frame, to) {
        assert(longer[stack.len() as int] == frame);
        assert(files.frame_leads_to(longer[stack.len() as int], to));
    }
}

/// Looking for the next request loses no module and invents none: what the
/// frames led to before is what the frames left and the request lead to.
proof fn lemma_next_request_keeps_targets(files: FileTree, stack: Seq<FrameView>, to: Seq<char>)
    ensures
        next_request(stack).1 is Finished || next_request(stack).1 is Resolve,
        next_request(stack).1 is Finished ==> next_request(stack).0.len() == 0,
        files.stack_leads_to(stack, to) <==> (files.stack_leads_to(next_request(stack).0, to)
            || files.pending_target(next_request(stack).1) == Some(to)),
    decreases stack.len(), innermost_remaining(stack),
{
    if stack.len() > 0 {
        let frame = stack.last();
        let below = stack.drop_last();
        assert(stack =~= below.push(frame));
        lemma_stack_push(files, below, frame, to);
        if frame.remaining.len() == 0 {
            assert(next_request(stack) == next_request(below));
            assert(!files.frame_leads_to(frame, to));
            lemma_next_request_keeps_targets(files, below, to);
        } else {
            let shorter = FrameView { base: frame.base, remaining: frame.remaining.skip(1) };
            let rest = below.push(shorter);
            assert(rest.drop_last() =~= below);
            lemma_stack_push(files, below, shorter, to);
            lemma_frame_split(files, frame, to);
            match path_name_of(frame.base, frame.remaining[0]) {
                PathNameView::File(path) => {
                    assert(next_request(stack) == (rest, RequestView::Resolve { path }));
                },
                PathNameView::Package(_) => {
                    assert(next_request(stack) == next_request(rest));
                    lemma_next_request_keeps_targets(files, rest, to);
                },
            }
        }
    }
}

/// A module that a reachable module refers to is reachable.
proof fn lemma_route_extends(files: FileTree, entry: Seq<char>, from: Seq<char>, to: Seq<char>)
    requires
        files.reachable(entry, from),
        files.refers(entry, from, to),
    ensures
        files.reachable(entry, to),
{
    let route = choose|route: Seq<Seq<char>>| #[trigger]
        files.is_route(entry, route) && route.last() == from;
    let longer = route.push(to);
    assert forall|i: int| 0 <= i < longer.len() - 1 implies files.refers(
        entry,
        #[trigger] longer[i],
        longer[i + 1],
    ) by {
        if i < route.len() - 1 {
            assert(longer[i] == route[i]);
            assert(longer[i + 1] == route[i + 1]);
            assert(files.refers(entry, route[i], route[i + 1]));
        }
    }
    assert(files.is_route(entry, longer));
    assert(longer.last() == to);
}

/// Soundness is established when the work on one path is done and the
/// walk resumes.
proof fn lemma_resumed_sound(
    files: FileTree,
    entry: Seq<char>,
    registry: Seq<ModuleView>,
    stack: Seq<FrameView>,
)
    requires
        well_formed(registry),
        registry.len() > 0,
        files.resolve(entry) == Some(registry[0].path),
        files.registered_soundly(entry, registry),
        forall|to: Seq<char>| #[trigger] files.stack_leads_to(stack, to) ==> files.reachable(entry, to),
        forall|i: int, to: Seq<char>|
            0 <= i < registry.len() && #[trigger] files.module_leads_to(entry, registry[i], to)
                ==> known(registry, to) || files.stack_leads_to(stack, to),
    ensures
        files.sound(entry, resumed(registry, stack)),
{
    let after = resumed(registry, stack);
    lemma_next_request_keeps_targets(files, stack, entry);
    assert forall|to: Seq<char>| #[trigger] files.awaited(after, to) implies files.reachable(
        entry,
        to,
    ) by {
        lemma_next_request_keeps_targets(files, stack, to);
        assert(files.stack_leads_to(stack, to));
    }
    assert forall|i: int, to: Seq<char>|
        0 <= i < after.registry.len() && #[trigger] files.module_leads_to(
            entry,
            after.registry[i],
            to,
        ) implies known(after.registry, to) || files.awaited(after, to) by {
        if !known(registry, to) {
            assert(files.stack_leads_to(stack, to));
            lemma_next_request_keeps_targets(files, stack, to);
        }
    }
}

/// Soundness carries over from each state to the next.
pub proof fn lemma_served_sound(files: FileTree, entry: Seq<char>, state: TraversalView)
    requires
        files.consistent(),
        files.sound(entry, state),
    ensures
        files.sound(entry, files.served(state)),
{
    let after = files.served(state);
    let registry = state.registry;
    let stack = state.stack;
    if state.pending is Failed {
        return ;
    }
    match state.pending {
        RequestView::Load { path } => {
            if let EventView::Parsed { canonical, tree } = files.found(state.pending) {
                assert(files.resolve(path) == Some(canonical));
                assert(files.awaited(state, canonical));
                if known(registry, canonical) {
                    assert forall|i: int, to: Seq<char>|
                        0 <= i < registry.len() && #[trigger] files.module_leads_to(
                            entry,
                            registry[i],
                            to,
                        ) implies known(registry, to) || files.stack_leads_to(stack, to) by {
                        assert(known(registry, to) || files.awaited(state, to));
                    }
                    assert forall|to: Seq<char>| #[trigger]
                        files.stack_leads_to(stack, to) implies files.reachable(entry, to) by {
                        assert(files.awaited(state, to));
                    }
                    lemma_resumed_sound(files, entry, registry, stack);
                } else {
                    let module = ModuleView { id: registry.len(), path: canonical, tree: Some(tree) };
                    let frame = FrameView { base: parent_of(path), remaining: references_of(tree) };
                    let longer = registry.push(module);
                    let deeper = stack.push(frame);
                    lemma_push_well_formed(registry, module);
                    if registry.len() > 0 {
                        assert(known(registry, registry[0].path));
                        assert(files.resolve(path) == Some(path));
                    }
                    assert(frame == files.references(entry, canonical, tree));
                    assert forall|i: int| 0 <= i < longer.len() implies {
                        let m = #[trigger] longer[i];
                        &&& files.reachable(entry, m.path)
                        &&& files.parsed.dom().contains(m.path)
                        &&& m.tree is Some
                        &&& files.parsed[m.path] == Ok::<SyntaxTreeView, Seq<char>>(m.tree->0)
                    } by {
                        if i < registry.len() {
                            assert(longer[i] == registry[i]);
                        }
                    }
                    assert forall|to: Seq<char>| #[trigger]
                        files.stack_leads_to(deeper, to) implies files.reachable(entry, to) by {
                        lemma_stack_push(files, stack, frame, to);
                        if files.stack_leads_to(stack, to) {
                            assert(files.awaited(state, to));
                        } else {
                            assert(files.refers(entry, canonical, to));
                            lemma_route_extends(files, entry, canonical, to);
                        }
                    }
                    assert forall|i: int, to: Seq<char>|
                        0 <= i < longer.len() && #[trigger] files.module_leads_to(
                            entry,
                            longer[i],
                            to,
                        ) implies known(longer, to) || files.stack_leads_to(deeper, to) by {
                        lemma_stack_push(files, stack, frame, to);
                        if i < registry.len() {
                            assert(longer[i] == registry[i]);
                            assert(known(registry, to) || files.awaited(state, to));
                            if known(registry, to) {
                                let k = choose|k: int|
                                    0 <= k < registry.len() && (#[trigger] registry[k]).path == to;
                                assert(longer[k].path == to);
                            } else if !files.stack_leads_to(stack, to) {
                                assert(to == canonical);
                                assert(longer[registry.len() as int].path == to);
                            }
                        }
                    }
                    lemma_resumed_sound(files, entry, longer, deeper);
                }
            }
        },
        RequestView::Resolve { path } => {
            if let EventView::Resolved { canonical } = files.found(state.pending) {
                assert(files.resolve(path) == Some(canonical));
                assert(files.awaited(state, canonical));
                assert(files.canonical.dom().contains(path));
                assert(files.resolve(canonical) == Some(canonical));
                if known(registry, canonical) {
                    assert forall|i: int, to: Seq<char>|
                        0 <= i < registry.len() && #[trigger] files.module_leads_to(
                            entry,
                            registry[i],
                            to,
                        ) implies known(registry, to) || files.stack_leads_to(stack, to) by {
                        assert(known(registry, to) || files.awaited(state, to));
                    }
                    assert forall|to: Seq<char>| #[trigger]
                        files.stack_leads_to(stack, to) implies files.reachable(entry, to) by {
                        assert(files.awaited(state, to));
                    }
                    lemma_resumed_sound(files, entry, registry, stack);
                } else {
                    assert forall|to: Seq<char>| #[trigger]
                        files.awaited(after, to) implies files.reachable(entry, to) by {
                        assert(files.awaited(state, to));
                    }
                    assert forall|i: int, to: Seq<char>|
                        0 <= i < after.registry.len() && #[trigger] files.module_leads_to(
                            entry,
                            after.registry[i],
                            to,
                        ) implies known(after.registry, to) || files.awaited(after, to) by {
                        assert(known(registry, to) || files.awaited(state, to));
                    }
                }
            }
        },
        _ => {},
    }
}

/// Every state of a walk over consistent files is sound.
pub proof fn lemma_walk_sound(files: FileTree, entry: Seq<char>, steps: nat)
    requires
        files.consistent(),
    ensures
        files.sound(entry, files.state_after(entry, steps)),
    decreases steps,
{
    if steps == 0 {
        let state = initial_state(Seq::empty(), entry);
        assert forall|to: Seq<char>| #[trigger] files.awaited(state, to) implies files.reachable(
            entry,
            to,
        ) by {
            let route = seq![to];
            assert(files.is_route(entry, route));
            assert(route.last() == to);
        }
    } else {
        lemma_walk_sound(files, entry, (steps - 1) as nat);
        lemma_served_sound(files, entry, files.state_after(entry, (steps - 1) as nat));
    }
}

/// From any step on, a walk over files with finitely many canonical paths
/// comes to its end.
proof fn lemma_walk_ends_from(files: FileTree, entry: Seq<char>, from: nat) -> (steps: nat)
    requires
        files.canonical.values().finite(),
    ensures
        from <= steps,
        ended(files.state_after(entry, steps)),
    decreases
        files.unregistered(files.state_after(entry, from).registry).len(),
        work(files.state_after(entry, from).stack),
        rank(files.state_after(entry, from).pending),
        (if ended(files.state_after(entry, from)) { 0nat } else { 1nat }),
{
    let state = files.state_after(entry, from);
    if ended(state) {
        from
    } else {
        let next = files.state_after(entry, from + 1);
        assert(next == files.served(state));
        if ended(next) {
            from + 1
        } else {
            lemma_step_progresses(files, state);
            lemma_walk_ends_from(files, entry, from + 1)
        }
    }
}

/// Termination: a walk over files with finitely many canonical paths comes
/// to its end, finished or abandoned, whatever cycles the references form.
pub proof fn lemma_walk_ends(files: FileTree, entry: Seq<char>)
    requires
        files.canonical.values().finite(),
    ensures
        exists|steps: nat| ended(#[trigger] files.state_after(entry, steps)),
{
    let steps = lemma_walk_ends_from(files, entry, 0);
    assert(ended(files.state_after(entry, steps)));
}

/// In a finished walk every module on a route from the entry is registered.
proof fn lemma_route_registered(
    files: FileTree,
    entry: Seq<char>,
    state: TraversalView,
    route: Seq<Seq<char>>,
    at: int,
)
    requires
        files.sound(entry, state),
        state.pending is Finished,
        files.is_route(entry, route),
        0 <= at < route.len(),
    ensures
        known(state.registry, route[at]),
    decreases at,
{
    let registry = state.registry;
    if at == 0 {
        assert(registry[0].path == route[0]);
    } else {
        lemma_route_registered(files, entry, state, route, at - 1);
        let from = route[at - 1];
        let to = route[at];
        assert(files.refers(entry, route[at - 1], route[(at - 1) + 1]));
        let k = choose|k: int| 0 <= k < registry.len() && (#[trigger] registry[k]).path == from;
        assert(files.module_leads_to(entry, registry[k], to));
        assert(known(registry, to) || files.awaited(state, to));
        if files.stack_leads_to(state.stack, to) {
            let f = choose|f: int|
                0 <= f < state.stack.len() && #[trigger] files.frame_leads_to(state.stack[f], to);
        }
    }
}

/// Exactness: when a walk over consistent files, begun with an empty
/// registry, has finished, a module is registered if and only if it can be
/// reached from the entry. Canonical paths being pairwise distinct, the
/// registry has as many modules as there are reachable files, however many
/// specifiers lead to each of them.
pub proof fn lemma_finished_walk_is_exact(files: FileTree, entry: Seq<char>, steps: nat)
    requires
        files.consistent(),
        files.state_after(entry, steps).pending is Finished,
    ensures
        well_formed(files.state_after(entry, steps).registry),
        forall|module: Seq<char>|
            known(files.state_after(entry, steps).registry, module) <==> #[trigger] files.reachable(
                entry,
                module,
            ),
        paths(files.state_after(entry, steps).registry).to_set() == Set::new(
            |module: Seq<char>| files.reachable(entry, module),
        ),
        Set::new(|module: Seq<char>| files.reachable(entry, module)).len() == files.state_after(
            entry,
            steps,
        ).registry.len(),
{
    let state = files.state_after(entry, steps);
    let registry = state.registry;
    lemma_walk_sound(files, entry, steps);
    assert forall|module: Seq<char>| known(registry, module) <==> #[trigger] files.reachable(
        entry,
        module,
    ) by {
        if known(registry, module) {
            let k = choose|k: int| 0 <= k < registry.len() && (#[trigger] registry[k]).path == module;
            assert(files.reachable(entry, registry[k].path));
        }
        if files.reachable(entry, module) {
            let route = choose|route: Seq<Seq<char>>| #[trigger]
                files.is_route(entry, route) && route.last() == module;
            lemma_route_registered(files, entry, state, route, route.len() - 1);
        }
    }
    lemma_paths_distinct(registry);
    assert(paths(registry).to_set() =~= Set::new(
        |module: Seq<char>| files.reachable(entry, module),
    ));
}

} // verus!
