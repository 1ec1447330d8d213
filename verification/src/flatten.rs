//! Turning a nested attachment tree into a flat list of files.
//!
//! The walk is breadth-first over a queue of discovered entries. A file
//! leaves the queue for the output; a directory leaves it to be expanded,
//! which is the caller's work: make the local directory, list the remote
//! one, and hand the children back. A directory id is expanded at most once,
//! however often the remote lists it.

use std::collections::{HashSet, VecDeque};
use vstd::multiset::Multiset;
use vstd::prelude::*;
use vstd::string::StringExecFns;
use crate::entry::{EntryView, FileTask, RemoteEntry, TaskView};
use crate::names::{child_dir, child_dir_of};

verus! {

broadcast use vstd::std_specs::hash::group_hash_axioms;

/// The directory of the course root, relative to itself.
pub open spec fn root_dir() -> Seq<char> {
    seq!['.']
}

/// `children`, each tagged with the directory `dir` it was found under.
pub open spec fn placed(children: Seq<EntryView>, dir: Seq<char>) -> Seq<TaskView> {
    Seq::new(children.len(), |i: int| TaskView { entry: children[i], dir })
}

/// What became of the entry at the head of the queue.
pub enum StepOutcome {
    /// The queue was empty.
    Idle,
    /// A file: it joined the output.
    Filed,
    /// A directory whose id was expanded before: dropped.
    Skipped,
    /// A directory to expand: `dir` is to be created and `id` to be listed.
    Expand { id: u64, dir: Seq<char> },
}

/// The mathematical content of a [`Flattener`].
pub struct FlattenerView {
    /// Discovered entries not yet looked at, oldest first.
    pub queue: Seq<TaskView>,
    /// The files found so far, in the order they left the queue.
    pub files: Seq<TaskView>,
    /// The ids of the directories expanded so far.
    pub seen: Set<u64>,
    /// The local directories that the caller was asked to create so far.
    pub made: Set<Seq<char>>,
}

impl FlattenerView {
    /// The walk before anything was looked at: the root listing is queued
    /// under the root directory.
    pub open spec fn start(root: Seq<EntryView>) -> FlattenerView {
        FlattenerView {
            queue: placed(root, root_dir()),
            files: Seq::empty(),
            seen: Set::empty(),
            made: Set::empty(),
        }
    }

    /// The walk after the children of a directory created as `dir` arrived.
    pub open spec fn deliver(self, children: Seq<EntryView>, dir: Seq<char>) -> FlattenerView {
        FlattenerView { queue: self.queue + placed(children, dir), ..self }
    }

    /// Whether `dir` exists as far as the walk can tell: it is the course
    /// root, or the caller was asked to create it.
    pub open spec fn dir_ready(self, dir: Seq<char>) -> bool {
        dir == root_dir() || self.made.contains(dir)
    }

    /// Whether every entry that waits, and every file found, lies in a
    /// directory that is ready.
    pub open spec fn dirs_ready(self) -> bool {
        &&& forall|i: int| 0 <= i < self.queue.len() ==> self.dir_ready((#[trigger] self.queue[i]).dir)
        &&& forall|i: int| 0 <= i < self.files.len() ==> self.dir_ready((#[trigger] self.files[i]).dir)
    }

    /// Looks at the head of the queue.
    pub open spec fn step(self) -> (FlattenerView, StepOutcome) {
        if self.queue.len() == 0 {
            (self, StepOutcome::Idle)
        } else {
            let head = self.queue.first();
            let rest = self.queue.drop_first();
            if !head.entry.is_directory() {
                (
                    FlattenerView { queue: rest, files: self.files.push(head), ..self },
                    StepOutcome::Filed,
                )
            } else if self.seen.contains(head.entry.id) {
                (FlattenerView { queue: rest, ..self }, StepOutcome::Skipped)
            } else {
                let dir = child_dir_of(head.dir, head.entry.title);
                (
                    FlattenerView {
                        queue: rest,
                        files: self.files,
                        seen: self.seen.insert(head.entry.id),
                        made: self.made.insert(dir),
                    },
                    StepOutcome::Expand { id: head.entry.id, dir },
                )
            }
        }
    }

    /// Steps until a directory asks to be expanded or the queue is empty.
    /// Gives the state reached and the expansion asked for, if any.
    pub open spec fn advance(self) -> (FlattenerView, Option<(u64, Seq<char>)>)
        decreases self.queue.len(),
    {
        if self.queue.len() == 0 {
            (self, None)
        } else {
            match self.step().1 {
                StepOutcome::Expand { id, dir } => (self.step().0, Some((id, dir))),
                _ => self.step().0.advance(),
            }
        }
    }
}

/// A walk that is ready to go on.
pub struct Flattener {
    queue: VecDeque<FileTask>,
    files: Vec<FileTask>,
    seen: HashSet<u64>,
    made: Ghost<Set<Seq<char>>>,
}

impl View for Flattener {
    type V = FlattenerView;

    closed spec fn view(&self) -> FlattenerView {
        FlattenerView {
            queue: self.queue.deep_view(),
            files: self.files.deep_view(),
            seen: self.seen@,
            made: self.made@,
        }
    }
}

/// A walk that waits for the children of one directory.
pub struct Expansion {
    state: Flattener,
    id: u64,
    local_dir: String,
}

/// The mathematical content of an [`Expansion`].
pub struct ExpansionView {
    pub state: FlattenerView,
    pub id: u64,
    pub dir: Seq<char>,
}

impl View for Expansion {
    type V = ExpansionView;

    closed spec fn view(&self) -> ExpansionView {
        ExpansionView { state: self.state@, id: self.id, dir: self.local_dir@ }
    }
}

/// The outcome of a finished walk.
#[derive(Debug, PartialEq, Eq)]
pub struct Flattened {
    /// Every file found, each with the directory it belongs to.
    pub files: Vec<FileTask>,
    /// How many directories were expanded.
    pub directory_count: usize,
}

/// What the walk needs next.
pub enum Progress {
    /// A directory must be created locally and listed remotely.
    Expand(Expansion),
    /// Nothing is left to look at.
    Done(Flattened),
}

fn enqueue(queue: &mut VecDeque<FileTask>, children: Vec<RemoteEntry>, dir: &String)
    ensures
        final(queue).deep_view() == old(queue).deep_view() + placed(children.deep_view(), dir@),
{
    let ghost all = children.deep_view();
    let ghost raw = children@;
    for e in it: children
        invariant
            it.seq() == raw,
            all == Seq::new(raw.len(), |i: int| raw[i]@),
            queue.deep_view() == old(queue).deep_view() + placed(all, dir@).take(it.index()),
    {
        let ghost before = queue.deep_view();
        let task = FileTask { entry: e, local_relative_dir: dir.clone() };
        queue.push_back(task);
        assert(queue.deep_view() =~= before.push(task@));
    }
}

impl Flattener {
    /// Starts a walk from the listing of the course root.
    pub fn new(root: Vec<RemoteEntry>) -> (f: Flattener)
        ensures
            f@ == FlattenerView::start(root.deep_view()),
    {
        let mut queue: VecDeque<FileTask> = VecDeque::new();
        let dot = String::from_str(".");
        proof {
            reveal_strlit(".");
        }
        assert(dot@ =~= root_dir());
        assert(queue.deep_view() =~= Seq::<TaskView>::empty());
        enqueue(&mut queue, root, &dot);
        Flattener { queue, files: Vec::new(), seen: HashSet::new(), made: Ghost(Set::empty()) }
    }

    /// Goes on until a directory has to be expanded or the queue is empty.
    pub fn advance(self) -> (p: Progress)
        ensures
            match p {
                Progress::Expand(x) => self@.advance() == (x@.state, Some((x@.id, x@.dir))),
                Progress::Done(d) => {
                    &&& self@.advance().1 is None
                    &&& d.files.deep_view() == self@.advance().0.files
                    &&& d.directory_count == self@.advance().0.seen.len()
                },
            },
    {
        let mut state = self;
        loop
            invariant
                state@.advance() == self@.advance(),
            decreases state.queue@.len(),
        {
            let ghost before = state@;
            match state.queue.pop_front() {
                None => {
                    return Progress::Done(
                        Flattened { directory_count: state.seen.len(), files: state.files },
                    );
                },
                Some(task) => {
                    assert(state.queue.deep_view() =~= before.queue.drop_first());
                    if !task.entry.is_directory() {
                        let ghost filed = state.files.deep_view();
                        state.files.push(task);
                        assert(state.files.deep_view() =~= filed.push(task@));
                    } else if !state.seen.contains(&task.entry.id) {
                        state.seen.insert(task.entry.id);
                        let local_dir = child_dir(
                            task.local_relative_dir.as_str(),
                            task.entry.title.as_str(),
                        );
                        proof {
                            state.made@ = state.made@.insert(local_dir@);
                        }
                        return Progress::Expand(
                            Expansion { state, id: task.entry.id, local_dir },
                        );
                    }
                },
            }
        }
    }
}

impl Expansion {
    /// The remote directory to list.
    pub fn id(&self) -> (id: u64)
        ensures
            id == self@.id,
    {
        self.id
    }

    /// The local directory to create, relative to the course root. It must
    /// exist before any file inside it is written; one that exists already
    /// is no error.
    pub fn local_dir(&self) -> (dir: &str)
        ensures
            dir@ == self@.dir,
    {
        self.local_dir.as_str()
    }

    /// Takes in the children of the directory and readies the walk again.
    pub fn deliver(self, children: Vec<RemoteEntry>) -> (f: Flattener)
        ensures
            f@ == self@.state.deliver(children.deep_view(), self@.dir),
    {
        let mut state = self.state;
        enqueue(&mut state.queue, children, &self.local_dir);
        state
    }
}

/// A node of a remote attachment tree.
pub enum RemoteNode {
    /// A file, with its listing row.
    File { entry: EntryView },
    /// A directory, with its listing row and what it holds.
    Folder { entry: EntryView, children: Seq<RemoteNode> },
}

/// The files and directories of a part of a tree: each file as the task it
/// should become, each directory by its id. Both count repetitions.
pub struct Census {
    pub files: Multiset<TaskView>,
    pub folders: Multiset<u64>,
}

impl Census {
    /// Nothing at all.
    pub open spec fn empty() -> Census {
        Census { files: Multiset::empty(), folders: Multiset::empty() }
    }

    /// Both parts together.
    pub open spec fn plus(self, other: Census) -> Census {
        Census { files: self.files.add(other.files), folders: self.folders.add(other.folders) }
    }

    /// How many nodes were counted.
    pub open spec fn total(self) -> nat {
        self.files.len() + self.folders.len()
    }
}

impl RemoteNode {
    /// The node's own listing row.
    pub open spec fn entry(self) -> EntryView {
        match self {
            RemoteNode::File { entry } => entry,
            RemoteNode::Folder { entry, .. } => entry,
        }
    }

    /// Whether rows and nodes agree everywhere below: a directory row on
    /// every directory, and on no file.
    pub open spec fn well_formed(self) -> bool
        decreases self,
    {
        match self {
            RemoteNode::File { entry } => !entry.is_directory(),
            RemoteNode::Folder { entry, children } => entry.is_directory() && forall|i: int|
                0 <= i < children.len() ==> (#[trigger] children[i]).well_formed(),
        }
    }

    /// Whether `remote` answers the id of every directory below with that
    /// directory's children.
    pub open spec fn served_by(self, remote: spec_fn(u64) -> Seq<EntryView>) -> bool
        decreases self,
    {
        match self {
            RemoteNode::File { .. } => true,
            RemoteNode::Folder { entry, children } => remote(entry.id) == listing(children)
                && forall|i: int|
                0 <= i < children.len() ==> (#[trigger] children[i]).served_by(remote),
        }
    }

    /// What lies at and below the node when the node itself was found under
    /// the local directory `dir`: a file belongs to `dir`; what a directory
    /// holds belongs to the directory made for it inside `dir`.
    pub open spec fn census(self, dir: Seq<char>) -> Census
        decreases self,
    {
        match self {
            RemoteNode::File { entry } => Census {
                files: Multiset::singleton(TaskView { entry, dir }),
                folders: Multiset::empty(),
            },
            RemoteNode::Folder { entry, children } => {
                let below = census_among(children, child_dir_of(dir, entry.title));
                Census { files: below.files, folders: below.folders.insert(entry.id) }
            },
        }
    }
}

/// The listing of a directory that holds `nodes`.
pub open spec fn listing(nodes: Seq<RemoteNode>) -> Seq<EntryView> {
    Seq::new(nodes.len(), |i: int| nodes[i].entry())
}

/// What lies at and below `nodes`, all found under `dir`.
pub open spec fn census_among(nodes: Seq<RemoteNode>, dir: Seq<char>) -> Census
    decreases nodes,
{
    if nodes.len() == 0 {
        Census::empty()
    } else {
        census_among(nodes.drop_last(), dir).plus(nodes.last().census(dir))
    }
}

/// The caller's loop: advance, answer each expansion with what `remote`
/// lists for the directory asked for, and go on; `rounds` bounds the number
/// of expansions answered.
pub open spec fn run(s: FlattenerView, remote: spec_fn(u64) -> Seq<EntryView>, rounds: nat)
    -> FlattenerView
    decreases rounds,
{
    match s.advance().1 {
        None => s.advance().0,
        Some((id, dir)) => if rounds == 0 {
            s.advance().0
        } else {
            run(s.advance().0.deliver(remote(id), dir), remote, (rounds - 1) as nat)
        },
    }
}

proof fn lemma_advance_keeps_dirs_ready(s: FlattenerView)
    requires
        s.dirs_ready(),
    ensures
        s.advance().0.dirs_ready(),
        s.advance().1 matches Some((_, dir)) ==> s.advance().0.made.contains(dir),
    decreases s.queue.len(),
{
    if s.queue.len() > 0 {
        let s1 = s.step().0;
        assert(s1.dirs_ready());
        if !(s.step().1 is Expand) {
            lemma_advance_keeps_dirs_ready(s1);
        }
    }
}

/// Directories come first. Whatever the remote service lists, every entry
/// that the walk holds, waiting or found, lies in the course root or in a
/// directory that the caller was asked to create before the entry arrived.
/// So a caller that creates each directory when asked never meets a file
/// whose directory is missing.
pub proof fn lemma_directories_come_first(
    root: Seq<EntryView>,
    remote: spec_fn(u64) -> Seq<EntryView>,
    rounds: nat,
)
    ensures
        run(FlattenerView::start(root), remote, rounds).dirs_ready(),
{
    lemma_run_keeps_dirs_ready(FlattenerView::start(root), remote, rounds);
}

proof fn lemma_run_keeps_dirs_ready(
    s: FlattenerView,
    remote: spec_fn(u64) -> Seq<EntryView>,
    rounds: nat,
)
    requires
        s.dirs_ready(),
    ensures
        run(s, remote, rounds).dirs_ready(),
    decreases rounds,
{
    lemma_advance_keeps_dirs_ready(s);
    if let Some((id, dir)) = s.advance().1 {
        if rounds > 0 {
            let delivered = s.advance().0.deliver(remote(id), dir);
            assert(delivered.dirs_ready());
            lemma_run_keeps_dirs_ready(delivered, remote, (rounds - 1) as nat);
        }
    }
}

/// A node waiting in the queue, with the directory it was found under.
struct Waiting {
    node: RemoteNode,
    dir: Seq<char>,
}

spec fn waiting(nodes: Seq<RemoteNode>, dir: Seq<char>) -> Seq<Waiting> {
    Seq::new(nodes.len(), |i: int| Waiting { node: nodes[i], dir })
}

spec fn heads(q: Seq<Waiting>) -> Seq<TaskView> {
    Seq::new(q.len(), |i: int| TaskView { entry: q[i].node.entry(), dir: q[i].dir })
}

spec fn census_waiting(q: Seq<Waiting>) -> Census
    decreases q.len(),
{
    if q.len() == 0 {
        Census::empty()
    } else {
        census_waiting(q.drop_last()).plus(q.last().node.census(q.last().dir))
    }
}

proof fn lemma_census_concat(a: Seq<Waiting>, b: Seq<Waiting>)
    ensures
        census_waiting(a + b).files == census_waiting(a).files.add(census_waiting(b).files),
        census_waiting(a + b).folders == census_waiting(a).folders.add(census_waiting(b).folders),
    decreases b.len(),
{
    broadcast use vstd::multiset::group_multiset_axioms;
    if b.len() > 0 {
        lemma_census_concat(a, b.drop_last());
        assert((a + b).drop_last() =~= a + b.drop_last());
    }
}

proof fn lemma_census_waiting(nodes: Seq<RemoteNode>, dir: Seq<char>)
    ensures
        census_waiting(waiting(nodes, dir)) == census_among(nodes, dir),
    decreases nodes.len(),
{
    if nodes.len() > 0 {
        lemma_census_waiting(nodes.drop_last(), dir);
        assert(waiting(nodes, dir).drop_last() =~= waiting(nodes.drop_last(), dir));
    }
}

proof fn lemma_census_head(q: Seq<Waiting>)
    requires
        q.len() > 0,
    ensures
        census_waiting(q).files == q[0].node.census(q[0].dir).files.add(
            census_waiting(q.drop_first()).files,
        ),
        census_waiting(q).folders == q[0].node.census(q[0].dir).folders.add(
            census_waiting(q.drop_first()).folders,
        ),
{
    broadcast use vstd::multiset::group_multiset_axioms;
    let one = seq![q[0]];
    assert(q =~= one + q.drop_first());
    lemma_census_concat(one, q.drop_first());
    assert(one.drop_last() =~= Seq::<Waiting>::empty());
    assert(census_waiting(Seq::<Waiting>::empty()) == Census::empty());
}

proof fn lemma_run_collects(
    q: Seq<Waiting>,
    s: FlattenerView,
    remote: spec_fn(u64) -> Seq<EntryView>,
    rounds: nat,
)
    requires
        s.queue == heads(q),
        s.seen.finite(),
        forall|i: int| 0 <= i < q.len() ==> (#[trigger] q[i]).node.well_formed(),
        forall|i: int| 0 <= i < q.len() ==> (#[trigger] q[i]).node.served_by(remote),
        forall|id: u64| #[trigger]
            census_waiting(q).folders.count(id) + (if s.seen.contains(id) {
                1nat
            } else {
                0nat
            }) <= 1,
        rounds >= census_waiting(q).folders.len(),
    ensures
        run(s, remote, rounds).queue.len() == 0,
        run(s, remote, rounds).files.to_multiset() == s.files.to_multiset().add(
            census_waiting(q).files,
        ),
        run(s, remote, rounds).seen.finite(),
        run(s, remote, rounds).seen.len() == s.seen.len() + census_waiting(q).folders.len(),
        forall|id: u64| #[trigger]
            run(s, remote, rounds).seen.contains(id) <==> s.seen.contains(id) || census_waiting(
                q,
            ).folders.count(id) > 0,
    decreases census_waiting(q).total(),
{
    broadcast use vstd::multiset::group_multiset_axioms;
    broadcast use vstd::multiset::group_multiset_properties;
    if q.len() > 0 {
        let head = q[0];
        let rest = q.drop_first();
        lemma_census_head(q);
        assert(s.queue.drop_first() =~= heads(rest));
        match head.node {
            RemoteNode::File { .. } => {
                // The head is filed; the directories that wait are those of the rest.
                assert(census_waiting(q).folders =~= census_waiting(rest).folders);
                lemma_run_collects(rest, s.step().0, remote, rounds);
                s.files.to_multiset_ensures();
            },
            RemoteNode::Folder { entry, children } => {
                // The head is expanded: its id is new, and its children join the queue.
                let dir = child_dir_of(head.dir, entry.title);
                assert(census_waiting(q).folders.count(entry.id) >= 1);
                let delivered = s.step().0.deliver(remote(entry.id), dir);
                let longer = rest + waiting(children, dir);
                lemma_census_concat(rest, waiting(children, dir));
                lemma_census_waiting(children, dir);
                assert(delivered.queue =~= heads(longer));
                assert forall|x: u64| #[trigger]
                    census_waiting(longer).folders.count(x) + (if delivered.seen.contains(x) {
                        1nat
                    } else {
                        0nat
                    }) <= 1 by {
                    assert(census_waiting(q).folders.count(x) + (if s.seen.contains(x) {
                        1nat
                    } else {
                        0nat
                    }) <= 1);
                }
                lemma_run_collects(longer, delivered, remote, (rounds - 1) as nat);
            },
        }
    }
}

/// Flattening is complete. Take a tree whose directories all have different
/// ids, and a remote service that answers each of these ids with the
/// children of that directory. Then the walk that starts from the root
/// listing ends with an empty queue after as many expansions as the tree has
/// directories; the ids it expanded are exactly theirs; and the files it
/// holds are exactly the files of the tree, each once and each under the
/// directory that its ancestors' sanitized titles spell out.
pub proof fn lemma_flatten_complete(
    tree: Seq<RemoteNode>,
    remote: spec_fn(u64) -> Seq<EntryView>,
    rounds: nat,
)
    requires
        forall|i: int| 0 <= i < tree.len() ==> (#[trigger] tree[i]).well_formed(),
        forall|i: int| 0 <= i < tree.len() ==> (#[trigger] tree[i]).served_by(remote),
        forall|id: u64| #[trigger] census_among(tree, root_dir()).folders.count(id) <= 1,
        rounds >= census_among(tree, root_dir()).folders.len(),
    ensures
        ({
            let end = run(FlattenerView::start(listing(tree)), remote, rounds);
            let all = census_among(tree, root_dir());
            &&& end.queue.len() == 0
            &&& end.advance() == (end, None::<(u64, Seq<char>)>)
            &&& end.files.to_multiset() == all.files
            &&& end.files.len() == all.files.len()
            &&& end.seen.finite()
            &&& end.seen.len() == all.folders.len()
            &&& forall|id: u64| #[trigger] end.seen.contains(id) <==> all.folders.count(id) > 0
        }),
{
    broadcast use vstd::multiset::group_multiset_axioms;
    let q = waiting(tree, root_dir());
    let s = FlattenerView::start(listing(tree));
    lemma_census_waiting(tree, root_dir());
    assert(s.queue =~= heads(q));
    lemma_run_collects(q, s, remote, rounds);
    assert(s.files.to_multiset() =~= Multiset::<TaskView>::empty()) by {
        s.files.to_multiset_ensures();
    }
    run(s, remote, rounds).files.to_multiset_ensures();
}

} // verus!
