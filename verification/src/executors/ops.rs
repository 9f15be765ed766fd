use crate::executors::context::SearchError;
use crate::path::{lemma_join_appends, PathView, RealPath};
use vstd::prelude::*;

verus! {

/// One thing for the caller to do on the host, on behalf of an action.
#[derive(Clone, Debug, PartialEq, Eq)]
pub enum Step {
    /// Create the directory and every missing directory above it.
    CreateDirAll(RealPath),
    /// Copy the file `from` byte for byte to `to`, replacing what is there.
    CopyFile { from: RealPath, to: RealPath },
    /// Run `command` with `directory` as its working directory.
    Run { command: String, directory: RealPath },
}

/// The mathematical value of a [`Step`].
pub enum StepView {
    CreateDirAll(PathView),
    CopyFile { from: PathView, to: PathView },
    Run { command: Seq<char>, directory: PathView },
}

impl View for Step {
    type V = StepView;

    open spec fn view(&self) -> StepView {
        match *self {
            Step::CreateDirAll(directory) => StepView::CreateDirAll(directory@),
            Step::CopyFile { from, to } => StepView::CopyFile { from: from@, to: to@ },
            Step::Run { command, directory } => StepView::Run {
                command: command@,
                directory: directory@,
            },
        }
    }
}

/// The values of a list of steps, in order.
pub open spec fn step_views(steps: Seq<Step>) -> Seq<StepView> {
    Seq::new(steps.len(), |i: int| steps[i]@)
}

/// Appending a step appends its value.
pub proof fn lemma_step_views_push(steps: Seq<Step>, last: Step)
    ensures
        step_views(steps.push(last)) == step_views(steps).push(last@),
{
}

/// The directory at or below `root` that holds `destination`: the parent of
/// the destination where it lies deeper than the root, else the root.
pub open spec fn holder(root: PathView, destination: PathView) -> PathView {
    if destination.segments.len() > root.segments.len() {
        destination.parent()
    } else {
        root
    }
}

/// The steps that copy one file from `from` to `to` below `root`: make the
/// directory that holds the destination, then copy.
pub open spec fn copy_steps(root: PathView, from: PathView, to: PathView) -> Seq<StepView> {
    seq![StepView::CreateDirAll(holder(root, to)), StepView::CopyFile { from, to }]
}

/// What `copy` asks for: nothing where the source file does not exist,
/// else the steps that copy it to the same name below the target.
pub open spec fn copy_plan(
    source: PathView,
    target: PathView,
    file_name: Seq<char>,
    source_exists: bool,
) -> Seq<StepView> {
    if source_exists {
        copy_steps(target, source.join(file_name), target.join(file_name))
    } else {
        Seq::empty()
    }
}

/// Whether a step mirrors the tree below `source` into the tree below
/// `target`: it makes a directory at or below the target, or copies a file
/// at or below the source to the same relative position below the target.
pub open spec fn mirrors(step: StepView, source: PathView, target: PathView) -> bool {
    match step {
        StepView::CreateDirAll(directory) => directory.is_under(target),
        StepView::CopyFile { from, to } => from.is_under(source) && to == target.extend(
            from.below(source),
        ),
        StepView::Run { .. } => false,
    }
}

/// Whether a step writes nowhere but at or below `target`.
pub open spec fn writes_under(step: StepView, target: PathView) -> bool {
    match step {
        StepView::CreateDirAll(directory) => directory.is_under(target),
        StepView::CopyFile { from, to } => to.is_under(target),
        StepView::Run { .. } => true,
    }
}

/// Every step of a copy plan writes nowhere but at or below the target.
pub proof fn lemma_copy_plan_writes_under(
    source: PathView,
    target: PathView,
    file_name: Seq<char>,
    source_exists: bool,
)
    ensures
        forall|i: int|
            0 <= i < copy_plan(source, target, file_name, source_exists).len() ==> writes_under(
                #[trigger] copy_plan(source, target, file_name, source_exists)[i],
                target,
            ),
{
    let to = target.join(file_name);
    lemma_join_appends(target, file_name);
    if to.segments.len() > target.segments.len() {
        assert(to.parent().segments.take(target.segments.len() as int) == target.segments);
    }
    assert(target.segments.take(target.segments.len() as int) == target.segments);
}

/// A step that mirrors a source into a target writes nowhere but at or
/// below the target.
pub proof fn lemma_mirror_writes_under(step: StepView, source: PathView, target: PathView)
    requires
        mirrors(step, source, target),
    ensures
        writes_under(step, target),
{
    if let StepView::CopyFile { from, to } = step {
        assert(to.segments.take(target.segments.len() as int) == target.segments);
    }
}

/// The part of the host that copying touches, as a value: the files with
/// their bytes, and the directories.
pub struct Tree {
    pub files: Map<PathView, Seq<u8>>,
    pub directories: Set<PathView>,
}

/// The tree after a step that succeeded. Making a directory adds it and
/// every directory above it; copying a file gives the destination the
/// bytes of the origin. What a command does to the tree is not part of
/// this model: a run leaves the tree as it is.
pub open spec fn after_step(tree: Tree, step: StepView) -> Tree {
    match step {
        StepView::CreateDirAll(directory) => Tree {
            files: tree.files,
            directories: tree.directories.union(Set::new(|above: PathView| directory.is_under(above))),
        },
        StepView::CopyFile { from, to } => if tree.files.dom().contains(from) {
            Tree { files: tree.files.insert(to, tree.files[from]), directories: tree.directories }
        } else {
            tree
        },
        StepView::Run { .. } => tree,
    }
}

/// The tree after a list of steps that succeeded, taken in order.
pub open spec fn after_steps(tree: Tree, steps: Seq<StepView>) -> Tree
    decreases steps.len(),
{
    if steps.len() == 0 {
        tree
    } else {
        after_step(after_steps(tree, steps.drop_last()), steps.last())
    }
}

/// The tree after `copy` of the file `file_name`, planned against the tree
/// as it is and carried out.
pub open spec fn after_copy(tree: Tree, source: PathView, target: PathView, file_name: Seq<char>) -> Tree {
    after_steps(
        tree,
        copy_plan(source, target, file_name, tree.files.dom().contains(source.join(file_name))),
    )
}

/// What `copy` does to the tree: nothing where the source file does not
/// exist; else the directory that holds the destination is there with all
/// above it, the destination has the bytes of the source file, and no
/// other file has changed.
pub proof fn lemma_after_copy(tree: Tree, source: PathView, target: PathView, file_name: Seq<char>)
    ensures
        ({
            let from = source.join(file_name);
            let to = target.join(file_name);
            let made = Set::new(|above: PathView| holder(target, to).is_under(above));
            if tree.files.dom().contains(from) {
                after_copy(tree, source, target, file_name) == (Tree {
                    files: tree.files.insert(to, tree.files[from]),
                    directories: tree.directories.union(made),
                })
            } else {
                after_copy(tree, source, target, file_name) == tree
            }
        }),
{
    let from = source.join(file_name);
    let to = target.join(file_name);
    if tree.files.dom().contains(from) {
        let plan = copy_steps(target, from, to);
        let first = plan.drop_last();
        assert(first.len() == 1 && first.last() == plan[0]);
        assert(first.drop_last().len() == 0);
        assert(after_steps(tree, first.drop_last()) == tree);
        assert(after_steps(tree, first) == after_step(tree, plan[0]));
        assert(plan.last() == plan[1]);
    }
}

/// Copying a file that does not exist changes nothing.
pub proof fn lemma_copy_of_missing_file(
    tree: Tree,
    source: PathView,
    target: PathView,
    file_name: Seq<char>,
)
    requires
        !tree.files.dom().contains(source.join(file_name)),
    ensures
        after_copy(tree, source, target, file_name) == tree,
{
    lemma_after_copy(tree, source, target, file_name);
}

/// Copying is idempotent: to copy a file twice leaves the tree as copying
/// it once does.
pub proof fn lemma_copy_twice(tree: Tree, source: PathView, target: PathView, file_name: Seq<char>)
    ensures
        after_copy(after_copy(tree, source, target, file_name), source, target, file_name)
            == after_copy(tree, source, target, file_name),
{
    let once = after_copy(tree, source, target, file_name);
    lemma_after_copy(tree, source, target, file_name);
    lemma_after_copy(once, source, target, file_name);
    let from = source.join(file_name);
    let to = target.join(file_name);
    if tree.files.dom().contains(from) {
        let twice = after_copy(once, source, target, file_name);
        assert(once.files.dom().contains(from));
        assert(once.files[from] == tree.files[from]);
        assert(twice.files =~= once.files);
        assert(twice.directories =~= once.directories);
    }
}

/// The actions of a profile, as plans: each operation says what is to be
/// done on the host and leaves the doing to the caller.
pub trait Ops {
    /// Where reads and matches take place.
    spec fn source(&self) -> PathView;

    /// Where writes go.
    spec fn target(&self) -> PathView;

    /// Plans the copy of the file `file_name` below the source to the same
    /// name below the target. `source_exists` says whether that file
    /// exists; where it does not there is nothing to do, which is no error.
    fn copy(&self, file_name: &str, source_exists: bool) -> (plan: Vec<Step>)
        ensures
            step_views(plan@) == copy_plan(
                self.source(),
                self.target(),
                file_name@,
                source_exists,
            ),
    ;

    /// Plans the copy of every file below the source that matches
    /// `pattern` to the same relative position below the target. Matches
    /// that could not be resolved are passed over.
    fn copy_glob(&self, pattern: &str) -> (plan: Result<Vec<Step>, SearchError>)
        ensures
            plan matches Ok(steps) ==> forall|i: int|
                0 <= i < steps.len() ==> mirrors(
                    #[trigger] steps[i]@,
                    self.source(),
                    self.target(),
                ),
    ;

    /// Plans the run of `command` in the source directory.
    fn execute(&self, command: &str) -> (plan: Vec<Step>)
        ensures
            step_views(plan@) == seq![
                StepView::Run { command: command@, directory: self.source() },
            ],
    ;
}

} // verus!
