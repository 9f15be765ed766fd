use crate::executors::context::{search_pattern, Context, SearchError};
use crate::executors::ops::{
    copy_steps, holder, lemma_step_views_push, mirrors, step_views, Ops, Step, StepView,
};
use crate::host::can_be_malformed;
use crate::path::{lemma_split_segment, PathView, RealPath};
use vstd::prelude::*;

verus! {

/// A mirrored context: a source to read from and a target to write to,
/// which descend together.
#[derive(Clone, Debug, PartialEq, Eq)]
pub struct FileSystemContext<C: Context> {
    pub source: C,
    pub target: C,
}

impl<C> FileSystemContext<C> where C: Context + Default {
    /// The context that writes below `target_dir` and has the default
    /// value of `C` as its source.
    pub fn new(target_dir: C) -> (context: Self)
        ensures
            context.target == target_dir,
            call_ensures(C::default, (), context.source),
    {
        FileSystemContext { source: C::default(), target: target_dir }
    }
}

/// The segment under which writes to the home directory go.
pub open spec fn home_segment() -> Seq<char> {
    "home"@
}

/// The segment under which writes to the configuration directory go.
pub open spec fn config_segment() -> Seq<char> {
    "config"@
}

/// What a search result mirrors to below the context (`source`, `target`):
/// nothing stays nothing, and a match below the source becomes the context
/// of that match and of the same relative position below the target.
pub open spec fn mirrored(
    source: PathView,
    target: PathView,
    found: Option<RealPath>,
    entry: Option<FileSystemContext<RealPath>>,
) -> bool {
    match found {
        None => entry is None,
        Some(path) => {
            &&& path@.is_under(source)
            &&& entry matches Some(context)
            &&& context.source@ == path@
            &&& context.target@ == target.extend(path@.below(source))
        },
    }
}

/// Whether the match at `index` is the first that does not lie under
/// `source`.
pub open spec fn first_outside(source: PathView, found: Seq<Option<RealPath>>, index: int) -> bool {
    &&& 0 <= index < found.len()
    &&& found[index] matches Some(path) && !path@.is_under(source)
    &&& forall|j: int|
        0 <= j < index ==> (#[trigger] found[j] matches Some(path) ==> path@.is_under(source))
}

/// Whether every present entry of `matches` lies under `source` and has
/// the same relative position below `target` as its target.
pub open spec fn all_mirrored(
    source: PathView,
    target: PathView,
    matches: Seq<Option<FileSystemContext<RealPath>>>,
) -> bool {
    forall|i: int|
        0 <= i < matches.len() ==> (#[trigger] matches[i] matches Some(context) ==> {
            &&& context.source@.is_under(source)
            &&& context.target@ == target.extend(context.source@.below(source))
        })
}

/// Whether `steps` copies the entries of `matches`, each of them mirrored
/// from below `source` to below `target`: for each present entry in order,
/// the directory that holds its target is made and then the entry copied.
pub open spec fn copies_matches(
    source: PathView,
    target: PathView,
    matches: Seq<Option<FileSystemContext<RealPath>>>,
    steps: Seq<StepView>,
) -> bool {
    all_mirrored(source, target, matches) && steps == mirror_plan(target, matches)
}

/// Whether `steps` copies some list of matches, each of them mirrored from
/// below `source` to below `target`.
pub open spec fn copies_some_matches(source: PathView, target: PathView, steps: Seq<StepView>) -> bool {
    exists|entries: Seq<Option<FileSystemContext<RealPath>>>| #[trigger]
        copies_matches(source, target, entries, steps)
}

/// The steps that copy every present entry of `matches` from its source to
/// its target, in order.
pub open spec fn mirror_plan(
    target: PathView,
    matches: Seq<Option<FileSystemContext<RealPath>>>,
) -> Seq<StepView>
    decreases matches.len(),
{
    if matches.len() == 0 {
        Seq::empty()
    } else {
        let earlier = mirror_plan(target, matches.drop_last());
        match matches.last() {
            Some(context) => earlier + copy_steps(target, context.source@, context.target@),
            None => earlier,
        }
    }
}

impl FileSystemContext<RealPath> {
    /// The context of a directory of the host: its source is the directory
    /// that the host named, whatever the source was before, and its target
    /// is the old target with `namespace` appended. There is none where the
    /// host named none.
    pub fn namespaced(&self, host: Option<RealPath>, namespace: &str) -> (found: Option<Self>)
        ensures
            match host {
                Some(directory) => {
                    &&& found matches Some(context)
                    &&& context.source@ == directory@
                    &&& context.target@ == self.target@.join(namespace@)
                },
                None => found is None,
            },
    {
        match host {
            Some(directory) => Some(
                FileSystemContext { source: directory, target: self.target.join(namespace) },
            ),
            None => None,
        }
    }

    /// Mirrors the matches of a search below the source into contexts:
    /// entry by entry, keeping empty entries empty. Fails exactly when a
    /// match does not lie under the source, and names the first such entry.
    pub fn mirror(&self, found: &Vec<Option<RealPath>>) -> (entries: Result<
        Vec<Option<Self>>,
        SearchError,
    >)
        ensures
            match entries {
                Ok(contexts) => {
                    &&& contexts.len() == found.len()
                    &&& forall|i: int|
                        0 <= i < found.len() ==> mirrored(
                            self.source@,
                            self.target@,
                            found[i],
                            #[trigger] contexts[i],
                        )
                },
                Err(error) => error matches SearchError::OutsideRoot { index } && first_outside(
                    self.source@,
                    found@,
                    index as int,
                ),
            },
    {
        let mut contexts: Vec<Option<Self>> = Vec::new();
        let mut i: usize = 0;
        while i < found.len()
            invariant
                i <= found.len(),
                contexts.len() == i,
                forall|j: int|
                    0 <= j < i ==> mirrored(
                        self.source@,
                        self.target@,
                        found[j],
                        #[trigger] contexts[j],
                    ),
            decreases found.len() - i,
        {
            match &found[i] {
                None => {
                    contexts.push(None);
                },
                Some(path) => {
                    match path.below(&self.source) {
                        None => {
                            assert forall|j: int| 0 <= j < i implies (#[trigger] found[j] matches Some(
                                earlier,
                            ) ==> earlier@.is_under(self.source@)) by {
                                assert(mirrored(self.source@, self.target@, found[j], contexts[j]));
                            }
                            return Err(SearchError::OutsideRoot { index: i });
                        },
                        Some(rest) => {
                            let target = self.target.concat(&rest);
                            contexts.push(Some(FileSystemContext { source: path.clone(), target }));
                        },
                    }
                },
            }
            i += 1;
        }
        Ok(contexts)
    }
}

impl Context for FileSystemContext<RealPath> {
    open spec fn source(&self) -> PathView {
        self.source@
    }

    open spec fn target(&self) -> PathView {
        self.target@
    }

    /// The context of the home directory: writes go below the segment
    /// `home` of the target, never to the home directory itself.
    fn home(&self) -> (found: Option<Self>)
        ensures
            found matches Some(context) ==> {
                &&& context.target@ == self.target@.join(home_segment())
                &&& context.target@.segments == self.target@.segments.push(home_segment())
                &&& context.target@.absolute == self.target@.absolute
            },
    {
        proof {
            reveal_strlit("home");
            lemma_split_segment(home_segment());
            assert(self.target@.segments + seq![home_segment()] == self.target@.segments.push(
                home_segment(),
            ));
        }
        self.namespaced(self.source.home(), "home")
    }

    /// The context of the configuration directory: writes go below the
    /// segment `config` of the target, never to the directory itself.
    fn config(&self) -> (found: Option<Self>)
        ensures
            found matches Some(context) ==> {
                &&& context.target@ == self.target@.join(config_segment())
                &&& context.target@.segments == self.target@.segments.push(config_segment())
                &&& context.target@.absolute == self.target@.absolute
            },
    {
        proof {
            reveal_strlit("config");
            lemma_split_segment(config_segment());
            assert(self.target@.segments + seq![config_segment()]
                == self.target@.segments.push(config_segment()));
        }
        self.namespaced(self.source.config(), "config")
    }

    fn sub(&self, name: &str) -> (below: Self) {
        FileSystemContext { source: self.source.sub(name), target: self.target.sub(name) }
    }

    /// Expands the pattern below the source and mirrors each match to the
    /// same relative position below the target. Fails where the pattern
    /// is malformed, which takes a `*` or a `[` in the text of the source or
    /// in the pattern, and where a match does not lie under the source.
    fn search(&self, pattern: &str) -> (found: Result<Vec<Option<Self>>, SearchError>)
        ensures
            match found {
                Ok(entries) => all_mirrored(self.source@, self.target@, entries@),
                Err(error) => error is OutsideRoot || can_be_malformed(
                    search_pattern(self.source@, pattern@),
                ),
            },
    {
        match self.source.search(pattern) {
            Err(error) => Err(error),
            Ok(paths) => {
                let entries = self.mirror(&paths);
                proof {
                    if entries is Ok {
                        let contexts = entries->Ok_0;
                        assert forall|i: int| 0 <= i < contexts.len() implies (
                        #[trigger] contexts[i] matches Some(context) ==> {
                            &&& context.source@.is_under(self.source@)
                            &&& context.target@ == self.target@.extend(
                                context.source@.below(self.source@),
                            )
                        }) by {
                            assert(mirrored(self.source@, self.target@, paths[i], contexts[i]));
                        }
                    }
                }
                entries
            },
        }
    }
}

impl Default for FileSystemContext<RealPath> {
    /// The context whose source and target are both the relative path
    /// without segments.
    fn default() -> (context: Self)
        ensures
            context.source@ == (PathView { absolute: false, segments: Seq::empty() }),
            context.target@ == (PathView { absolute: false, segments: Seq::empty() }),
    {
        FileSystemContext { source: RealPath::default(), target: RealPath::default() }
    }
}

/// Every step of a mirror plan mirrors the source into the target, where
/// every present entry lies under the source and at the same relative
/// position below the target.
pub proof fn lemma_mirror_plan_mirrors(
    source: PathView,
    target: PathView,
    matches: Seq<Option<FileSystemContext<RealPath>>>,
)
    requires
        all_mirrored(source, target, matches),
    ensures
        forall|k: int|
            0 <= k < mirror_plan(target, matches).len() ==> mirrors(
                #[trigger] mirror_plan(target, matches)[k],
                source,
                target,
            ),
    decreases matches.len(),
{
    if matches.len() > 0 {
        let front = matches.drop_last();
        assert(all_mirrored(source, target, front)) by {
            assert forall|i: int| 0 <= i < front.len() implies (#[trigger] front[i] matches Some(
                context,
            ) ==> {
                &&& context.source@.is_under(source)
                &&& context.target@ == target.extend(context.source@.below(source))
            }) by {
                assert(front[i] == matches[i]);
            }
        }
        lemma_mirror_plan_mirrors(source, target, front);
        let earlier = mirror_plan(target, front);
        match matches.last() {
            Some(context) => {
                assert(matches[matches.len() - 1] == matches.last());
                let below = context.source@.below(source);
                let to = context.target@;
                assert(to.segments.take(target.segments.len() as int) == target.segments);
                if to.segments.len() > target.segments.len() {
                    assert(to.parent().segments.take(target.segments.len() as int)
                        == target.segments);
                }
                assert(holder(target, to).is_under(target));
                let plan = mirror_plan(target, matches);
                assert forall|k: int| 0 <= k < plan.len() implies mirrors(
                    #[trigger] plan[k],
                    source,
                    target,
                ) by {
                    if k < earlier.len() {
                        assert(plan[k] == earlier[k]);
                    }
                }
            },
            None => {},
        }
    }
}

/// Carries out actions against a context.
#[derive(Clone, Debug, PartialEq, Eq)]
pub struct Executor<C: Context> {
    pub context: C,
}

impl<C: Context> Executor<C> {
    /// The executor that acts on `context`.
    pub fn new(context: C) -> (executor: Self)
        ensures
            executor.context == context,
    {
        Executor { context }
    }
}

impl Executor<FileSystemContext<RealPath>> {
    /// The directory at or below `root` that holds `destination`.
    fn holding_directory(root: &RealPath, destination: &RealPath) -> (directory: RealPath)
        ensures
            directory@ == holder(root@, destination@),
    {
        if destination.depth() > root.depth() {
            destination.parent()
        } else {
            root.clone()
        }
    }

    /// The steps that copy every present entry of `matches` from its
    /// source to its target, in the order of the entries: for each, make
    /// the directory that holds the target, then copy.
    pub fn copy_matches(&self, matches: &Vec<Option<FileSystemContext<RealPath>>>) -> (plan: Vec<
        Step,
    >)
        ensures
            step_views(plan@) == mirror_plan(self.context.target@, matches@),
    {
        let mut plan: Vec<Step> = Vec::new();
        let mut i: usize = 0;
        while i < matches.len()
            invariant
                i <= matches.len(),
                step_views(plan@) == mirror_plan(self.context.target@, matches@.take(i as int)),
            decreases matches.len() - i,
        {
            proof {
                let upto = matches@.take(i + 1);
                assert(upto.drop_last() == matches@.take(i as int));
                assert(upto.last() == matches@[i as int]);
            }
            match &matches[i] {
                Some(entry) => {
                    let ghost before = step_views(plan@);
                    let directory = Self::holding_directory(&self.context.target, &entry.target);
                    let make = Step::CreateDirAll(directory);
                    let copy = Step::CopyFile { from: entry.source.clone(), to: entry.target.clone() };
                    proof {
                        lemma_step_views_push(plan@, make);
                        lemma_step_views_push(plan@.push(make), copy);
                        assert(before.push(make@).push(copy@) == before + copy_steps(
                            self.context.target@,
                            entry.source@,
                            entry.target@,
                        ));
                    }
                    plan.push(make);
                    plan.push(copy);
                },
                None => {},
            }
            i += 1;
        }
        assert(matches@.take(i as int) == matches@);
        plan
    }
}

impl Ops for Executor<FileSystemContext<RealPath>> {
    open spec fn source(&self) -> PathView {
        self.context.source@
    }

    open spec fn target(&self) -> PathView {
        self.context.target@
    }

    fn copy(&self, file_name: &str, source_exists: bool) -> (plan: Vec<Step>) {
        let mut plan: Vec<Step> = Vec::new();
        if source_exists {
            let below = self.context.sub(file_name);
            let directory = Self::holding_directory(&self.context.target, &below.target);
            let make = Step::CreateDirAll(directory);
            let copy = Step::CopyFile { from: below.source, to: below.target };
            proof {
                lemma_step_views_push(plan@, make);
                lemma_step_views_push(plan@.push(make), copy);
            }
            plan.push(make);
            plan.push(copy);
        }
        plan
    }

    /// The plan copies the matches of the search for `pattern`, whatever
    /// they are: for each present match in order, the directory that holds
    /// its target is made and then the match copied. Fails where the search
    /// fails.
    fn copy_glob(&self, pattern: &str) -> (plan: Result<Vec<Step>, SearchError>)
        ensures
            plan matches Ok(steps) ==> copies_some_matches(
                self.context.source@,
                self.context.target@,
                step_views(steps@),
            ),
            plan matches Err(error) ==> error is OutsideRoot || can_be_malformed(
                search_pattern(self.context.source@, pattern@),
            ),
    {
        let found = self.context.search(pattern);
        match found {
            Err(error) => {
                assert(error is OutsideRoot || can_be_malformed(
                    search_pattern(self.context.source@, pattern@),
                ));
                Err(error)
            },
            Ok(matches) => {
                proof {
                    lemma_mirror_plan_mirrors(
                        self.context.source@,
                        self.context.target@,
                        matches@,
                    );
                }
                let steps = self.copy_matches(&matches);
                assert forall|i: int| 0 <= i < steps.len() implies mirrors(
                    #[trigger] steps[i]@,
                    self.context.source@,
                    self.context.target@,
                ) by {
                    assert(step_views(steps@)[i] == steps[i]@);
                }
                assert(copies_matches(
                    self.context.source@,
                    self.context.target@,
                    matches@,
                    step_views(steps@),
                ));
                assert(copies_some_matches(
                    self.context.source@,
                    self.context.target@,
                    step_views(steps@),
                ));
                Ok(steps)
            },
        }
    }

    fn execute(&self, command: &str) -> (plan: Vec<Step>) {
        let mut plan: Vec<Step> = Vec::new();
        let run = Step::Run { command: command.to_owned(), directory: self.context.source.clone() };
        proof {
            lemma_step_views_push(plan@, run);
        }
        plan.push(run);
        plan
    }
}

} // verus!
