use crate::domain::{
    action_views, check_views, dependency_views, lemma_string_views_concat, string_views, Action,
    ActionView, App, DependencyCheck, DependencyCheckView, DependencyView,
};
use crate::path::RealPath;
use crate::text::{contains, is_substring};
use vstd::prelude::*;

verus! {

/// What was found on disk at the path of a candidate file.
#[derive(Clone, Debug, PartialEq, Eq)]
pub enum FileState {
    /// Nothing exists at the path.
    Missing,
    /// The file exists and this is its whole text.
    Present(String),
    /// The file exists but its text could not be read.
    Unreadable,
}

/// The mathematical value of a [`FileState`].
pub enum FileStateView {
    Missing,
    Present(Seq<char>),
    Unreadable,
}

impl View for FileState {
    type V = FileStateView;

    open spec fn view(&self) -> FileStateView {
        match *self {
            FileState::Missing => FileStateView::Missing,
            FileState::Present(text) => FileStateView::Present(text@),
            FileState::Unreadable => FileStateView::Unreadable,
        }
    }
}

/// Why an evaluation of dependency checks stopped.
#[derive(Clone, Copy, Debug, PartialEq, Eq)]
pub enum AnalyzeError {
    /// A check needed the text of a file that exists but cannot be read.
    Unreadable,
}

/// The block text that the table holds for `rule`, if `rule` is a known
/// dependency. Of two entries with one name the later one counts.
pub open spec fn lookup(table: Seq<DependencyView>, rule: Seq<char>) -> Option<Seq<char>>
    decreases table.len(),
{
    if table.len() == 0 {
        None
    } else if table.last().name == rule {
        Some(table.last().block)
    } else {
        lookup(table.drop_last(), rule)
    }
}

/// Whether `check` holds of the file, whatever the table says of its rule.
pub open spec fn holds(file: FileStateView, check: DependencyCheckView) -> bool {
    match check {
        DependencyCheckView::Exists(_) => !(file is Missing),
        DependencyCheckView::Contains(needle, _) => file matches FileStateView::Present(text)
            && is_substring(text, needle),
    }
}

/// The dependency that `check` names.
pub open spec fn rule_of(check: DependencyCheckView) -> Seq<char> {
    match check {
        DependencyCheckView::Exists(rule) => rule,
        DependencyCheckView::Contains(_, rule) => rule,
    }
}

/// The block that `check` surfaces: that of its rule, where the check holds
/// of the file and the rule is a known dependency.
pub open spec fn fires(
    table: Seq<DependencyView>,
    file: FileStateView,
    check: DependencyCheckView,
) -> Option<Seq<char>> {
    if holds(file, check) {
        lookup(table, rule_of(check))
    } else {
        None
    }
}

/// The blocks surfaced by `checks`, one for each check that fires, in the
/// order of the checks.
pub open spec fn triggered(
    table: Seq<DependencyView>,
    file: FileStateView,
    checks: Seq<DependencyCheckView>,
) -> Seq<Seq<char>>
    decreases checks.len(),
{
    if checks.len() == 0 {
        Seq::empty()
    } else {
        let earlier = triggered(table, file, checks.drop_last());
        match fires(table, file, checks.last()) {
            Some(block) => earlier.push(block),
            None => earlier,
        }
    }
}

/// No check fires on a file that does not exist.
pub proof fn lemma_missing_file_triggers_nothing(
    table: Seq<DependencyView>,
    checks: Seq<DependencyCheckView>,
)
    ensures
        triggered(table, FileStateView::Missing, checks) == Seq::<Seq<char>>::empty(),
    decreases checks.len(),
{
    if checks.len() > 0 {
        lemma_missing_file_triggers_nothing(table, checks.drop_last());
    }
}

/// Checks are evaluated one by one: the blocks of two lists of checks
/// written one after the other are the blocks of the first followed by the
/// blocks of the second.
pub proof fn lemma_triggered_concat(
    table: Seq<DependencyView>,
    file: FileStateView,
    first: Seq<DependencyCheckView>,
    second: Seq<DependencyCheckView>,
)
    ensures
        triggered(table, file, first + second) == triggered(table, file, first) + triggered(
            table,
            file,
            second,
        ),
    decreases second.len(),
{
    if second.len() == 0 {
        assert(first + second == first);
    } else {
        assert((first + second).drop_last() == first + second.drop_last());
        assert((first + second).last() == second.last());
        lemma_triggered_concat(table, file, first, second.drop_last());
    }
}

/// Whether evaluating `checks` has to read the text of the file.
pub open spec fn reads_text(checks: Seq<DependencyCheckView>) -> bool {
    exists|i: int| 0 <= i < checks.len() && #[trigger] checks[i] is Contains
}

/// Evaluates dependency checks against the dependency table of one profile.
pub struct DependencyAnalyzer<'a> {
    pub app: &'a App,
}

impl<'a> DependencyAnalyzer<'a> {
    /// The analyzer that goes by the dependency table of `app`.
    pub fn new(app: &'a App) -> (analyzer: Self)
        ensures
            analyzer.app == app,
    {
        DependencyAnalyzer { app }
    }

    /// Looks `rule` up in the profile's dependency table.
    pub fn block_of(&self, rule: &String) -> (block: Option<String>)
        ensures
            match block {
                Some(text) => lookup(self.app.table(), rule@) == Some(text@),
                None => lookup(self.app.table(), rule@) is None,
            },
    {
        match &self.app.dependencies {
            None => None,
            Some(dependencies) => {
                let ghost table = dependency_views(dependencies@);
                let mut i: usize = dependencies.len();
                assert(table.take(i as int) == table);
                while i > 0
                    invariant
                        i <= dependencies.len(),
                        table == dependency_views(dependencies@),
                        table == self.app.table(),
                        lookup(table, rule@) == lookup(table.take(i as int), rule@),
                    decreases i,
                {
                    i -= 1;
                    proof {
                        let upto = table.take(i + 1);
                        assert(upto.drop_last() == table.take(i as int));
                        assert(upto.last() == dependencies@[i as int]@);
                    }
                    if dependencies[i].name == *rule {
                        return Some(dependencies[i].block.clone());
                    }
                }
                assert(table.take(0).len() == 0);
                None
            },
        }
    }

    /// Evaluates every check against one file and returns the blocks to
    /// surface, one for each check that fires, in the order of the checks.
    ///
    /// The evaluation fails exactly when some check needs the text of a file
    /// that exists but cannot be read.
    pub fn analyze(&self, file: &FileState, checks: &Vec<DependencyCheck>) -> (r: Result<
        Vec<String>,
        AnalyzeError,
    >)
        ensures
            surfaces(evaluation(self.app.table(), file@, Some(check_views(checks@))), r),
    {
        let ghost table = self.app.table();
        let ghost all = check_views(checks@);
        let mut blocks: Vec<String> = Vec::new();
        let mut i: usize = 0;
        while i < checks.len()
            invariant
                i <= checks.len(),
                table == self.app.table(),
                all == check_views(checks@),
                string_views(blocks@) == triggered(table, file@, all.take(i as int)),
                file@ is Unreadable ==> !reads_text(all.take(i as int)),
            decreases checks.len() - i,
        {
            let ghost before = string_views(blocks@);
            proof {
                let upto = all.take(i + 1);
                assert(upto.drop_last() == all.take(i as int));
                assert(upto.last() == checks@[i as int]@);
            }
            let fired: bool = match &checks[i] {
                DependencyCheck::Exists(_) => match file {
                    FileState::Missing => false,
                    _ => true,
                },
                DependencyCheck::Contains(needle, _) => match file {
                    FileState::Missing => false,
                    FileState::Present(text) => contains(text.as_str(), needle.as_str()),
                    FileState::Unreadable => {
                        assert(all[i as int] is Contains);
                        return Err(AnalyzeError::Unreadable);
                    },
                },
            };
            assert(fired == holds(file@, all[i as int]));
            if fired {
                let rule: &String = match &checks[i] {
                    DependencyCheck::Exists(rule) => rule,
                    DependencyCheck::Contains(_, rule) => rule,
                };
                match self.block_of(rule) {
                    Some(block) => {
                        blocks.push(block);
                        assert(string_views(blocks@) == before.push(block@));
                    },
                    None => {},
                }
            }
            proof {
                let upto = all.take(i + 1);
                if file@ is Unreadable && reads_text(upto) {
                    let k = choose|k: int| 0 <= k < upto.len() && #[trigger] upto[k] is Contains;
                    if k < i {
                        assert(all.take(i as int)[k] is Contains);
                    }
                }
            }
            i += 1;
        }
        assert(all.take(i as int) == all);
        Ok(blocks)
    }
}

/// What the caller found for one file that a profile copies: the name of
/// the file as the profile writes it, what is on disk at its path, and the
/// checks that apply to it, if any.
#[derive(Clone, Debug, PartialEq, Eq)]
pub struct FileProbe {
    pub file_name: String,
    pub state: FileState,
    pub checks: Option<Vec<DependencyCheck>>,
}

/// The mathematical value of a [`FileProbe`].
pub struct FileProbeView {
    pub file_name: Seq<char>,
    pub state: FileStateView,
    pub checks: Option<Seq<DependencyCheckView>>,
}

impl View for FileProbe {
    type V = FileProbeView;

    open spec fn view(&self) -> FileProbeView {
        FileProbeView {
            file_name: self.file_name@,
            state: self.state@,
            checks: match self.checks {
                Some(checks) => Some(check_views(checks@)),
                None => None,
            },
        }
    }
}

/// The values of a list of probes, in order.
pub open spec fn probe_views(probes: Seq<FileProbe>) -> Seq<FileProbeView> {
    Seq::new(probes.len(), |i: int| probes[i]@)
}

/// The outcome of evaluating the checks of one file: nothing where no
/// checks apply; a failure where a check needs the text of a file that
/// cannot be read; else the blocks of the checks that fire.
pub open spec fn evaluation(
    table: Seq<DependencyView>,
    file: FileStateView,
    checks: Option<Seq<DependencyCheckView>>,
) -> Result<Seq<Seq<char>>, AnalyzeError> {
    match checks {
        None => Ok(Seq::empty()),
        Some(list) => if file is Unreadable && reads_text(list) {
            Err(AnalyzeError::Unreadable)
        } else {
            Ok(triggered(table, file, list))
        },
    }
}

/// The first probe for the file `file_name`, if there is one.
pub open spec fn probe_for(probes: Seq<FileProbeView>, file_name: Seq<char>) -> Option<
    FileProbeView,
>
    decreases probes.len(),
{
    if probes.len() == 0 {
        None
    } else if probes[0].file_name == file_name {
        Some(probes[0])
    } else {
        probe_for(probes.skip(1), file_name)
    }
}

/// What one action surfaces: for a copy, the evaluation of the probe of
/// its file, where there is one; nothing for any other action.
pub open spec fn surfaced(
    table: Seq<DependencyView>,
    probes: Seq<FileProbeView>,
    action: ActionView,
) -> Result<Seq<Seq<char>>, AnalyzeError> {
    match action {
        ActionView::Copy(file_name) => match probe_for(probes, file_name) {
            Some(probe) => evaluation(table, probe.state, probe.checks),
            None => Ok(Seq::empty()),
        },
        _ => Ok(Seq::empty()),
    }
}

/// What the actions surface, taken in order: the blocks of each action
/// after those of the actions before it, or the first failure.
pub open spec fn run_outcome(
    table: Seq<DependencyView>,
    probes: Seq<FileProbeView>,
    actions: Seq<ActionView>,
) -> Result<Seq<Seq<char>>, AnalyzeError>
    decreases actions.len(),
{
    if actions.len() == 0 {
        Ok(Seq::empty())
    } else {
        match run_outcome(table, probes, actions.drop_last()) {
            Err(error) => Err(error),
            Ok(earlier) => match surfaced(table, probes, actions.last()) {
                Err(error) => Err(error),
                Ok(more) => Ok(earlier + more),
            },
        }
    }
}

/// Whether `got` holds the blocks of `outcome`, or is its failure.
pub open spec fn surfaces(
    outcome: Result<Seq<Seq<char>>, AnalyzeError>,
    got: Result<Vec<String>, AnalyzeError>,
) -> bool {
    match outcome {
        Ok(blocks) => got matches Ok(texts) && string_views(texts@) == blocks,
        Err(error) => got == Err::<Vec<String>, AnalyzeError>(error),
    }
}

impl<'a> DependencyAnalyzer<'a> {
    /// The hook for one file that is about to be copied: evaluates the
    /// checks that apply to the file, where there are any.
    pub fn handle_file(&self, file: &FileState, checks: &Option<Vec<DependencyCheck>>) -> (got:
        Result<Vec<String>, AnalyzeError>)
        ensures
            surfaces(
                evaluation(
                    self.app.table(),
                    file@,
                    match *checks {
                        Some(list) => Some(check_views(list@)),
                        None => None,
                    },
                ),
                got,
            ),
    {
        match checks {
            Some(list) => self.analyze(file, list),
            None => {
                let blocks: Vec<String> = Vec::new();
                assert(string_views(blocks@) == Seq::<Seq<char>>::empty());
                Ok(blocks)
            },
        }
    }

    /// The hook for a pattern whose matches are about to be copied:
    /// surfaces nothing.
    pub fn handle_files(&self, pattern: &str) -> (got: Result<Vec<String>, AnalyzeError>)
        ensures
            surfaces(Ok(Seq::empty()), got),
    {
        let blocks: Vec<String> = Vec::new();
        assert(string_views(blocks@) == Seq::<Seq<char>>::empty());
        Ok(blocks)
    }

    /// The hook for a command that is about to be run, with the working
    /// directory that overrides the usual one, if any: surfaces nothing.
    pub fn handle_execute(&self, command: &str, directory: &Option<String>) -> (got: Result<
        Vec<String>,
        AnalyzeError,
    >)
        ensures
            surfaces(Ok(Seq::empty()), got),
    {
        let blocks: Vec<String> = Vec::new();
        assert(string_views(blocks@) == Seq::<Seq<char>>::empty());
        Ok(blocks)
    }
}

/// Finds the first probe for the file `file_name`.
fn find_probe<'p>(probes: &'p Vec<FileProbe>, file_name: &String) -> (found: Option<&'p FileProbe>)
    ensures
        match probe_for(probe_views(probes@), file_name@) {
            Some(probe) => found matches Some(entry) && entry@ == probe,
            None => found is None,
        },
{
    let ghost all = probe_views(probes@);
    let mut i: usize = 0;
    assert(all.skip(0) == all);
    while i < probes.len()
        invariant
            i <= probes.len(),
            all == probe_views(probes@),
            probe_for(all, file_name@) == probe_for(all.skip(i as int), file_name@),
        decreases probes.len() - i,
    {
        proof {
            let rest = all.skip(i as int);
            assert(rest[0] == probes@[i as int]@);
            assert(rest.skip(1) == all.skip(i + 1));
        }
        if probes[i].file_name == *file_name {
            return Some(&probes[i]);
        }
        i += 1;
    }
    assert(all.skip(i as int).len() == 0);
    None
}

/// Reports the dependency blocks that apply to the files of a profile.
#[derive(Clone, Debug, PartialEq, Eq)]
pub struct DepsUseCase {
    pub app_dir: RealPath,
}

impl DepsUseCase {
    /// The use case for the application whose files lie below `app_dir`.
    pub fn new(app_dir: RealPath) -> (usecase: Self)
        ensures
            usecase.app_dir == app_dir,
    {
        Self { app_dir }
    }

    /// Where the file `file_name` of a profile is looked for: below the
    /// directory of the application.
    pub fn file_path(&self, file_name: &str) -> (path: RealPath)
        ensures
            path@ == self.app_dir@.join(file_name@),
    {
        self.app_dir.join(file_name)
    }

    /// Walks the actions of `app` in order and calls the hook of each: for
    /// a copy, the checks of the first probe for its file are evaluated,
    /// where there is one. Hands back the blocks to surface, in order, or
    /// the first failure.
    pub fn run(&self, app: &App, probes: &Vec<FileProbe>) -> (got: Result<
        Vec<String>,
        AnalyzeError,
    >)
        ensures
            surfaces(
                run_outcome(app.table(), probe_views(probes@), action_views(app.actions@)),
                got,
            ),
    {
        let analyzer = DependencyAnalyzer::new(app);
        let ghost table = app.table();
        let ghost found = probe_views(probes@);
        let ghost actions = action_views(app.actions@);
        let mut blocks: Vec<String> = Vec::new();
        let mut i: usize = 0;
        assert(string_views(blocks@) == Seq::<Seq<char>>::empty());
        while i < app.actions.len()
            invariant
                i <= app.actions.len(),
                analyzer.app == app,
                table == app.table(),
                found == probe_views(probes@),
                actions == action_views(app.actions@),
                run_outcome(table, found, actions.take(i as int)) == Ok::<
                    Seq<Seq<char>>,
                    AnalyzeError,
                >(string_views(blocks@)),
            decreases app.actions.len() - i,
        {
            proof {
                let upto = actions.take(i + 1);
                assert(upto.drop_last() == actions.take(i as int));
                assert(upto.last() == app.actions@[i as int]@);
            }
            let step = match &app.actions[i] {
                Action::Copy(file_name) => match find_probe(probes, file_name) {
                    Some(probe) => analyzer.handle_file(&probe.state, &probe.checks),
                    None => analyzer.handle_files(file_name.as_str()),
                },
                Action::CopyGlob(pattern) => analyzer.handle_files(pattern.as_str()),
                Action::Execute(command) => analyzer.handle_execute(command.as_str(), &None),
            };
            assert(surfaces(surfaced(table, found, actions[i as int]), step));
            match step {
                Err(error) => {
                    proof {
                        assert(actions.take(i + 1) == actions.take(i + 1));
                        lemma_run_outcome_fails(table, found, actions, i + 1);
                    }
                    return Err(error);
                },
                Ok(more) => {
                    let mut more = more;
                    proof {
                        lemma_string_views_concat(blocks@, more@);
                    }
                    blocks.append(&mut more);
                },
            }
            i += 1;
        }
        assert(actions.take(i as int) == actions);
        Ok(blocks)
    }
}

/// A failure among the first `n` actions is the failure of the whole walk.
pub proof fn lemma_run_outcome_fails(
    table: Seq<DependencyView>,
    probes: Seq<FileProbeView>,
    actions: Seq<ActionView>,
    n: int,
)
    requires
        0 <= n <= actions.len(),
        run_outcome(table, probes, actions.take(n)) is Err,
    ensures
        run_outcome(table, probes, actions) == run_outcome(table, probes, actions.take(n)),
    decreases actions.len() - n,
{
    if n < actions.len() {
        let upto = actions.take(n + 1);
        assert(upto.drop_last() == actions.take(n));
        lemma_run_outcome_fails(table, probes, actions, n + 1);
    } else {
        assert(actions.take(n) == actions);
    }
}

} // verus!
