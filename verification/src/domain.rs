use vstd::prelude::*;

verus! {

/// One declarative step of a profile.
#[derive(Clone, Debug, PartialEq, Eq)]
pub enum Action {
    /// Run a command.
    Execute(String),
    /// Copy one file, named relative to the context.
    Copy(String),
    /// Copy every file that matches a glob pattern.
    CopyGlob(String),
}

/// The mathematical value of an [`Action`].
pub enum ActionView {
    Execute(Seq<char>),
    Copy(Seq<char>),
    CopyGlob(Seq<char>),
}

impl View for Action {
    type V = ActionView;

    open spec fn view(&self) -> ActionView {
        match *self {
            Action::Execute(command) => ActionView::Execute(command@),
            Action::Copy(file_name) => ActionView::Copy(file_name@),
            Action::CopyGlob(pattern) => ActionView::CopyGlob(pattern@),
        }
    }
}

/// A named dependency rule and the text shown when it fires.
#[derive(Clone, Debug, PartialEq, Eq)]
pub struct Dependency {
    pub name: String,
    pub block: String,
}

/// The mathematical value of a [`Dependency`].
pub struct DependencyView {
    pub name: Seq<char>,
    pub block: Seq<char>,
}

impl View for Dependency {
    type V = DependencyView;

    open spec fn view(&self) -> DependencyView {
        DependencyView { name: self.name@, block: self.block@ }
    }
}

/// A rule evaluated against one file.
#[derive(Clone, Debug, PartialEq, Eq)]
pub enum DependencyCheck {
    /// Fires when the file exists; names the dependency to report.
    Exists(String),
    /// Fires when the file exists and its text holds the needle (first
    /// field); names the dependency to report (second field).
    Contains(String, String),
}

/// The mathematical value of a [`DependencyCheck`].
pub enum DependencyCheckView {
    Exists(Seq<char>),
    Contains(Seq<char>, Seq<char>),
}

impl View for DependencyCheck {
    type V = DependencyCheckView;

    open spec fn view(&self) -> DependencyCheckView {
        match *self {
            DependencyCheck::Exists(rule) => DependencyCheckView::Exists(rule@),
            DependencyCheck::Contains(needle, rule) => DependencyCheckView::Contains(
                needle@,
                rule@,
            ),
        }
    }
}

/// A parsed application profile.
#[derive(Clone, Debug, PartialEq, Eq)]
pub struct App {
    pub name: String,
    pub dependencies: Option<Vec<Dependency>>,
    pub actions: Vec<Action>,
}

/// The mathematical value of an [`App`].
pub struct AppView {
    pub name: Seq<char>,
    pub dependencies: Option<Seq<DependencyView>>,
    pub actions: Seq<ActionView>,
}

/// The values of a list of actions, in order.
pub open spec fn action_views(actions: Seq<Action>) -> Seq<ActionView> {
    Seq::new(actions.len(), |i: int| actions[i]@)
}

/// The values of a list of dependencies, in order.
pub open spec fn dependency_views(dependencies: Seq<Dependency>) -> Seq<DependencyView> {
    Seq::new(dependencies.len(), |i: int| dependencies[i]@)
}

/// The values of a list of checks, in order.
pub open spec fn check_views(checks: Seq<DependencyCheck>) -> Seq<DependencyCheckView> {
    Seq::new(checks.len(), |i: int| checks[i]@)
}

/// The character sequences of a list of strings, in order.
pub open spec fn string_views(strings: Seq<String>) -> Seq<Seq<char>> {
    Seq::new(strings.len(), |i: int| strings[i]@)
}

/// Appending a string appends its character sequence.
pub proof fn lemma_string_views_push(strings: Seq<String>, last: String)
    ensures
        string_views(strings.push(last)) == string_views(strings).push(last@),
{
}

/// The character sequences of two lists written one after the other are
/// those of the first followed by those of the second.
pub proof fn lemma_string_views_concat(first: Seq<String>, second: Seq<String>)
    ensures
        string_views(first + second) == string_views(first) + string_views(second),
{
}

/// Appending an action appends its value.
pub proof fn lemma_action_views_push(actions: Seq<Action>, last: Action)
    ensures
        action_views(actions.push(last)) == action_views(actions).push(last@),
{
}

impl View for App {
    type V = AppView;

    open spec fn view(&self) -> AppView {
        AppView {
            name: self.name@,
            dependencies: match self.dependencies {
                Some(dependencies) => Some(dependency_views(dependencies@)),
                None => None,
            },
            actions: action_views(self.actions@),
        }
    }
}

impl App {
    /// The dependency table of the profile: its declared dependencies in
    /// order, or none where the profile declares none.
    pub open spec fn table(&self) -> Seq<DependencyView> {
        match self.dependencies {
            Some(dependencies) => dependency_views(dependencies@),
            None => Seq::empty(),
        }
    }
}

} // verus!
