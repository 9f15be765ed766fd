use crate::host::{
    can_be_malformed, config_dir, expand_glob, home_dir, pattern_error_message,
    pattern_error_position,
};
use crate::path::{path_of, PathView, RealPath, SEPARATOR};
use vstd::prelude::*;

verus! {

/// Why a search gave no list of matches.
#[derive(Clone, Debug, PartialEq, Eq)]
pub enum SearchError {
    /// The glob pattern is malformed: roughly where, and why.
    Pattern { position: usize, message: String },
    /// The match at `index` does not lie under the root of the search.
    OutsideRoot { index: usize },
}

/// A place in two parallel trees: a source, where reads and matches take
/// place, and a target, where writes go.
pub trait Context: Sized {
    /// Where reads and matches take place.
    spec fn source(&self) -> PathView;

    /// Where writes go.
    spec fn target(&self) -> PathView;

    /// The context of the home directory of the host, if the host has one.
    fn home(&self) -> (found: Option<Self>);

    /// The context of the configuration directory of the host, if the host
    /// has one.
    fn config(&self) -> (found: Option<Self>);

    /// The context one step down: `name` is appended to the source and to
    /// the target alike.
    fn sub(&self, name: &str) -> (below: Self)
        ensures
            below.source() == self.source().join(name@),
            below.target() == self.target().join(name@),
    ;

    /// Expands a glob pattern below the source. The result has one entry
    /// for each match, in the order of the expansion; the entry of a match
    /// that could not be resolved is empty.
    fn search(&self, pattern: &str) -> (found: Result<Vec<Option<Self>>, SearchError>);
}

/// The pattern that a search below `root` hands to the glob expansion: the
/// text of the root, a separator and the pattern.
pub open spec fn search_pattern(root: PathView, pattern: Seq<char>) -> Seq<char> {
    root.text() + seq![SEPARATOR] + pattern
}

/// What a list of glob results resolves to, entry by entry.
pub open spec fn resolved(found: Option<String>, entry: Option<RealPath>) -> bool {
    match found {
        Some(text) => entry matches Some(path) && path@ == path_of(text@),
        None => entry is None,
    }
}

impl RealPath {
    /// The path that the host named, if it named one.
    pub fn resolve(found: Option<String>) -> (entry: Option<RealPath>)
        ensures
            resolved(found, entry),
            entry matches Some(path) ==> path@.well_formed(),
    {
        match found {
            Some(text) => Some(RealPath::from_text(text.as_str())),
            None => None,
        }
    }

    /// The paths that the host named, entry by entry: nothing where it
    /// named nothing.
    pub fn resolve_all(found: Vec<Option<String>>) -> (entries: Vec<Option<RealPath>>)
        ensures
            entries.len() == found.len(),
            forall|i: int| 0 <= i < found.len() ==> resolved(found[i], #[trigger] entries[i]),
            forall|i: int|
                0 <= i < found.len() ==> (#[trigger] entries[i] matches Some(path)
                    ==> path@.well_formed()),
    {
        let mut entries: Vec<Option<RealPath>> = Vec::new();
        let mut i: usize = 0;
        while i < found.len()
            invariant
                i <= found.len(),
                entries.len() == i,
                forall|j: int| 0 <= j < i ==> resolved(found[j], #[trigger] entries[j]),
                forall|j: int|
                    0 <= j < i ==> (#[trigger] entries[j] matches Some(path)
                        ==> path@.well_formed()),
            decreases found.len() - i,
        {
            let entry = match &found[i] {
                Some(text) => Some(RealPath::from_text(text.as_str())),
                None => None,
            };
            entries.push(entry);
            i += 1;
        }
        entries
    }

    /// The pattern that a search below this path for `pattern` expands.
    pub fn search_pattern(&self, pattern: &str) -> (full: String)
        ensures
            full@ == search_pattern(self@, pattern@),
    {
        proof {
            reveal_strlit("/");
        }
        let mut full = self.to_text();
        full.append("/");
        full.append(pattern);
        full
    }
}

impl Context for RealPath {
    /// A real path is its own source.
    open spec fn source(&self) -> PathView {
        self@
    }

    /// A real path is its own target.
    open spec fn target(&self) -> PathView {
        self@
    }

    /// The home directory of the host, whatever this path is. There is none
    /// where the host knows none.
    fn home(&self) -> (found: Option<RealPath>)
        ensures
            found matches Some(path) ==> path@.well_formed(),
    {
        RealPath::resolve(home_dir())
    }

    /// The configuration directory of the host, whatever this path is.
    /// There is none where the host knows none.
    fn config(&self) -> (found: Option<RealPath>)
        ensures
            found matches Some(path) ==> path@.well_formed(),
    {
        RealPath::resolve(config_dir())
    }

    fn sub(&self, name: &str) -> (below: RealPath)
        ensures
            below@ == self@.join(name@),
            below@.well_formed(),
    {
        self.join(name)
    }

    /// Expands `search_pattern(self, pattern)` on the host. Fails only with
    /// `SearchError::Pattern`, and never where neither the text of this
    /// path nor the pattern holds a `*` or a `[`.
    fn search(&self, pattern: &str) -> (found: Result<Vec<Option<RealPath>>, SearchError>)
        ensures
            match found {
                Ok(entries) => forall|i: int|
                    0 <= i < entries.len() ==> (#[trigger] entries[i] matches Some(path)
                        ==> path@.well_formed()),
                Err(error) => error is Pattern,
            },
            !can_be_malformed(search_pattern(self@, pattern@)) ==> found is Ok,
    {
        let full = self.search_pattern(pattern);
        match expand_glob(full.as_str()) {
            Ok(texts) => Ok(RealPath::resolve_all(texts)),
            Err(error) => Err(
                SearchError::Pattern {
                    position: pattern_error_position(&error),
                    message: pattern_error_message(&error),
                },
            ),
        }
    }
}

} // verus!
