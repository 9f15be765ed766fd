use crate::domain::{lemma_string_views_push, string_views};
use crate::text::chars_of;
use vstd::prelude::*;

verus! {

/// The character that parts the segments of a path in its text form.
pub const SEPARATOR: char = '/';

/// A path as a value: whether it starts at the root, and its segments from
/// the outermost inwards.
pub struct PathView {
    pub absolute: bool,
    pub segments: Seq<Seq<char>>,
}

/// A segment is a non-empty run of characters without a separator.
pub open spec fn is_segment(s: Seq<char>) -> bool {
    &&& s.len() > 0
    &&& forall|i: int| 0 <= i < s.len() ==> s[i] != SEPARATOR
}

/// Whether every entry of `segments` is a segment.
pub open spec fn all_segments(segments: Seq<Seq<char>>) -> bool {
    forall|i: int| 0 <= i < segments.len() ==> is_segment(#[trigger] segments[i])
}

/// The segments of a path text: its maximal runs of characters other than
/// the separator, in order. Leading, trailing and repeated separators part
/// segments and add none.
pub open spec fn split(text: Seq<char>) -> Seq<Seq<char>>
    decreases text.len(),
{
    if text.len() == 0 {
        Seq::empty()
    } else {
        let before = text.drop_last();
        let earlier = split(before);
        if text.last() == SEPARATOR {
            earlier
        } else if before.len() == 0 || before.last() == SEPARATOR || earlier.len() == 0 {
            earlier.push(seq![text.last()])
        } else {
            earlier.drop_last().push(earlier.last().push(text.last()))
        }
    }
}

/// The segments written one after another with a separator between
/// neighbours.
pub open spec fn joined(segments: Seq<Seq<char>>) -> Seq<char>
    decreases segments.len(),
{
    if segments.len() == 0 {
        Seq::empty()
    } else if segments.len() == 1 {
        segments[0]
    } else {
        joined(segments.drop_last()) + seq![SEPARATOR] + segments.last()
    }
}

/// The path that a text denotes: absolute where the text starts with a
/// separator, with the segments of the text.
pub open spec fn path_of(text: Seq<char>) -> PathView {
    PathView { absolute: text.len() > 0 && text[0] == SEPARATOR, segments: split(text) }
}

impl PathView {
    /// Every segment is non-empty and free of separators.
    pub open spec fn well_formed(self) -> bool {
        all_segments(self.segments)
    }

    /// The text form: a leading separator where the path is absolute, then
    /// the segments with separators between them.
    pub open spec fn text(self) -> Seq<char> {
        if self.absolute {
            seq![SEPARATOR] + joined(self.segments)
        } else {
            joined(self.segments)
        }
    }

    /// This path with more segments appended.
    pub open spec fn extend(self, segments: Seq<Seq<char>>) -> PathView {
        PathView { absolute: self.absolute, segments: self.segments + segments }
    }

    /// This path with the segments of `name` appended.
    pub open spec fn join(self, name: Seq<char>) -> PathView {
        self.extend(split(name))
    }

    /// Whether this path lies at or below `base`.
    pub open spec fn is_under(self, base: PathView) -> bool {
        &&& self.absolute == base.absolute
        &&& base.segments.len() <= self.segments.len()
        &&& self.segments.take(base.segments.len() as int) == base.segments
    }

    /// The segments that lead from `base` to this path.
    pub open spec fn below(self, base: PathView) -> Seq<Seq<char>> {
        self.segments.skip(base.segments.len() as int)
    }

    /// The directory that holds this path: the path without its last
    /// segment. A path without segments is its own parent.
    pub open spec fn parent(self) -> PathView {
        if self.segments.len() == 0 {
            self
        } else {
            PathView { absolute: self.absolute, segments: self.segments.drop_last() }
        }
    }
}

/// A text that does not end in a separator has at least one segment.
pub proof fn lemma_split_last_run(text: Seq<char>)
    requires
        text.len() > 0,
        text.last() != SEPARATOR,
    ensures
        split(text).len() > 0,
        split(text).last().last() == text.last(),
        split(text).last().len() > 0,
{
}

/// Every entry of `split(text)` is a segment.
pub proof fn lemma_split_gives_segments(text: Seq<char>)
    ensures
        all_segments(split(text)),
    decreases text.len(),
{
    if text.len() > 0 {
        let before = text.drop_last();
        lemma_split_gives_segments(before);
        let earlier = split(before);
        if text.last() == SEPARATOR {
        } else if before.len() == 0 || before.last() == SEPARATOR || earlier.len() == 0 {
            assert forall|i: int| 0 <= i < split(text).len() implies is_segment(
                #[trigger] split(text)[i],
            ) by {
                if i < earlier.len() {
                    assert(split(text)[i] == earlier[i]);
                }
            }
        } else {
            assert forall|i: int| 0 <= i < split(text).len() implies is_segment(
                #[trigger] split(text)[i],
            ) by {
                if i < earlier.len() - 1 {
                    assert(split(text)[i] == earlier[i]);
                } else {
                    assert(is_segment(earlier[earlier.len() - 1]));
                }
            }
        }
    }
}

/// A separator between two texts parts their segments: the segments of
/// `a`, a separator and `b` are those of `a` followed by those of `b`.
pub proof fn lemma_split_concat(a: Seq<char>, b: Seq<char>)
    ensures
        split(a + seq![SEPARATOR] + b) == split(a) + split(b),
    decreases b.len(),
{
    let whole = a + seq![SEPARATOR] + b;
    if b.len() == 0 {
        assert(whole.drop_last() == a);
        assert(split(a) + split(b) == split(a));
    } else {
        let b0 = b.drop_last();
        let before = a + seq![SEPARATOR] + b0;
        assert(whole.drop_last() == before);
        assert(whole.last() == b.last());
        lemma_split_concat(a, b0);
        if b.last() == SEPARATOR {
        } else if b0.len() == 0 || b0.last() == SEPARATOR {
            assert(before.last() == SEPARATOR);
            assert(split(whole) == (split(a) + split(b0)).push(seq![b.last()]));
            assert(split(b) == split(b0).push(seq![b.last()]));
            assert(split(whole) == split(a) + split(b));
        } else {
            lemma_split_last_run(b0);
            assert(before.last() == b0.last());
            let earlier = split(a) + split(b0);
            assert(earlier.last() == split(b0).last());
            assert(earlier.drop_last() == split(a) + split(b0).drop_last());
            assert(split(whole) == split(a) + split(b));
        }
    }
}

/// A segment is the one segment of its own text.
pub proof fn lemma_split_segment(s: Seq<char>)
    requires
        is_segment(s),
    ensures
        split(s) == seq![s],
    decreases s.len(),
{
    let before = s.drop_last();
    if before.len() == 0 {
        assert(split(before).len() == 0);
        assert(seq![s.last()] == s);
        assert(split(s) == seq![s]);
    } else {
        assert(is_segment(before));
        lemma_split_segment(before);
        assert(before.push(s.last()) == s);
        assert(split(s) == seq![s]);
    }
}

/// Splitting the joined form of segments gives the segments back.
pub proof fn lemma_split_joined(segments: Seq<Seq<char>>)
    requires
        all_segments(segments),
    ensures
        split(joined(segments)) == segments,
        segments.len() > 0 ==> joined(segments).len() > 0 && joined(segments)[0] != SEPARATOR,
    decreases segments.len(),
{
    if segments.len() == 0 {
    } else if segments.len() == 1 {
        assert(is_segment(segments[0]));
        lemma_split_segment(segments[0]);
        assert(seq![segments[0]] == segments);
    } else {
        let front = segments.drop_last();
        assert(all_segments(front)) by {
            assert forall|i: int| 0 <= i < front.len() implies is_segment(#[trigger] front[i]) by {
                assert(front[i] == segments[i]);
            }
        }
        lemma_split_joined(front);
        assert(is_segment(segments.last()));
        lemma_split_segment(segments.last());
        lemma_split_concat(joined(front), segments.last());
        assert(front + seq![segments.last()] == segments);
    }
}

/// A well-formed path is the path that its own text denotes.
pub proof fn lemma_text_round_trip(path: PathView)
    requires
        path.well_formed(),
    ensures
        path_of(path.text()) == path,
{
    lemma_split_joined(path.segments);
    if path.absolute {
        lemma_split_concat(Seq::empty(), joined(path.segments));
        assert(Seq::<char>::empty() + seq![SEPARATOR] + joined(path.segments) == path.text());
        assert(split(Seq::<char>::empty()) + path.segments == path.segments);
    }
}

/// Descending by `first` and then by `second` reaches the same path as
/// descending once by the two names with a separator between them.
pub proof fn lemma_join_twice(path: PathView, first: Seq<char>, second: Seq<char>)
    ensures
        path.join(first).join(second) == path.join(first + seq![SEPARATOR] + second),
{
    lemma_split_concat(first, second);
    assert(path.segments + split(first) + split(second) == path.segments + (split(first)
        + split(second)));
}

/// Descending keeps a well-formed path well-formed, appends exactly the
/// segments of the name and leaves the earlier segments in place.
pub proof fn lemma_join_appends(path: PathView, name: Seq<char>)
    ensures
        path.join(name).is_under(path),
        path.join(name).below(path) == split(name),
        path.well_formed() ==> path.join(name).well_formed(),
{
    lemma_split_gives_segments(name);
    let joined = path.join(name);
    assert(joined.segments.take(path.segments.len() as int) == path.segments);
    assert(joined.segments.skip(path.segments.len() as int) == split(name));
    if path.well_formed() {
        assert forall|i: int| 0 <= i < joined.segments.len() implies is_segment(
            #[trigger] joined.segments[i],
        ) by {
            if i < path.segments.len() {
                assert(joined.segments[i] == path.segments[i]);
            } else {
                assert(joined.segments[i] == split(name)[i - path.segments.len()]);
            }
        }
    }
}

/// A path on the host: absolute or relative, with its segments.
///
/// Every value holds only well-formed segments, so it is the path that its
/// own text denotes.
#[derive(Debug, PartialEq, Eq)]
pub struct RealPath {
    absolute: bool,
    segments: Vec<String>,
}

impl View for RealPath {
    type V = PathView;

    closed spec fn view(&self) -> PathView {
        PathView { absolute: self.absolute, segments: string_views(self.segments@) }
    }
}

/// Copies a list of strings.
fn copy_strings(strings: &Vec<String>) -> (copy: Vec<String>)
    ensures
        string_views(copy@) == string_views(strings@),
{
    let mut copy: Vec<String> = Vec::new();
    let mut i: usize = 0;
    while i < strings.len()
        invariant
            i <= strings.len(),
            string_views(copy@) == string_views(strings@).take(i as int),
        decreases strings.len() - i,
    {
        proof {
            lemma_string_views_push(copy@, strings@[i as int]);
        }
        copy.push(strings[i].clone());
        assert(string_views(copy@) == string_views(strings@).take(i + 1));
        i += 1;
    }
    assert(string_views(strings@).take(i as int) == string_views(strings@));
    copy
}

/// Cuts a text into its segments.
fn split_text(text: &str) -> (segments: Vec<String>)
    ensures
        string_views(segments@) == split(text@),
{
    let chars = chars_of(text);
    let mut segments: Vec<String> = Vec::new();
    let mut start: usize = 0;
    let mut i: usize = 0;
    while i < chars.len()
        invariant
            chars@ == text@,
            start <= i <= chars.len(),
            forall|j: int| start <= j < i ==> chars@[j] != SEPARATOR,
            start == i ==> i == 0 || chars@[i - 1] == SEPARATOR,
            split(chars@.take(i as int)) == if start < i {
                string_views(segments@).push(chars@.subrange(start as int, i as int))
            } else {
                string_views(segments@)
            },
        decreases chars.len() - i,
    {
        let ghost done = string_views(segments@);
        let ghost upto = chars@.take(i + 1);
        proof {
            assert(upto.drop_last() == chars@.take(i as int));
            assert(upto.last() == chars@[i as int]);
            if i > 0 {
                assert(chars@.take(i as int).last() == chars@[i - 1]);
            }
        }
        if chars[i] == SEPARATOR {
            if start < i {
                let run = text.substring_char(start, i);
                segments.push(run.to_owned());
                assert(string_views(segments@) == done.push(chars@.subrange(start as int, i as int)));
            }
            start = i + 1;
        } else {
            proof {
                if start < i {
                    let run = chars@.subrange(start as int, i as int);
                    assert(done.push(run).drop_last() == done);
                    assert(run.push(chars@[i as int]) == chars@.subrange(start as int, i + 1));
                } else {
                    assert(seq![chars@[i as int]] == chars@.subrange(start as int, i + 1));
                }
            }
        }
        i += 1;
    }
    assert(chars@.take(i as int) == chars@);
    if start < i {
        let ghost done = string_views(segments@);
        let run = text.substring_char(start, i);
        segments.push(run.to_owned());
        assert(string_views(segments@) == done.push(chars@.subrange(start as int, i as int)));
    }
    segments
}

impl RealPath {
    #[verifier::type_invariant]
    spec fn holds_segments(self) -> bool {
        all_segments(string_views(self.segments@))
    }

    /// The path that `text` denotes.
    pub fn from_text(text: &str) -> (path: RealPath)
        ensures
            path@ == path_of(text@),
            path@.well_formed(),
    {
        let absolute = match text.chars().next() {
            Some(first) => first == SEPARATOR,
            None => false,
        };
        let segments = split_text(text);
        proof {
            lemma_split_gives_segments(text@);
        }
        RealPath { absolute, segments }
    }

    /// The text form of the path.
    pub fn to_text(&self) -> (text: String)
        ensures
            text@ == self@.text(),
            path_of(text@) == self@,
            self@.well_formed(),
    {
        proof {
            use_type_invariant(self);
            lemma_text_round_trip(self@);
            reveal_strlit("/");
        }
        let mut text = String::new();
        if self.absolute {
            text.append("/");
        }
        let ghost lead = text@;
        let ghost all = string_views(self.segments@);
        let mut i: usize = 0;
        while i < self.segments.len()
            invariant
                i <= self.segments.len(),
                all == string_views(self.segments@),
                "/"@ == seq![SEPARATOR],
                text@ == lead + joined(all.take(i as int)),
            decreases self.segments.len() - i,
        {
            proof {
                let upto = all.take(i + 1);
                assert(upto.drop_last() == all.take(i as int));
                assert(upto.last() == self.segments@[i as int]@);
                if i == 0 {
                    assert(joined(all.take(0)) == Seq::<char>::empty());
                    assert(joined(upto) == self.segments@[0]@);
                }
            }
            if i > 0 {
                text.append("/");
            }
            text.append(self.segments[i].as_str());
            assert(text@ == lead + joined(all.take(i + 1)));
            i += 1;
        }
        assert(all.take(i as int) == all);
        text
    }

    /// The number of segments of the path.
    pub fn depth(&self) -> (depth: usize)
        ensures
            depth == self@.segments.len(),
    {
        self.segments.len()
    }

    /// Whether the path starts at the root.
    pub fn is_absolute(&self) -> (absolute: bool)
        ensures
            absolute == self@.absolute,
    {
        self.absolute
    }

    /// The path with the segments of `name` appended.
    pub fn join(&self, name: &str) -> (path: RealPath)
        ensures
            path@ == self@.join(name@),
            path@.well_formed(),
    {
        proof {
            use_type_invariant(self);
            lemma_join_appends(self@, name@);
        }
        let mut segments = copy_strings(&self.segments);
        let mut more = split_text(name);
        let ghost kept = string_views(segments@);
        let ghost added = string_views(more@);
        segments.append(&mut more);
        assert(string_views(segments@) == kept + added);
        RealPath { absolute: self.absolute, segments }
    }

    /// The path with the segments of `below` appended, whether `below`
    /// is absolute or not.
    pub fn concat(&self, below: &RealPath) -> (path: RealPath)
        ensures
            path@ == self@.extend(below@.segments),
            path@.well_formed(),
    {
        proof {
            use_type_invariant(self);
            use_type_invariant(below);
        }
        let mut segments = copy_strings(&self.segments);
        let mut more = copy_strings(&below.segments);
        let ghost kept = string_views(segments@);
        let ghost added = string_views(more@);
        segments.append(&mut more);
        assert(string_views(segments@) == kept + added);
        assert(all_segments(kept + added)) by {
            assert forall|i: int| 0 <= i < (kept + added).len() implies is_segment(
                #[trigger] (kept + added)[i],
            ) by {
                if i < kept.len() {
                    assert((kept + added)[i] == kept[i]);
                } else {
                    assert((kept + added)[i] == added[i - kept.len()]);
                }
            }
        }
        RealPath { absolute: self.absolute, segments }
    }

    /// The relative path that leads from `base` to this path, where this
    /// path lies at or below `base`.
    pub fn below(&self, base: &RealPath) -> (rest: Option<RealPath>)
        ensures
            match rest {
                Some(path) => {
                    &&& self@.is_under(base@)
                    &&& path@ == (PathView { absolute: false, segments: self@.below(base@) })
                    &&& path@.well_formed()
                },
                None => !self@.is_under(base@),
            },
    {
        proof {
            use_type_invariant(self);
        }
        if self.absolute != base.absolute || base.segments.len() > self.segments.len() {
            return None;
        }
        let ghost mine = string_views(self.segments@);
        let ghost theirs = string_views(base.segments@);
        let mut i: usize = 0;
        while i < base.segments.len()
            invariant
                i <= base.segments.len() <= self.segments.len(),
                mine == string_views(self.segments@),
                theirs == string_views(base.segments@),
                mine.take(i as int) == theirs.take(i as int),
            decreases base.segments.len() - i,
        {
            if self.segments[i] != base.segments[i] {
                assert(mine.take(theirs.len() as int)[i as int] != theirs[i as int]);
                return None;
            }
            assert(mine.take(i + 1) == mine.take(i as int).push(mine[i as int]));
            assert(theirs.take(i + 1) == theirs.take(i as int).push(theirs[i as int]));
            i += 1;
        }
        assert(theirs.take(i as int) == theirs);
        let mut segments: Vec<String> = Vec::new();
        while i < self.segments.len()
            invariant
                base.segments.len() <= i <= self.segments.len(),
                mine == string_views(self.segments@),
                all_segments(mine),
                string_views(segments@) == mine.subrange(base.segments.len() as int, i as int),
            decreases self.segments.len() - i,
        {
            proof {
                lemma_string_views_push(segments@, self.segments@[i as int]);
            }
            segments.push(self.segments[i].clone());
            assert(string_views(segments@) == mine.subrange(
                base.segments.len() as int,
                i + 1,
            ));
            i += 1;
        }
        assert(mine.subrange(base.segments.len() as int, i as int) == mine.skip(
            base.segments.len() as int,
        ));
        Some(RealPath { absolute: false, segments })
    }

    /// The directory that holds this path.
    pub fn parent(&self) -> (path: RealPath)
        ensures
            path@ == self@.parent(),
            path@.well_formed(),
    {
        proof {
            use_type_invariant(self);
        }
        let mut segments = copy_strings(&self.segments);
        let ghost all = string_views(segments@);
        if segments.len() > 0 {
            segments.pop();
            assert(string_views(segments@) == all.drop_last());
        }
        RealPath { absolute: self.absolute, segments }
    }
}

impl Clone for RealPath {
    fn clone(&self) -> (copy: RealPath)
        ensures
            copy@ == self@,
    {
        proof {
            use_type_invariant(self);
        }
        RealPath { absolute: self.absolute, segments: copy_strings(&self.segments) }
    }
}

impl Default for RealPath {
    /// The relative path without segments.
    fn default() -> (path: RealPath)
        ensures
            path@ == (PathView { absolute: false, segments: Seq::empty() }),
    {
        let segments: Vec<String> = Vec::new();
        assert(string_views(segments@) == Seq::<Seq<char>>::empty());
        RealPath { absolute: false, segments }
    }
}

} // verus!
