use crate::domain::{ActionView, AppView};
use crate::text::{decimal, occurs_at};
use vstd::prelude::*;

verus! {

/// A rule of the profile grammar.
#[derive(Clone, Copy, Debug, PartialEq, Eq)]
pub enum Rule {
    /// `profile := ws "app" ws string`
    Profile,
    /// `block := "{" action (ws ";" action)* ws "}"`
    Block,
    /// `action := ws ( exec | copy | copy_glob )`
    Action,
    /// `exec := "exec" ws string`
    Execute,
    /// `copy := "copy" ws string`
    Copy,
    /// `copy_glob := "copy_glob" ws string`
    CopyGlob,
    /// `string := '"' content '"'`
    Text,
    /// An escape sequence inside a string: a backslash and one of `"`, `n`
    /// and backslash.
    Escape,
}

/// What a rule needed at the place where the input went wrong.
#[derive(Clone, Copy, Debug, PartialEq, Eq)]
pub enum Expected {
    /// A double quote, to open or to close a string.
    Quote,
    /// One of `"`, `n` and backslash after a backslash.
    EscapeCode,
    /// The `{` that opens a block.
    OpenBrace,
    /// A `;` before the next action or the `}` that closes the block.
    Delimiter,
    /// The keyword of the rule.
    Keyword,
    /// The end of the input.
    EndOfInput,
}

/// A parse failure as a value: the index of the offending character, what
/// was needed there, and the rules that were being tried, innermost first.
pub struct Failure {
    pub position: int,
    pub expected: Expected,
    pub rules: Seq<Rule>,
}

impl Failure {
    /// The failure of `rule` at `position` itself.
    pub open spec fn at(position: int, expected: Expected, rule: Rule) -> Failure {
        Failure { position, expected, rules: seq![rule] }
    }

    /// The same failure, seen from the enclosing rule `rule`.
    pub open spec fn within(self, rule: Rule) -> Failure {
        Failure { position: self.position, expected: self.expected, rules: self.rules.push(rule) }
    }
}

/// The name of a rule, as messages show it.
pub open spec fn rule_name(rule: Rule) -> Seq<char> {
    match rule {
        Rule::Profile => "profile"@,
        Rule::Block => "block"@,
        Rule::Action => "action"@,
        Rule::Execute => "exec"@,
        Rule::Copy => "copy"@,
        Rule::CopyGlob => "copy_glob"@,
        Rule::Text => "string"@,
        Rule::Escape => "escape"@,
    }
}

/// What was needed, as messages show it.
pub open spec fn expected_name(expected: Expected) -> Seq<char> {
    match expected {
        Expected::Quote => "a double quote"@,
        Expected::EscapeCode => "an escape code"@,
        Expected::OpenBrace => "an opening brace"@,
        Expected::Delimiter => "a semicolon or a closing brace"@,
        Expected::Keyword => "a keyword"@,
        Expected::EndOfInput => "the end of the input"@,
    }
}

/// The chain of rules as messages show it: ` in ` and the name of the
/// rule, for each rule from the innermost outwards.
pub open spec fn rule_chain(rules: Seq<Rule>) -> Seq<char>
    decreases rules.len(),
{
    if rules.len() == 0 {
        Seq::empty()
    } else {
        rule_chain(rules.drop_last()) + " in "@ + rule_name(rules.last())
    }
}

/// The message of a failure: what was needed, at which character, and the
/// chain of rules.
pub open spec fn message_of(failure: Failure) -> Seq<char> {
    "expected "@ + expected_name(failure.expected) + " at character "@ + decimal(
        failure.position as nat,
    ) + rule_chain(failure.rules)
}

/// What a rule read: its value, and the index just past what it consumed.
pub struct Parsed<T> {
    pub value: T,
    pub end: int,
}

/// The outcome of a rule that reads a text.
pub type TextOutcome = Result<Parsed<Seq<char>>, Failure>;

/// The characters that may stand between tokens.
pub open spec fn is_space(c: char) -> bool {
    c == ' ' || c == '\t' || c == '\r' || c == '\n'
}

/// The characters that a string may hold as they are: ASCII letters and
/// digits.
pub open spec fn is_alphanumeric(c: char) -> bool {
    ('0' <= c && c <= '9') || ('a' <= c && c <= 'z') || ('A' <= c && c <= 'Z')
}

/// The characters that may follow a backslash inside a string.
pub open spec fn is_escape_code(c: char) -> bool {
    c == '"' || c == 'n' || c == '\\'
}

/// Whether `text` may stand between the quotes of a string: it is made of
/// alphanumeric characters and escape sequences.
pub open spec fn is_content(text: Seq<char>) -> bool
    decreases text.len(),
{
    if text.len() == 0 {
        true
    } else if is_alphanumeric(text[0]) {
        is_content(text.skip(1))
    } else if text[0] == '\\' && text.len() >= 2 && is_escape_code(text[1]) {
        is_content(text.skip(2))
    } else {
        false
    }
}

/// The index of the first character at or after `i` that is no space; the
/// length of the input where only spaces follow.
pub open spec fn skip_spaces(s: Seq<char>, i: int) -> int
    decreases s.len() - i,
{
    if 0 <= i < s.len() && is_space(s[i]) {
        skip_spaces(s, i + 1)
    } else {
        i
    }
}

/// Reads the content of a string from `i` on: the index of the first
/// character that is no part of it. Fails on a backslash that no escape
/// code follows.
pub open spec fn content_end(s: Seq<char>, i: int) -> Result<int, Failure>
    decreases s.len() - i,
{
    if !(0 <= i < s.len()) {
        Ok(i)
    } else if is_alphanumeric(s[i]) {
        content_end(s, i + 1)
    } else if s[i] == '\\' {
        if i + 1 < s.len() && is_escape_code(s[i + 1]) {
            content_end(s, i + 2)
        } else {
            Err(Failure::at(i + 1, Expected::EscapeCode, Rule::Escape))
        }
    } else {
        Ok(i)
    }
}

/// The content of a string from `i` on, as a text and where it ends.
pub open spec fn content_at(s: Seq<char>, i: int) -> TextOutcome {
    match content_end(s, i) {
        Ok(j) => Ok(Parsed { value: s.subrange(i, j), end: j }),
        Err(failure) => Err(failure),
    }
}

/// The rule `string` at index `i`: a quote, the content, a quote. The value
/// is the content as written, escape sequences included.
pub open spec fn string_at(s: Seq<char>, i: int) -> TextOutcome {
    if !(0 <= i < s.len() && s[i] == '"') {
        Err(Failure::at(i, Expected::Quote, Rule::Text))
    } else {
        match content_end(s, i + 1) {
            Err(failure) => Err(failure.within(Rule::Text)),
            Ok(j) => if j < s.len() && s[j] == '"' {
                Ok(Parsed { value: s.subrange(i + 1, j), end: j + 1 })
            } else {
                Err(Failure::at(j, Expected::Quote, Rule::Text))
            },
        }
    }
}

/// The rule `rule` at index `i`, for a rule made of the keyword `word`,
/// optional spaces and a string.
pub open spec fn keyword_at(s: Seq<char>, i: int, word: Seq<char>, rule: Rule) -> TextOutcome {
    if occurs_at(s, word, i) {
        match string_at(s, skip_spaces(s, i + word.len())) {
            Ok(parsed) => Ok(parsed),
            Err(failure) => Err(failure.within(rule)),
        }
    } else {
        Err(Failure::at(i, Expected::Keyword, rule))
    }
}

/// The keyword of the rule `exec`.
pub open spec fn exec_word() -> Seq<char> {
    "exec"@
}

/// The keyword of the rule `copy`.
pub open spec fn copy_word() -> Seq<char> {
    "copy"@
}

/// The keyword of the rule `copy_glob`.
pub open spec fn copy_glob_word() -> Seq<char> {
    "copy_glob"@
}

/// The keyword of the rule `profile`.
pub open spec fn app_word() -> Seq<char> {
    "app"@
}

/// The rule `exec` at index `i`.
pub open spec fn exec_at(s: Seq<char>, i: int) -> TextOutcome {
    keyword_at(s, i, exec_word(), Rule::Execute)
}

/// The rule `copy` at index `i`.
pub open spec fn copy_at(s: Seq<char>, i: int) -> TextOutcome {
    keyword_at(s, i, copy_word(), Rule::Copy)
}

/// The rule `copy_glob` at index `i`.
pub open spec fn copy_glob_at(s: Seq<char>, i: int) -> TextOutcome {
    keyword_at(s, i, copy_glob_word(), Rule::CopyGlob)
}

/// The outcome of an action rule as the outcome of `action`.
pub open spec fn as_action(outcome: TextOutcome, rule: Rule) -> Result<Parsed<ActionView>, Failure> {
    match outcome {
        Ok(parsed) => Ok(
            Parsed {
                value: match rule {
                    Rule::Execute => ActionView::Execute(parsed.value),
                    Rule::CopyGlob => ActionView::CopyGlob(parsed.value),
                    _ => ActionView::Copy(parsed.value),
                },
                end: parsed.end,
            },
        ),
        Err(failure) => Err(failure.within(Rule::Action)),
    }
}

/// The rule `action` at index `i`: optional spaces, then the rule whose
/// keyword stands there. Where `copy_glob` stands, it is `copy_glob` and
/// not `copy`.
pub open spec fn action_at(s: Seq<char>, i: int) -> Result<Parsed<ActionView>, Failure> {
    let j = skip_spaces(s, i);
    if occurs_at(s, copy_glob_word(), j) {
        as_action(copy_glob_at(s, j), Rule::CopyGlob)
    } else if occurs_at(s, copy_word(), j) {
        as_action(copy_at(s, j), Rule::Copy)
    } else if occurs_at(s, exec_word(), j) {
        as_action(exec_at(s, j), Rule::Execute)
    } else {
        Err(Failure::at(j, Expected::Keyword, Rule::Action))
    }
}

/// The rest of a block from index `i` on, after the actions `done`: either
/// the closing brace, or a `;` and one more action and the rest after it.
pub open spec fn block_rest(s: Seq<char>, i: int, done: Seq<ActionView>) -> Result<
    Parsed<Seq<ActionView>>,
    Failure,
>
    decreases s.len() - i,
{
    let j = skip_spaces(s, i);
    if 0 <= i && j < s.len() && s[j] == '}' {
        Ok(Parsed { value: done, end: j + 1 })
    } else if 0 <= i && j < s.len() && s[j] == ';' {
        match action_at(s, j + 1) {
            Err(failure) => Err(failure.within(Rule::Block)),
            Ok(next) => {
                proof {
                    lemma_skip_spaces(s, i);
                    lemma_action_at(s, j + 1);
                }
                block_rest(s, next.end, done.push(next.value))
            },
        }
    } else {
        Err(Failure::at(j, Expected::Delimiter, Rule::Block))
    }
}

/// The rule `block` at index `i`: `{`, one action or more with `;` between
/// them, and `}`.
pub open spec fn block_at(s: Seq<char>, i: int) -> Result<Parsed<Seq<ActionView>>, Failure> {
    if !(0 <= i < s.len() && s[i] == '{') {
        Err(Failure::at(i, Expected::OpenBrace, Rule::Block))
    } else {
        match action_at(s, i + 1) {
            Err(failure) => Err(failure.within(Rule::Block)),
            Ok(first) => block_rest(s, first.end, seq![first.value]),
        }
    }
}

/// The rule `profile` at index `i`: optional spaces, the keyword `app`,
/// optional spaces and the name as a string.
pub open spec fn profile_at(s: Seq<char>, i: int) -> TextOutcome {
    keyword_at(s, skip_spaces(s, i), app_word(), Rule::Profile)
}

/// The profile that a whole text denotes: the rule `profile`, after which
/// nothing but spaces may follow. The profile has the name that was read,
/// no dependencies and no actions.
pub open spec fn profile_of(s: Seq<char>) -> Result<AppView, Failure> {
    match profile_at(s, 0) {
        Err(failure) => Err(failure),
        Ok(parsed) => {
            let k = skip_spaces(s, parsed.end);
            if k == s.len() {
                Ok(AppView { name: parsed.value, dependencies: None, actions: Seq::empty() })
            } else {
                Err(Failure::at(k, Expected::EndOfInput, Rule::Profile))
            }
        },
    }
}

/// The profile that a whole text denotes where a block of actions may
/// follow the rule `profile`: the name that was read and, where a block
/// follows, its actions in order. Spaces may stand around both, and
/// nothing else may follow.
pub open spec fn profile_with_actions_of(s: Seq<char>) -> Result<AppView, Failure> {
    match profile_at(s, 0) {
        Err(failure) => Err(failure),
        Ok(header) => {
            let k = skip_spaces(s, header.end);
            if k == s.len() {
                Ok(AppView { name: header.value, dependencies: None, actions: Seq::empty() })
            } else {
                match block_at(s, k) {
                    Err(failure) => Err(failure.within(Rule::Profile)),
                    Ok(block) => {
                        let m = skip_spaces(s, block.end);
                        if m == s.len() {
                            Ok(
                                AppView {
                                    name: header.value,
                                    dependencies: None,
                                    actions: block.value,
                                },
                            )
                        } else {
                            Err(Failure::at(m, Expected::EndOfInput, Rule::Profile))
                        }
                    },
                }
            }
        },
    }
}

/// A text that is a profile by itself denotes the same profile where a
/// block may follow.
pub proof fn lemma_profile_without_block(s: Seq<char>)
    requires
        profile_of(s) is Ok,
    ensures
        profile_with_actions_of(s) == profile_of(s),
{
}

/// Skipping spaces stops inside the input, passes over spaces only and
/// stops at the first character that is none.
pub proof fn lemma_skip_spaces(s: Seq<char>, i: int)
    requires
        0 <= i <= s.len(),
    ensures
        i <= skip_spaces(s, i) <= s.len(),
        forall|k: int| i <= k < skip_spaces(s, i) ==> is_space(s[k]),
        skip_spaces(s, i) < s.len() ==> !is_space(s[skip_spaces(s, i)]),
    decreases s.len() - i,
{
    if i < s.len() && is_space(s[i]) {
        lemma_skip_spaces(s, i + 1);
    }
}

/// The content of a string ends inside the input; a failure lies past the
/// start and inside the input or at its end.
pub proof fn lemma_content_end(s: Seq<char>, i: int)
    requires
        0 <= i <= s.len(),
    ensures
        match content_end(s, i) {
            Ok(j) => i <= j <= s.len() && is_content(s.subrange(i, j)),
            Err(failure) => i < failure.position <= s.len(),
        },
    decreases s.len() - i,
{
    if i < s.len() {
        if is_alphanumeric(s[i]) {
            lemma_content_end(s, i + 1);
            if let Ok(j) = content_end(s, i) {
                assert(s.subrange(i, j).skip(1) == s.subrange(i + 1, j));
            }
        } else if s[i] == '\\' {
            if i + 1 < s.len() && is_escape_code(s[i + 1]) {
                lemma_content_end(s, i + 2);
                if let Ok(j) = content_end(s, i) {
                    assert(s.subrange(i, j).skip(2) == s.subrange(i + 2, j));
                }
            }
        } else {
            assert(s.subrange(i, i).len() == 0);
        }
    } else {
        assert(s.subrange(i, i).len() == 0);
    }
}

/// A string that was read lies inside the input, between two quotes, and
/// its value is content; a failure lies inside the input or at its end.
pub proof fn lemma_string_at(s: Seq<char>, i: int)
    requires
        0 <= i <= s.len(),
    ensures
        match string_at(s, i) {
            Ok(parsed) => {
                &&& i + 2 <= parsed.end <= s.len()
                &&& s[i] == '"'
                &&& s[parsed.end - 1] == '"'
                &&& parsed.value == s.subrange(i + 1, parsed.end - 1)
                &&& is_content(parsed.value)
            },
            Err(failure) => i <= failure.position <= s.len(),
        },
{
    if i < s.len() && s[i] == '"' {
        lemma_content_end(s, i + 1);
    }
}

/// A keyword rule that succeeded consumed its keyword and a string; a
/// failure lies inside the input or at its end.
pub proof fn lemma_keyword_at(s: Seq<char>, i: int, word: Seq<char>, rule: Rule)
    requires
        0 <= i <= s.len(),
    ensures
        match keyword_at(s, i, word, rule) {
            Ok(parsed) => i + word.len() + 2 <= parsed.end <= s.len() && is_content(parsed.value),
            Err(failure) => i <= failure.position <= s.len(),
        },
{
    if occurs_at(s, word, i) {
        lemma_skip_spaces(s, i + word.len());
        lemma_string_at(s, skip_spaces(s, i + word.len()));
    }
}

/// An action that was read consumed at least one character; a failure lies
/// inside the input or at its end.
pub proof fn lemma_action_at(s: Seq<char>, i: int)
    requires
        0 <= i <= s.len(),
    ensures
        match action_at(s, i) {
            Ok(parsed) => i < parsed.end <= s.len(),
            Err(failure) => i <= failure.position <= s.len(),
        },
{
    lemma_skip_spaces(s, i);
    let j = skip_spaces(s, i);
    lemma_keyword_at(s, j, copy_glob_word(), Rule::CopyGlob);
    lemma_keyword_at(s, j, copy_word(), Rule::Copy);
    lemma_keyword_at(s, j, exec_word(), Rule::Execute);
}

/// Reading content stops exactly where content ends: at the end of the
/// input, or before a character that is neither alphanumeric nor a
/// backslash.
pub proof fn lemma_content_end_of_content(s: Seq<char>, i: int, j: int)
    requires
        0 <= i <= j <= s.len(),
        is_content(s.subrange(i, j)),
        j < s.len() ==> !is_alphanumeric(s[j]) && s[j] != '\\',
    ensures
        content_end(s, i) == Ok::<int, Failure>(j),
    decreases j - i,
{
    let text = s.subrange(i, j);
    if text.len() > 0 {
        assert(text[0] == s[i]);
        if is_alphanumeric(text[0]) {
            assert(text.skip(1) == s.subrange(i + 1, j));
            lemma_content_end_of_content(s, i + 1, j);
        } else {
            assert(text[1] == s[i + 1]);
            assert(text.skip(2) == s.subrange(i + 2, j));
            lemma_content_end_of_content(s, i + 2, j);
        }
    }
}

/// A text of alphanumeric characters is content.
pub proof fn lemma_alphanumeric_is_content(text: Seq<char>)
    requires
        forall|i: int| 0 <= i < text.len() ==> is_alphanumeric(text[i]),
    ensures
        is_content(text),
    decreases text.len(),
{
    if text.len() > 0 {
        lemma_alphanumeric_is_content(text.skip(1));
    }
}

/// `content` between two quotes.
pub open spec fn quoted(content: Seq<char>) -> Seq<char> {
    seq!['"'] + content + seq!['"']
}

/// A quoted content is read back as it was written, wherever it stands and
/// whatever follows it.
pub proof fn lemma_string_round_trip(before: Seq<char>, content: Seq<char>, after: Seq<char>)
    requires
        is_content(content),
    ensures
        string_at(before + quoted(content) + after, before.len() as int) == Ok::<
            Parsed<Seq<char>>,
            Failure,
        >(Parsed { value: content, end: (before.len() + content.len() + 2) as int }),
{
    let s = before + quoted(content) + after;
    let i = before.len() as int;
    let j = i + 1 + content.len();
    assert(s[i] == '"');
    assert(s[j] == '"');
    assert(s.subrange(i + 1, j) == content);
    lemma_content_end_of_content(s, i + 1, j);
}

/// The text of the profile that has the name `name` and nothing else.
pub open spec fn profile_text(name: Seq<char>) -> Seq<char> {
    "app "@ + quoted(name)
}

/// A profile whose name is content is read back from its text with that
/// name.
pub proof fn lemma_profile_of_content(name: Seq<char>)
    requires
        is_content(name),
    ensures
        profile_of(profile_text(name)) == Ok::<AppView, Failure>(
            AppView { name, dependencies: None, actions: Seq::empty() },
        ),
{
    reveal_strlit("app ");
    reveal_strlit("app");
    let before = "app "@;
    let s = profile_text(name);
    assert(s == before + quoted(name) + Seq::<char>::empty());
    lemma_string_round_trip(before, name, Seq::empty());
    assert(s[0] == 'a' && s[3] == ' ' && s[4] == '"');
    assert(skip_spaces(s, 0) == 0);
    assert(s.subrange(0, 3) == app_word());
    assert(skip_spaces(s, 4) == 4);
    assert(skip_spaces(s, 3) == 4);
    assert(skip_spaces(s, s.len() as int) == s.len());
}

/// Round trip: a profile whose name is made of alphanumeric characters
/// only is read back from its text with that name.
pub proof fn lemma_profile_round_trip(name: Seq<char>)
    requires
        forall|i: int| 0 <= i < name.len() ==> is_alphanumeric(name[i]),
    ensures
        profile_of(profile_text(name)) == Ok::<AppView, Failure>(
            AppView { name, dependencies: None, actions: Seq::empty() },
        ),
{
    lemma_alphanumeric_is_content(name);
    lemma_profile_of_content(name);
}

} // verus!
