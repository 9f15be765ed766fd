use crate::domain::{action_views, lemma_action_views_push, Action, ActionView, App, AppView};
use crate::grammar::{
    action_at, block_at, block_rest, content_at, content_end, copy_at, copy_glob_at, exec_at,
    is_alphanumeric, is_escape_code, is_space, expected_name, keyword_at, lemma_action_at,
    message_of, profile_at, profile_of, profile_with_actions_of, rule_chain, rule_name,
    skip_spaces, string_at, Expected, Failure, Parsed, Rule, TextOutcome,
};
use crate::text::{chars_of, decimal_text, matches_at, occurs_at};
use vstd::prelude::*;

verus! {

/// Why a text is no profile: the index of the offending character, counted
/// in characters from the start of the text, what was needed there, and the
/// grammar rules that were being tried, innermost first.
#[derive(Clone, Debug, PartialEq, Eq)]
pub struct ParseError {
    pub position: usize,
    pub expected: Expected,
    pub rules: Vec<Rule>,
}

impl View for ParseError {
    type V = Failure;

    open spec fn view(&self) -> Failure {
        Failure { position: self.position as int, expected: self.expected, rules: self.rules@ }
    }
}

/// The name of a rule, as messages show it.
fn rule_text(rule: Rule) -> (text: &'static str)
    ensures
        text@ == rule_name(rule),
{
    match rule {
        Rule::Profile => "profile",
        Rule::Block => "block",
        Rule::Action => "action",
        Rule::Execute => "exec",
        Rule::Copy => "copy",
        Rule::CopyGlob => "copy_glob",
        Rule::Text => "string",
        Rule::Escape => "escape",
    }
}

/// What was needed, as messages show it.
fn expected_text(expected: Expected) -> (text: &'static str)
    ensures
        text@ == expected_name(expected),
{
    match expected {
        Expected::Quote => "a double quote",
        Expected::EscapeCode => "an escape code",
        Expected::OpenBrace => "an opening brace",
        Expected::Delimiter => "a semicolon or a closing brace",
        Expected::Keyword => "a keyword",
        Expected::EndOfInput => "the end of the input",
    }
}

impl ParseError {
    /// The failure of `rule` at `position` itself.
    pub fn at(position: usize, expected: Expected, rule: Rule) -> (error: ParseError)
        ensures
            error@ == Failure::at(position as int, expected, rule),
    {
        let mut rules: Vec<Rule> = Vec::new();
        rules.push(rule);
        assert(rules@ == seq![rule]);
        ParseError { position, expected, rules }
    }

    /// The failure in words: what was needed, at which character, and the
    /// chain of rules that were being tried, innermost first.
    pub fn message(&self) -> (text: String)
        ensures
            text@ == message_of(self@),
    {
        let mut text = "expected ".to_owned();
        text.append(expected_text(self.expected));
        text.append(" at character ");
        text.append(decimal_text(self.position).as_str());
        let ghost head = text@;
        let mut i: usize = 0;
        while i < self.rules.len()
            invariant
                i <= self.rules.len(),
                text@ == head + rule_chain(self.rules@.take(i as int)),
            decreases self.rules.len() - i,
        {
            proof {
                let upto = self.rules@.take(i + 1);
                assert(upto.drop_last() == self.rules@.take(i as int));
                assert(upto.last() == self.rules@[i as int]);
            }
            text.append(" in ");
            text.append(rule_text(self.rules[i]));
            assert(text@ == head + rule_chain(self.rules@.take(i + 1)));
            i += 1;
        }
        assert(self.rules@.take(i as int) == self.rules@);
        text
    }

    /// The same failure, seen from the enclosing rule `rule`.
    pub fn within(self, rule: Rule) -> (error: ParseError)
        ensures
            error@ == self@.within(rule),
    {
        let mut rules = self.rules;
        rules.push(rule);
        ParseError { position: self.position, expected: self.expected, rules }
    }
}

/// Whether `got` is what a rule with the outcome `outcome` hands back on
/// `input`: the rest of the input and the text that was read, or the
/// failure.
pub open spec fn reads_text(
    input: Seq<char>,
    outcome: TextOutcome,
    got: Result<(&str, &str), ParseError>,
) -> bool {
    match outcome {
        Ok(parsed) => got matches Ok((rest, value)) && rest@ == input.skip(parsed.end) && value@
            == parsed.value,
        Err(failure) => got matches Err(error) && error@ == failure,
    }
}

/// Where a text was read: its value is the characters from `start` to
/// `end`, and the rule that read it consumed the input up to `after`.
struct Span {
    start: usize,
    end: usize,
    after: usize,
}

/// Whether `got` is the place of what a string rule with the outcome
/// `outcome` read in `s`, or its failure.
spec fn spans(s: Seq<char>, outcome: TextOutcome, got: Result<Span, ParseError>) -> bool {
    match outcome {
        Ok(parsed) => {
            &&& got matches Ok(span)
            &&& span.start <= span.end <= span.after <= s.len()
            &&& span.after == parsed.end
            &&& s.subrange(span.start as int, span.end as int) == parsed.value
        },
        Err(failure) => got matches Err(error) && error@ == failure,
    }
}

fn space(c: char) -> (r: bool)
    ensures
        r == is_space(c),
{
    c == ' ' || c == '\t' || c == '\r' || c == '\n'
}

fn alphanumeric(c: char) -> (r: bool)
    ensures
        r == is_alphanumeric(c),
{
    (c >= '0' && c <= '9') || (c >= 'a' && c <= 'z') || (c >= 'A' && c <= 'Z')
}

fn escape_code(c: char) -> (r: bool)
    ensures
        r == is_escape_code(c),
{
    c == '"' || c == 'n' || c == '\\'
}

fn skip_spaces_from(chars: &Vec<char>, at: usize) -> (end: usize)
    requires
        at <= chars.len(),
    ensures
        end == skip_spaces(chars@, at as int),
        at <= end <= chars.len(),
{
    let mut i: usize = at;
    while i < chars.len() && space(chars[i])
        invariant
            at <= i <= chars.len(),
            skip_spaces(chars@, at as int) == skip_spaces(chars@, i as int),
        decreases chars.len() - i,
    {
        i += 1;
    }
    i
}

fn content_end_from(chars: &Vec<char>, at: usize) -> (got: Result<usize, ParseError>)
    requires
        at <= chars.len(),
    ensures
        match content_end(chars@, at as int) {
            Ok(j) => got == Ok::<usize, ParseError>(j as usize) && at <= j <= chars.len(),
            Err(failure) => got matches Err(error) && error@ == failure,
        },
{
    let mut i: usize = at;
    while i < chars.len()
        invariant
            at <= i <= chars.len(),
            content_end(chars@, at as int) == content_end(chars@, i as int),
        decreases chars.len() - i,
    {
        if alphanumeric(chars[i]) {
            i += 1;
        } else if chars[i] == '\\' {
            if i + 1 < chars.len() && escape_code(chars[i + 1]) {
                i += 2;
            } else {
                return Err(ParseError::at(i + 1, Expected::EscapeCode, Rule::Escape));
            }
        } else {
            return Ok(i);
        }
    }
    Ok(i)
}

fn string_from(chars: &Vec<char>, at: usize) -> (got: Result<Span, ParseError>)
    requires
        at <= chars.len(),
    ensures
        spans(chars@, string_at(chars@, at as int), got),
{
    if !(at < chars.len() && chars[at] == '"') {
        return Err(ParseError::at(at, Expected::Quote, Rule::Text));
    }
    match content_end_from(chars, at + 1) {
        Err(error) => Err(error.within(Rule::Text)),
        Ok(j) => {
            if j < chars.len() && chars[j] == '"' {
                Ok(Span { start: at + 1, end: j, after: j + 1 })
            } else {
                Err(ParseError::at(j, Expected::Quote, Rule::Text))
            }
        },
    }
}

fn keyword_from(chars: &Vec<char>, at: usize, word: &str, rule: Rule) -> (got: Result<
    Span,
    ParseError,
>)
    requires
        at <= chars.len(),
    ensures
        spans(chars@, keyword_at(chars@, at as int, word@, rule), got),
{
    let letters = chars_of(word);
    if letters.len() <= chars.len() - at && matches_at(chars, &letters, at) {
        let start = skip_spaces_from(chars, at + letters.len());
        match string_from(chars, start) {
            Ok(span) => Ok(span),
            Err(error) => Err(error.within(rule)),
        }
    } else {
        Err(ParseError::at(at, Expected::Keyword, rule))
    }
}

/// Whether the keyword `word` stands in `chars` at `at`.
fn stands_at(chars: &Vec<char>, at: usize, word: &str) -> (r: bool)
    requires
        at <= chars.len(),
    ensures
        r == occurs_at(chars@, word@, at as int),
{
    let letters = chars_of(word);
    letters.len() <= chars.len() - at && matches_at(chars, &letters, at)
}

/// The text of `input` between two character indices.
fn slice<'a>(input: &'a str, from: usize, to: usize) -> (part: &'a str)
    requires
        from <= to <= input@.len(),
    ensures
        part@ == input@.subrange(from as int, to as int),
{
    input.substring_char(from, to)
}

/// Hands back what a text rule read at the start of `input`.
fn hand_back<'a>(input: &'a str, chars: &Vec<char>, got: Result<Span, ParseError>) -> (back: Result<
    (&'a str, &'a str),
    ParseError,
>)
    requires
        chars@ == input@,
        got matches Ok(span) ==> span.start <= span.end <= span.after <= chars.len(),
    ensures
        forall|outcome: TextOutcome| #[trigger]
            spans(chars@, outcome, got) ==> reads_text(input@, outcome, back),
{
    match got {
        Err(error) => Err(error),
        Ok(span) => {
            let value = slice(input, span.start, span.end);
            let rest = slice(input, span.after, chars.len());
            Ok((rest, value))
        },
    }
}

/// Splits `input` into its leading spaces and the rest: the rest first,
/// then the spaces.
pub fn sp(input: &str) -> (parts: (&str, &str))
    ensures
        parts.0@ == input@.skip(skip_spaces(input@, 0)),
        parts.1@ == input@.take(skip_spaces(input@, 0)),
{
    let chars = chars_of(input);
    let end = skip_spaces_from(&chars, 0);
    (slice(input, end, chars.len()), slice(input, 0, end))
}

/// Reads the content of a string at the start of `input`, up to the first
/// character that is no part of it.
pub fn parse_str(input: &str) -> (got: Result<(&str, &str), ParseError>)
    ensures
        reads_text(input@, content_at(input@, 0), got),
{
    let chars = chars_of(input);
    let got = match content_end_from(&chars, 0) {
        Ok(end) => Ok(Span { start: 0, end, after: end }),
        Err(error) => Err(error),
    };
    assert(spans(chars@, content_at(input@, 0), got));
    hand_back(input, &chars, got)
}

/// Reads a string at the start of `input`. The value is the content as
/// written, without the quotes.
pub fn string(input: &str) -> (got: Result<(&str, &str), ParseError>)
    ensures
        reads_text(input@, string_at(input@, 0), got),
{
    let chars = chars_of(input);
    let got = string_from(&chars, 0);
    hand_back(input, &chars, got)
}

/// Reads the rule `exec` at the start of `input`; the value is the command.
pub fn parse_exec(input: &str) -> (got: Result<(&str, &str), ParseError>)
    ensures
        reads_text(input@, exec_at(input@, 0), got),
{
    let chars = chars_of(input);
    let got = keyword_from(&chars, 0, "exec", Rule::Execute);
    hand_back(input, &chars, got)
}

/// Reads the rule `copy` at the start of `input`; the value is the file
/// name.
pub fn parse_copy(input: &str) -> (got: Result<(&str, &str), ParseError>)
    ensures
        reads_text(input@, copy_at(input@, 0), got),
{
    let chars = chars_of(input);
    let got = keyword_from(&chars, 0, "copy", Rule::Copy);
    hand_back(input, &chars, got)
}

/// Reads the rule `copy_glob` at the start of `input`; the value is the
/// pattern.
pub fn parse_copy_glob(input: &str) -> (got: Result<(&str, &str), ParseError>)
    ensures
        reads_text(input@, copy_glob_at(input@, 0), got),
{
    let chars = chars_of(input);
    let got = keyword_from(&chars, 0, "copy_glob", Rule::CopyGlob);
    hand_back(input, &chars, got)
}

/// Reads the rule `profile` at the start of `input`; the value is the name
/// of the profile.
pub fn root(input: &str) -> (got: Result<(&str, &str), ParseError>)
    ensures
        reads_text(input@, profile_at(input@, 0), got),
{
    let chars = chars_of(input);
    let start = skip_spaces_from(&chars, 0);
    let got = keyword_from(&chars, start, "app", Rule::Profile);
    hand_back(input, &chars, got)
}

/// Whether `got` is what the rule `action` with the outcome `outcome` hands
/// back on `input`: the rest of the input and the action, or the failure.
pub open spec fn reads_action(
    input: Seq<char>,
    outcome: Result<Parsed<ActionView>, Failure>,
    got: Result<(&str, Action), ParseError>,
) -> bool {
    match outcome {
        Ok(parsed) => got matches Ok((rest, action)) && rest@ == input.skip(parsed.end) && action@
            == parsed.value,
        Err(failure) => got matches Err(error) && error@ == failure,
    }
}

/// Whether `got` is what the rule `block` with the outcome `outcome` hands
/// back on `input`: the rest of the input and the actions in order, or the
/// failure.
pub open spec fn reads_actions(
    input: Seq<char>,
    outcome: Result<Parsed<Seq<ActionView>>, Failure>,
    got: Result<(&str, Vec<Action>), ParseError>,
) -> bool {
    match outcome {
        Ok(parsed) => got matches Ok((rest, actions)) && rest@ == input.skip(parsed.end)
            && action_views(actions@) == parsed.value,
        Err(failure) => got matches Err(error) && error@ == failure,
    }
}

/// Whether `got` is the profile that `outcome` describes, or its failure.
pub open spec fn reads_profile(outcome: Result<AppView, Failure>, got: Result<App, ParseError>) -> bool {
    match outcome {
        Ok(profile) => got matches Ok(app) && app@ == profile,
        Err(failure) => got matches Err(error) && error@ == failure,
    }
}

/// The text that a span covers, as an owned string.
fn text_of(input: &str, chars: &Vec<char>, span: &Span) -> (text: String)
    requires
        chars@ == input@,
        span.start <= span.end <= chars.len(),
    ensures
        text@ == chars@.subrange(span.start as int, span.end as int),
{
    slice(input, span.start, span.end).to_owned()
}

fn action_from(input: &str, chars: &Vec<char>, at: usize) -> (got: Result<
    (Action, usize),
    ParseError,
>)
    requires
        chars@ == input@,
        at <= chars.len(),
    ensures
        match action_at(chars@, at as int) {
            Ok(parsed) => {
                &&& got matches Ok((action, after))
                &&& action@ == parsed.value
                &&& after == parsed.end
                &&& at < after <= chars.len()
            },
            Err(failure) => got matches Err(error) && error@ == failure,
        },
{
    proof {
        lemma_action_at(chars@, at as int);
    }
    let start = skip_spaces_from(chars, at);
    if stands_at(chars, start, "copy_glob") {
        match keyword_from(chars, start, "copy_glob", Rule::CopyGlob) {
            Ok(span) => Ok((Action::CopyGlob(text_of(input, chars, &span)), span.after)),
            Err(error) => Err(error.within(Rule::Action)),
        }
    } else if stands_at(chars, start, "copy") {
        match keyword_from(chars, start, "copy", Rule::Copy) {
            Ok(span) => Ok((Action::Copy(text_of(input, chars, &span)), span.after)),
            Err(error) => Err(error.within(Rule::Action)),
        }
    } else if stands_at(chars, start, "exec") {
        match keyword_from(chars, start, "exec", Rule::Execute) {
            Ok(span) => Ok((Action::Execute(text_of(input, chars, &span)), span.after)),
            Err(error) => Err(error.within(Rule::Action)),
        }
    } else {
        Err(ParseError::at(start, Expected::Keyword, Rule::Action))
    }
}

fn block_from(input: &str, chars: &Vec<char>, at: usize) -> (got: Result<
    (Vec<Action>, usize),
    ParseError,
>)
    requires
        chars@ == input@,
        at <= chars.len(),
    ensures
        match block_at(chars@, at as int) {
            Ok(parsed) => {
                &&& got matches Ok((actions, after))
                &&& action_views(actions@) == parsed.value
                &&& after == parsed.end
                &&& after <= chars.len()
            },
            Err(failure) => got matches Err(error) && error@ == failure,
        },
{
    if !(at < chars.len() && chars[at] == '{') {
        return Err(ParseError::at(at, Expected::OpenBrace, Rule::Block));
    }
    let mut done: Vec<Action> = Vec::new();
    let mut i: usize = match action_from(input, chars, at + 1) {
        Err(error) => {
            return Err(error.within(Rule::Block));
        },
        Ok((first, after)) => {
            proof {
                lemma_action_views_push(done@, first);
                assert(action_views(done@).push(first@) == seq![first@]);
            }
            done.push(first);
            after
        },
    };
    loop
        invariant
            chars@ == input@,
            i <= chars.len(),
            block_at(chars@, at as int) == block_rest(chars@, i as int, action_views(done@)),
        decreases chars.len() - i,
    {
        let j = skip_spaces_from(chars, i);
        if j < chars.len() && chars[j] == '}' {
            return Ok((done, j + 1));
        } else if j < chars.len() && chars[j] == ';' {
            match action_from(input, chars, j + 1) {
                Err(error) => {
                    return Err(error.within(Rule::Block));
                },
                Ok((next, after)) => {
                    proof {
                        lemma_action_views_push(done@, next);
                    }
                    done.push(next);
                    i = after;
                },
            }
        } else {
            return Err(ParseError::at(j, Expected::Delimiter, Rule::Block));
        }
    }
}

/// Reads one action at the start of `input`, after optional spaces.
pub fn parse_action(input: &str) -> (got: Result<(&str, Action), ParseError>)
    ensures
        reads_action(input@, action_at(input@, 0), got),
{
    let chars = chars_of(input);
    match action_from(input, &chars, 0) {
        Ok((action, after)) => Ok((slice(input, after, chars.len()), action)),
        Err(error) => Err(error),
    }
}

/// Reads one block of actions at the start of `input`: `{`, one action or
/// more with `;` between them, and `}`.
pub fn parse_actions(input: &str) -> (got: Result<(&str, Vec<Action>), ParseError>)
    ensures
        reads_actions(input@, block_at(input@, 0), got),
{
    let chars = chars_of(input);
    match block_from(input, &chars, 0) {
        Ok((actions, after)) => Ok((slice(input, after, chars.len()), actions)),
        Err(error) => Err(error),
    }
}

/// Reads a whole profile text: the rule `profile`, around which spaces may
/// stand and after which nothing else may follow.
///
/// The profile that comes back has the name that was read and no actions:
/// a block of actions is no part of the rule `profile`, so a text that
/// goes on with one is refused as holding more than a profile. A block is
/// read by `parse_actions`, from the rest that `root` hands back.
pub fn parse(input: &str) -> (got: Result<App, ParseError>)
    ensures
        reads_profile(profile_of(input@), got),
{
    let chars = chars_of(input);
    let start = skip_spaces_from(&chars, 0);
    match keyword_from(&chars, start, "app", Rule::Profile) {
        Err(error) => Err(error),
        Ok(span) => {
            let end = skip_spaces_from(&chars, span.after);
            if end == chars.len() {
                let actions: Vec<Action> = Vec::new();
                assert(action_views(actions@) == Seq::<ActionView>::empty());
                Ok(App { name: text_of(input, &chars, &span), dependencies: None, actions })
            } else {
                Err(ParseError::at(end, Expected::EndOfInput, Rule::Profile))
            }
        },
    }
}

/// Reads a whole profile text in which a block of actions may follow the
/// name: the rule `profile`, then, where anything but spaces follows, the
/// rule `block`, after which nothing but spaces may follow. The actions of
/// the block become the actions of the profile.
pub fn parse_with_actions(input: &str) -> (got: Result<App, ParseError>)
    ensures
        reads_profile(profile_with_actions_of(input@), got),
{
    let chars = chars_of(input);
    let start = skip_spaces_from(&chars, 0);
    match keyword_from(&chars, start, "app", Rule::Profile) {
        Err(error) => Err(error),
        Ok(span) => {
            let name = text_of(input, &chars, &span);
            let next = skip_spaces_from(&chars, span.after);
            if next == chars.len() {
                let actions: Vec<Action> = Vec::new();
                assert(action_views(actions@) == Seq::<ActionView>::empty());
                return Ok(App { name, dependencies: None, actions });
            }
            match block_from(input, &chars, next) {
                Err(error) => Err(error.within(Rule::Profile)),
                Ok((actions, after)) => {
                    let end = skip_spaces_from(&chars, after);
                    if end == chars.len() {
                        Ok(App { name, dependencies: None, actions })
                    } else {
                        Err(ParseError::at(end, Expected::EndOfInput, Rule::Profile))
                    }
                },
            }
        },
    }
}

} // verus!
