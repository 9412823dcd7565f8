//! Patterns that a text is searched for: what can be told of one by reading it.

use vstd::prelude::*;

verus! {

/// A pattern of the `tokenizers` crate.
pub enum PatternText {
    /// A text that stands for itself.
    Literal(String),
    /// A regular expression.
    Expression(String),
}

/// Model of a [`PatternText`].
pub enum PatternModel {
    Literal(Seq<char>),
    Expression(Seq<char>),
}

impl View for PatternText {
    type V = PatternModel;

    open spec fn view(&self) -> PatternModel {
        match *self {
            PatternText::Literal(text) => PatternModel::Literal(text@),
            PatternText::Expression(text) => PatternModel::Expression(text@),
        }
    }
}

/// A character with a meaning of its own in a regular expression.
pub open spec fn is_meta(c: char) -> bool {
    ||| c == '\\' || c == '.' || c == '+' || c == '*' || c == '?' || c == '(' || c == ')'
    ||| c == '|' || c == '[' || c == ']' || c == '{' || c == '}' || c == '^' || c == '$'
    ||| c == '#' || c == '&' || c == '-' || c == '~'
}

/// The regular expression for a literal: a backslash before each character that
/// would have a meaning.
pub open spec fn escaped(text: Seq<char>) -> Seq<char>
    decreases text.len(),
{
    if text.len() == 0 {
        text
    } else if is_meta(text.last()) {
        escaped(text.drop_last()).push('\\').push(text.last())
    } else {
        escaped(text.drop_last()).push(text.last())
    }
}

/// The regular expression that is searched for.
pub open spec fn pattern_source(pattern: PatternModel) -> Seq<char> {
    match pattern {
        PatternModel::Literal(text) => escaped(text),
        PatternModel::Expression(text) => text,
    }
}

/// A character that makes, behind a backslash, more of a regular expression than
/// a search for characters: a reference to a group, or a shift of the match.
pub open spec fn refers_back(c: char) -> bool {
    '0' <= c <= '9' || c == 'k' || c == 'K' || c == 'g' || c == 'G'
}

/// In a regular expression without these characters nothing is skipped: there is
/// no comment, and no flag that makes spaces count for nothing.
pub open spec fn is_dense(expression: Seq<char>) -> bool {
    !expression.contains('x') && !expression.contains('#')
}

/// At `at` stands a question mark that makes a group refer to another group, or
/// makes a conditional of it.
pub open spec fn is_reference_mark(expression: Seq<char>, at: int) -> bool {
    &&& at + 1 < expression.len() && expression[at] == '?'
    &&& expression[at + 1] == '(' || (at + 2 < expression.len() && expression[at + 1] == 'P' && (
    expression[at + 2] == '=' || expression[at + 2] == '>'))
}

/// At `at` starts a group that refers to another group, or a conditional. Where
/// something can be skipped between the parenthesis and the question mark, the
/// question mark alone is taken for it.
pub open spec fn is_reference_group(expression: Seq<char>, at: int) -> bool {
    if is_dense(expression) {
        expression[at] == '(' && is_reference_mark(expression, at + 1)
    } else {
        is_reference_mark(expression, at)
    }
}

/// From `at` on, a regular expression refers to no group and does not shift the
/// start of the match. With either, a match can be in front of the one before,
/// or a group end before it starts.
pub open spec fn no_reference_from(expression: Seq<char>, at: int) -> bool
    decreases expression.len() - at,
{
    if at >= expression.len() {
        true
    } else if expression[at] == '\\' {
        at + 1 == expression.len() || (!refers_back(expression[at + 1]) && no_reference_from(
            expression,
            at + 2,
        ))
    } else {
        !is_reference_group(expression, at) && no_reference_from(expression, at + 1)
    }
}

/// A regular expression without references.
pub open spec fn without_references(expression: Seq<char>) -> bool {
    no_reference_from(expression, 0)
}

/// A character that stands, behind a backslash, for one of a kind of characters,
/// or for itself.
pub open spec fn stands_for_one(c: char) -> bool {
    ||| c == 's' || c == 'S' || c == 'd' || c == 'D' || c == 'w' || c == 'W'
    ||| c == 'n' || c == 'r' || c == 't' || is_meta(c)
}

/// A character that can make an empty match possible.
pub open spec fn may_be_empty(c: char) -> bool {
    c == '|' || c == '*' || c == '?' || c == '^' || c == '$' || c == '('
}

/// From `at` on, a regular expression is a row of characters and kinds of
/// characters, some of them more than once.
pub open spec fn is_row_from(expression: Seq<char>, at: int) -> bool
    decreases expression.len() - at,
{
    if at >= expression.len() {
        true
    } else if expression[at] == '\\' {
        at + 1 < expression.len() && stands_for_one(expression[at + 1]) && is_row_from(
            expression,
            at + 2,
        )
    } else if expression[at] == '{' {
        at + 1 < expression.len() && '1' <= expression[at + 1] <= '9' && is_row_from(
            expression,
            at + 1,
        )
    } else {
        !may_be_empty(expression[at]) && is_row_from(expression, at + 1)
    }
}

/// A regular expression that can be seen to match no empty text.
pub open spec fn takes_characters(expression: Seq<char>) -> bool {
    expression.len() > 0 && is_row_from(expression, 0)
}

fn has_meaning(c: char) -> (meta: bool)
    ensures
        meta == is_meta(c),
{
    c == '\\' || c == '.' || c == '+' || c == '*' || c == '?' || c == '(' || c == ')' || c == '|'
        || c == '[' || c == ']' || c == '{' || c == '}' || c == '^' || c == '$' || c == '#' || c
        == '&' || c == '-' || c == '~'
}

/// Puts a backslash before each character of a literal that has a meaning in a
/// regular expression.
fn escape(text: &str) -> (expression: String)
    ensures
        expression@ == escaped(text@),
{
    let count = text.unicode_len();
    let mut expression = String::new();
    let mut done: usize = 0;
    while done < count
        invariant
            count == text@.len(),
            done <= count,
            expression@ =~= escaped(text@.take(done as int)),
        decreases count - done,
    {
        proof {
            reveal_strlit("\\");
            assert(text@.take(done + 1).drop_last() =~= text@.take(done as int));
        }
        if has_meaning(text.get_char(done)) {
            expression.append("\\");
        }
        expression.append(text.substring_char(done, done + 1));
        done += 1;
    }
    assert(text@.take(done as int) =~= text@);
    expression
}

/// The regular expression that is searched for.
pub(crate) fn source_of(pattern: PatternText) -> (expression: String)
    ensures
        expression@ == pattern_source(pattern@),
{
    match pattern {
        PatternText::Literal(text) => escape(text.as_str()),
        PatternText::Expression(text) => text,
    }
}

/// Whether nothing is skipped in a regular expression.
fn check_dense(expression: &str) -> (dense: bool)
    ensures
        dense == is_dense(expression@),
{
    let count = expression.unicode_len();
    let mut at: usize = 0;
    while at < count
        invariant
            count == expression@.len(),
            at <= count,
            forall|i: int| 0 <= i < at ==> #[trigger] expression@[i] != 'x' && expression@[i] != '#',
        decreases count - at,
    {
        let c = expression.get_char(at);
        if c == 'x' || c == '#' {
            assert(expression@[at as int] == c);
            return false;
        }
        at += 1;
    }
    true
}

fn check_reference_mark(expression: &str, at: usize) -> (is_mark: bool)
    requires
        at < expression@.len(),
    ensures
        is_mark == is_reference_mark(expression@, at as int),
{
    let left = expression.unicode_len() - at;
    if left < 2 || expression.get_char(at) != '?' {
        return false;
    }
    let kind = expression.get_char(at + 1);
    if kind == 'P' && left > 2 {
        let mark = expression.get_char(at + 2);
        mark == '=' || mark == '>'
    } else {
        kind == '('
    }
}

/// Whether a regular expression is without references.
pub(crate) fn is_without_references(expression: &str) -> (without: bool)
    ensures
        without == without_references(expression@),
{
    let dense = check_dense(expression);
    let count = expression.unicode_len();
    let mut at: usize = 0;
    while at < count
        invariant
            dense == is_dense(expression@),
            count == expression@.len(),
            at <= count,
            without_references(expression@) == no_reference_from(expression@, at as int),
        decreases count - at,
    {
        if count - at == 1 {
            assert(no_reference_from(expression@, at + 1));
            return true;
        }
        let c = expression.get_char(at);
        let next = expression.get_char(at + 1);
        if c == '\\' {
            if '0' <= next && next <= '9' || next == 'k' || next == 'K' || next == 'g' || next
                == 'G' {
                return false;
            }
            at += 2;
        } else {
            if dense && c == '(' && check_reference_mark(expression, at + 1) {
                return false;
            }
            if !dense && check_reference_mark(expression, at) {
                return false;
            }
            at += 1;
        }
    }
    true
}

/// Whether a regular expression can be seen to match no empty text.
pub(crate) fn is_taking_characters(expression: &str) -> (takes: bool)
    ensures
        takes == takes_characters(expression@),
{
    let count = expression.unicode_len();
    let mut at: usize = 0;
    while at < count
        invariant
            count == expression@.len(),
            at <= count,
            is_row_from(expression@, 0) == is_row_from(expression@, at as int),
        decreases count - at,
    {
        let left = count - at;
        let c = expression.get_char(at);
        if c == '\\' {
            if left < 2 {
                return false;
            }
            let next = expression.get_char(at + 1);
            if !(next == 's' || next == 'S' || next == 'd' || next == 'D' || next == 'w' || next
                == 'W' || next == 'n' || next == 'r' || next == 't' || has_meaning(next)) {
                return false;
            }
            at += 2;
        } else if c == '{' {
            if left < 2 {
                return false;
            }
            let next = expression.get_char(at + 1);
            if !('1' <= next && next <= '9') {
                return false;
            }
            at += 1;
        } else {
            if c == '|' || c == '*' || c == '?' || c == '^' || c == '$' || c == '(' {
                return false;
            }
            at += 1;
        }
    }
    count > 0
}

} // verus!
