//! The pattern rule and the transform of one line.

use crate::collapse::{
    collapse_escaped_triggers, collapsed, escapes_trigger, holds_trigger,
    lemma_collapse_keeps_text_without_escaped_trigger, TRIGGER,
};
use crate::engine::{
    compile, compiled_pattern, pattern_accepted, pattern_text, regex_replaced, replace_all,
};
use regex::Regex;
use vstd::prelude::*;

verus! {

/// The legacy escape candidates, in the pattern language of the `regex` crate:
/// a trigger `&` followed by one code character, which is a hexadecimal digit,
/// one of the format letters `k l m n o r`, or the trigger itself. Letters
/// match in either case; the engine folds case as Unicode does, so that
/// U+212A KELVIN SIGN counts as `k`. The code character is the first capture
/// group. The engine takes matches from the left, and they do not overlap: in
/// `&&a` the second `&` is the code character of the first match.
pub const ESCAPE_PATTERN: &'static str = "(?i)&([0-9a-fklmnor&])";

/// What a candidate is replaced with: the canonical marker, then the code
/// character exactly as it was matched.
pub const CANONICAL_REPLACEMENT: &'static str = "\u{a7}$1";

/// The pattern of a rule was refused by the pattern compiler.
#[derive(Debug)]
pub struct PatternError {
    /// What the compiler reported.
    pub cause: regex::Error,
}

/// A compiled pattern rule. Compiling is the costly part: build one rule and
/// use it for every line.
pub struct PatternRule {
    engine: Regex,
}

impl PatternRule {
    /// The pattern text that this rule was compiled from.
    pub closed spec fn source(&self) -> Seq<char> {
        compiled_pattern(self.engine)
    }

    /// `line` with every match of the rule replaced by
    /// [`CANONICAL_REPLACEMENT`], as the pattern engine does it.
    pub closed spec fn marked(&self, line: Seq<char>) -> Seq<char> {
        regex_replaced(self.engine, line, CANONICAL_REPLACEMENT@)
    }

    /// The transform of `line`. A line without a trigger holds no candidate
    /// and stays as it is; the empty line is one. In any other, the matches of
    /// the rule are marked, and then the escaped triggers are collapsed.
    pub open spec fn transformed(&self, line: Seq<char>) -> Seq<char> {
        if !line.contains(TRIGGER) {
            line
        } else {
            collapsed(self.marked(line))
        }
    }

    /// Compiles [`ESCAPE_PATTERN`]. A rule is returned exactly when the
    /// pattern compiler accepts that pattern, and it was then compiled from
    /// exactly that pattern.
    pub fn new() -> (made: Result<PatternRule, PatternError>)
        ensures
            made is Ok <==> pattern_accepted(ESCAPE_PATTERN@),
            made matches Ok(rule) ==> rule.source() == ESCAPE_PATTERN@,
    {
        PatternRule::from_compiled(compile(ESCAPE_PATTERN))
    }

    /// Wraps what the pattern compiler returned: a regex becomes a rule that
    /// has its pattern and marks as it replaces, an error is handed on as the
    /// cause.
    pub fn from_compiled(compiled: Result<Regex, regex::Error>) -> (made: Result<
        PatternRule,
        PatternError,
    >)
        ensures
            match (compiled, made) {
                (Ok(engine), Ok(rule)) => {
                    &&& rule.source() == compiled_pattern(engine)
                    &&& forall|line: Seq<char>| #[trigger]
                        rule.marked(line) == regex_replaced(engine, line, CANONICAL_REPLACEMENT@)
                },
                (Err(cause), Err(error)) => error.cause == cause,
                _ => false,
            },
    {
        match compiled {
            Ok(engine) => Ok(PatternRule { engine }),
            Err(cause) => Err(PatternError { cause }),
        }
    }

    /// The pattern text that this rule was compiled from.
    pub fn pattern(&self) -> (text: &str)
        ensures
            text@ == self.source(),
    {
        pattern_text(&self.engine)
    }

    /// Rewrites one line into canonical form. The pattern engine is asked
    /// only where the line holds a trigger.
    pub fn transform(&self, line: &str) -> (out: String)
        ensures
            out@ == self.transformed(line@),
            !line@.contains(TRIGGER) ==> out@ == line@,
            line@.len() == 0 ==> out@.len() == 0,
    {
        if !holds_trigger(line) {
            line.to_owned()
        } else {
            let marked = replace_all(&self.engine, line, CANONICAL_REPLACEMENT);
            collapse_escaped_triggers(marked.as_str())
        }
    }
}

/// The empty line is its own transform.
pub proof fn lemma_empty_line_is_kept(rule: PatternRule)
    ensures
        rule.transformed(Seq::empty()) == Seq::<char>::empty(),
{
}

/// A line without a trigger is its own transform, whatever else it holds:
/// canonical markers and the code characters behind them stay as they are.
pub proof fn lemma_line_without_trigger_is_kept(rule: PatternRule, line: Seq<char>)
    requires
        !line.contains(TRIGGER),
    ensures
        rule.transformed(line) == line,
{
}

/// A line in which the pattern engine finds nothing to replace is changed by
/// the transform exactly when a canonical marker in it stands directly before
/// a trigger.
pub proof fn lemma_line_without_match(rule: PatternRule, line: Seq<char>)
    ensures
        rule.marked(line) == line ==> (rule.transformed(line) == line <==> forall|at: int|
            !escapes_trigger(line, at)),
{
    lemma_collapse_keeps_text_without_escaped_trigger(line);
    if !line.contains(TRIGGER) {
        assert forall|at: int| !escapes_trigger(line, at) by {
            if escapes_trigger(line, at) {
                assert(line[at + 1] == TRIGGER);
            }
        }
    }
}

/// Transforming a second time changes nothing, where the pattern engine finds
/// nothing to replace in the transformed line and no canonical marker in it
/// stands directly before a trigger.
pub proof fn lemma_second_transform(rule: PatternRule, line: Seq<char>)
    ensures
        ({
            let once = rule.transformed(line);
            rule.marked(once) == once && (forall|at: int| !escapes_trigger(once, at))
                ==> rule.transformed(once) == once
        }),
{
    lemma_line_without_match(rule, rule.transformed(line));
}

} // verus!
