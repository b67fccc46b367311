//! Escaped triggers: a canonical marker that stands directly before a trigger
//! is dropped, so that the pair reads as one literal trigger.

use crate::text::push_char;
use vstd::prelude::*;

verus! {

/// The character that introduces a legacy escape.
pub const TRIGGER: char = '&';

/// The character that introduces an escape in canonical form: U+00A7 SECTION
/// SIGN, the marker that the display layer reads.
pub const CANONICAL_MARKER: char = '\u{a7}';

/// Says whether `text` holds a trigger. A text without one holds no legacy
/// escape.
pub fn holds_trigger(text: &str) -> (found: bool)
    ensures
        found == text@.contains(TRIGGER),
{
    let mut found = false;
    for c in it: text.chars()
        invariant
            it.seq() == text@,
            found == text@.take(it.index() as int).contains(TRIGGER),
    {
        let ghost seen = text@.take(it.index() as int);
        let ghost next = text@.take(it.index() + 1);
        assert(next =~= seen.push(c));
        if c == TRIGGER {
            found = true;
            assert(next[seen.len() as int] == TRIGGER);
        } else {
            proof {
                if next.contains(TRIGGER) {
                    let k = choose|k: int| 0 <= k < next.len() && next[k] == TRIGGER;
                    assert(seen[k] == TRIGGER);
                }
                if seen.contains(TRIGGER) {
                    let k = choose|k: int| 0 <= k < seen.len() && seen[k] == TRIGGER;
                    assert(next[k] == TRIGGER);
                }
            }
        }
    }
    assert(text@.take(text@.len() as int) =~= text@);
    found
}

/// At position `at` stands a canonical marker, directly followed by a trigger.
pub open spec fn escapes_trigger(text: Seq<char>, at: int) -> bool {
    &&& 0 <= at
    &&& at + 1 < text.len()
    &&& text[at] == CANONICAL_MARKER
    &&& text[at + 1] == TRIGGER
}

/// `text` from position `from` on, without the markers that escape a trigger.
pub open spec fn collapsed_from(text: Seq<char>, from: int) -> Seq<char>
    decreases text.len() - from,
{
    if from < 0 || from >= text.len() {
        Seq::empty()
    } else if escapes_trigger(text, from) {
        collapsed_from(text, from + 1)
    } else {
        seq![text[from]] + collapsed_from(text, from + 1)
    }
}

/// `text` without the markers that escape a trigger.
pub open spec fn collapsed(text: Seq<char>) -> Seq<char> {
    collapsed_from(text, 0)
}

/// From `from` on, collapsing never lengthens a text; it keeps the text where
/// no marker escapes a trigger there, and shortens it where one does.
proof fn lemma_collapsed_from(text: Seq<char>, from: int)
    requires
        0 <= from <= text.len(),
    ensures
        collapsed_from(text, from).len() <= text.len() - from,
        (forall|at: int| from <= at ==> !escapes_trigger(text, at)) ==> collapsed_from(text, from)
            == text.skip(from),
        (exists|at: int| from <= at && escapes_trigger(text, at)) ==> collapsed_from(
            text,
            from,
        ).len() < text.len() - from,
    decreases text.len() - from,
{
    if from < text.len() {
        lemma_collapsed_from(text, from + 1);
        if forall|at: int| from <= at ==> !escapes_trigger(text, at) {
            assert(collapsed_from(text, from) =~= text.skip(from));
        }
        if exists|at: int| from <= at && escapes_trigger(text, at) {
            let at = choose|at: int| from <= at && escapes_trigger(text, at);
            if at != from {
                assert(from + 1 <= at && escapes_trigger(text, at));
            }
        }
    } else {
        assert(collapsed_from(text, from) =~= text.skip(from));
    }
}

/// Collapsing changes a text exactly when a canonical marker in it stands
/// directly before a trigger.
pub proof fn lemma_collapse_keeps_text_without_escaped_trigger(text: Seq<char>)
    ensures
        collapsed(text) == text <==> forall|at: int| !escapes_trigger(text, at),
{
    lemma_collapsed_from(text, 0);
    assert(text.skip(0) =~= text);
    if exists|at: int| escapes_trigger(text, at) {
        let at = choose|at: int| escapes_trigger(text, at);
        assert(0 <= at && escapes_trigger(text, at));
    }
}

/// Drops every canonical marker that stands directly before a trigger.
pub fn collapse_escaped_triggers(text: &str) -> (out: String)
    ensures
        out@ == collapsed(text@),
{
    let mut out = String::new();
    // A marker has been read and not written yet: what follows decides.
    let mut held: bool = false;
    for c in it: text.chars()
        invariant
            it.seq() == text@,
            held ==> it.index() > 0 && text@[it.index() - 1] == CANONICAL_MARKER,
            out@ + collapsed_from(text@, it.index() - if held { 1int } else { 0int })
                == collapsed(text@),
    {
        let ghost at = it.index() as int;
        let ghost before = out@;
        if held && c != TRIGGER {
            push_char(&mut out, CANONICAL_MARKER);
            assert(out@ + collapsed_from(text@, at) =~= before + collapsed_from(text@, at - 1));
        }
        let ghost middle = out@;
        if c == CANONICAL_MARKER {
            held = true;
        } else {
            push_char(&mut out, c);
            held = false;
            assert(out@ + collapsed_from(text@, at + 1) =~= middle + collapsed_from(text@, at));
        }
    }
    if held {
        let ghost before = out@;
        push_char(&mut out, CANONICAL_MARKER);
        assert(collapsed_from(text@, text@.len() as int) =~= Seq::empty());
        assert(out@ =~= before + collapsed_from(text@, text@.len() - 1));
    }
    out
}

} // verus!
