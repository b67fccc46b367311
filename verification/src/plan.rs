//! The buffer replacement protocol: which buffers of a host-owned line
//! collection are released, and what is installed in their place.

use crate::collapse::TRIGGER;
use crate::rule::PatternRule;
use crate::text::read_utf8;
use vstd::prelude::*;
use vstd::utf8::{decode_utf8, valid_utf8};

verus! {

/// One call into the host's buffer store. The host owns every buffer; the
/// entries of the line collection hold handles to them.
#[derive(Debug, PartialEq, Eq)]
pub enum HostCall {
    /// Release the buffer that entry `index` points to. The handle is dead
    /// afterwards.
    Release { index: usize },
    /// Allocate a buffer that holds `text` and store its handle in entry
    /// `index`.
    Install { index: usize, text: String },
}

/// A sign change could not be carried through.
#[derive(Debug, PartialEq, Eq)]
pub enum ReplacementError {
    /// The host's allocator gave no buffer for entry `index`. The old buffer
    /// of that entry is released already, so the entry points to a dead
    /// buffer: the collection must not be used, and no further call is made.
    AllocationFailed { index: usize },
}

/// A host call as a plain value.
pub enum HostCallView {
    Release { index: int },
    Install { index: int, text: Seq<char> },
}

impl View for HostCall {
    type V = HostCallView;

    open spec fn view(&self) -> HostCallView {
        match *self {
            HostCall::Release { index } => HostCallView::Release { index: index as int },
            HostCall::Install { index, text } => HostCallView::Install {
                index: index as int,
                text: text@,
            },
        }
    }
}

impl HostCallView {
    /// The entry of the line collection that the call is about.
    pub open spec fn entry(self) -> int {
        match self {
            HostCallView::Release { index } => index,
            HostCallView::Install { index, .. } => index,
        }
    }
}

/// The text that has to take the place of what `buffer` holds, if any: the
/// transform of its text, where the buffer holds text and the transform
/// differs from it. A buffer that is not valid UTF-8 is left alone.
pub open spec fn replacement_text(rule: PatternRule, buffer: Seq<u8>) -> Option<Seq<char>> {
    if valid_utf8(buffer) && rule.transformed(decode_utf8(buffer)) != decode_utf8(buffer) {
        Some(rule.transformed(decode_utf8(buffer)))
    } else {
        None
    }
}

/// The host calls for the entry `index`, which holds `buffer`: none where the
/// buffer stays, else the release of the old buffer and then the install of
/// the new text.
pub open spec fn entry_calls(rule: PatternRule, index: int, buffer: Seq<u8>) -> Seq<
    HostCallView,
> {
    match replacement_text(rule, buffer) {
        Some(text) => seq![
            HostCallView::Release { index },
            HostCallView::Install { index, text },
        ],
        None => Seq::empty(),
    }
}

/// The host calls for a whole line collection: those of each entry, entry by
/// entry from the first.
pub open spec fn planned(rule: PatternRule, buffers: Seq<Seq<u8>>) -> Seq<HostCallView>
    decreases buffers.len(),
{
    if buffers.len() == 0 {
        Seq::empty()
    } else {
        planned(rule, buffers.drop_last()) + entry_calls(
            rule,
            buffers.len() - 1,
            buffers.last(),
        )
    }
}

/// The calls of a plan as plain values.
pub open spec fn calls_view(calls: Seq<HostCall>) -> Seq<HostCallView> {
    Seq::new(calls.len(), |i: int| calls[i]@)
}

/// The buffers of a line collection as plain values.
pub open spec fn buffers_view(lines: Seq<Vec<u8>>) -> Seq<Seq<u8>> {
    Seq::new(lines.len(), |i: int| lines[i]@)
}

impl PatternRule {
    /// Reads one buffer and returns the text that has to replace its own, or
    /// `None` where the buffer stays as it is: it is empty, it is not valid
    /// UTF-8, or its transform is the text it holds.
    pub fn replacement_for(&self, buffer: &[u8]) -> (text: Option<String>)
        ensures
            match text {
                Some(new_text) => replacement_text(*self, buffer@) == Some(new_text@),
                None => replacement_text(*self, buffer@) is None,
            },
            buffer@.len() == 0 ==> text is None,
            valid_utf8(buffer@) && !decode_utf8(buffer@).contains(TRIGGER) ==> text is None,
    {
        proof {
            lemma_empty_buffer_stays(*self);
        }
        match read_utf8(buffer) {
            None => None,
            Some(line) => {
                let new_text = self.transform(line);
                let old_text = line.to_owned();
                if new_text == old_text {
                    None
                } else {
                    Some(new_text)
                }
            },
        }
    }
}

/// Handles one sign change: goes through the line collection from the first
/// entry and returns the host calls to make, in the order in which to make
/// them.
pub fn sign_event_callback(rule: &PatternRule, lines: &Vec<Vec<u8>>) -> (calls: Vec<HostCall>)
    ensures
        calls_view(calls@) == planned(*rule, buffers_view(lines@)),
{
    let mut calls: Vec<HostCall> = Vec::new();
    let mut i: usize = 0;
    while i < lines.len()
        invariant
            i <= lines.len(),
            calls_view(calls@) == planned(*rule, buffers_view(lines@).take(i as int)),
        decreases lines.len() - i,
    {
        let ghost done = calls_view(calls@);
        let ghost upto = buffers_view(lines@).take(i + 1);
        assert(upto.drop_last() =~= buffers_view(lines@).take(i as int));
        assert(upto.last() == lines@[i as int]@);
        match rule.replacement_for(lines[i].as_slice()) {
            Some(text) => {
                calls.push(HostCall::Release { index: i });
                calls.push(HostCall::Install { index: i, text });
                assert(calls_view(calls@) =~= done + entry_calls(
                    *rule,
                    i as int,
                    lines@[i as int]@,
                ));
            },
            None => {
                assert(calls_view(calls@) =~= done + entry_calls(
                    *rule,
                    i as int,
                    lines@[i as int]@,
                ));
            },
        }
        i += 1;
    }
    assert(buffers_view(lines@).take(lines.len() as int) =~= buffers_view(lines@));
    calls
}

/// Takes the host's answer to the install for entry `index`: `allocated` says
/// whether its allocator gave a buffer. With a buffer the run goes on: its
/// handle is stored in the entry, and the next call is made. Without one the
/// run ends for good.
pub fn after_install(index: usize, allocated: bool) -> (verdict: Result<(), ReplacementError>)
    ensures
        allocated ==> verdict is Ok,
        !allocated ==> verdict == Err::<(), ReplacementError>(
            ReplacementError::AllocationFailed { index },
        ),
{
    if allocated {
        Ok(())
    } else {
        Err(ReplacementError::AllocationFailed { index })
    }
}

/// An empty buffer holds the empty line, whose transform is empty: nothing
/// replaces it.
pub proof fn lemma_empty_buffer_stays(rule: PatternRule)
    ensures
        replacement_text(rule, Seq::empty()) is None,
{
    let empty = Seq::<u8>::empty();
    assert(valid_utf8(empty));
    assert(decode_utf8(empty) =~= Seq::<char>::empty());
}

/// A collection in which no line holds a trigger needs no host call: every
/// buffer stays, whatever canonical sequences its text holds.
pub proof fn lemma_collection_without_trigger_needs_no_call(
    rule: PatternRule,
    buffers: Seq<Seq<u8>>,
)
    requires
        forall|i: int|
            0 <= i < buffers.len() && valid_utf8(#[trigger] buffers[i]) ==> !decode_utf8(
                buffers[i],
            ).contains(TRIGGER),
    ensures
        planned(rule, buffers) == Seq::<HostCallView>::empty(),
    decreases buffers.len(),
{
    if buffers.len() > 0 {
        let earlier = buffers.drop_last();
        assert forall|i: int| 0 <= i < earlier.len() && valid_utf8(
            #[trigger] earlier[i],
        ) implies !decode_utf8(earlier[i]).contains(TRIGGER) by {
            assert(earlier[i] == buffers[i]);
        }
        lemma_collection_without_trigger_needs_no_call(rule, earlier);
        assert(replacement_text(rule, buffers.last()) is None);
        assert(planned(rule, buffers) =~= Seq::<HostCallView>::empty());
    }
}

/// In `calls`, the entry `index` is released at position `at`, the text `text`
/// is installed in it directly afterwards, and no other call is about it.
pub open spec fn replaced_once_at(
    calls: Seq<HostCallView>,
    at: int,
    index: int,
    text: Seq<char>,
) -> bool {
    &&& 0 <= at
    &&& at + 1 < calls.len()
    &&& calls[at] == HostCallView::Release { index }
    &&& calls[at + 1] == HostCallView::Install { index, text }
    &&& forall|j: int|
        0 <= j < calls.len() && j != at && j != at + 1 ==> (#[trigger] calls[j]).entry() != index
}

/// Every call of a plan is about an entry of the collection.
pub proof fn lemma_calls_stay_in_collection(rule: PatternRule, buffers: Seq<Seq<u8>>)
    ensures
        forall|j: int|
            0 <= j < planned(rule, buffers).len() ==> 0 <= (#[trigger] planned(
                rule,
                buffers,
            )[j]).entry() < buffers.len(),
    decreases buffers.len(),
{
    if buffers.len() > 0 {
        lemma_calls_stay_in_collection(rule, buffers.drop_last());
        let earlier = planned(rule, buffers.drop_last());
        let calls = planned(rule, buffers);
        assert forall|j: int| 0 <= j < calls.len() implies 0 <= (#[trigger] calls[j]).entry()
            < buffers.len() by {
            if j < earlier.len() {
                assert(calls[j] == earlier[j]);
            }
        }
    }
}

/// Release and install come in pairs. For an entry whose text changes, the
/// plan holds exactly one release of it, directly followed by exactly one
/// install of the new text in it, and no other call about it. For an entry
/// whose text stays, the plan holds no call about it.
pub proof fn lemma_release_then_install(rule: PatternRule, buffers: Seq<Seq<u8>>, index: int)
    requires
        0 <= index < buffers.len(),
    ensures
        match replacement_text(rule, buffers[index]) {
            Some(text) => exists|at: int|
                replaced_once_at(planned(rule, buffers), at, index, text),
            None => forall|j: int|
                0 <= j < planned(rule, buffers).len() ==> (#[trigger] planned(
                    rule,
                    buffers,
                )[j]).entry() != index,
        },
    decreases buffers.len(),
{
    let calls = planned(rule, buffers);
    let earlier = planned(rule, buffers.drop_last());
    let last = buffers.len() - 1;
    lemma_calls_stay_in_collection(rule, buffers.drop_last());
    if index == last {
        if let Some(text) = replacement_text(rule, buffers[index]) {
            assert(replaced_once_at(calls, earlier.len() as int, index, text));
        }
    } else {
        lemma_release_then_install(rule, buffers.drop_last(), index);
        assert(buffers.drop_last()[index] == buffers[index]);
        if let Some(text) = replacement_text(rule, buffers[index]) {
            let at = choose|at: int| replaced_once_at(earlier, at, index, text);
            assert(replaced_once_at(calls, at, index, text));
        }
    }
}

/// The calls of a plan go through the collection from the first entry to the
/// last: a later call is never about an earlier entry.
pub proof fn lemma_calls_follow_the_collection(
    rule: PatternRule,
    buffers: Seq<Seq<u8>>,
    i: int,
    j: int,
)
    requires
        0 <= i <= j < planned(rule, buffers).len(),
    ensures
        planned(rule, buffers)[i].entry() <= planned(rule, buffers)[j].entry(),
    decreases buffers.len(),
{
    if buffers.len() > 0 {
        let earlier = planned(rule, buffers.drop_last());
        lemma_calls_stay_in_collection(rule, buffers.drop_last());
        if j < earlier.len() {
            lemma_calls_follow_the_collection(rule, buffers.drop_last(), i, j);
        }
    }
}

} // verus!
