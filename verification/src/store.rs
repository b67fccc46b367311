//! A model of the host's buffer store, to say what running a plan does to a
//! line collection.

use crate::plan::{planned, replacement_text, HostCallView};
use crate::rule::PatternRule;
use vstd::prelude::*;
use vstd::utf8::encode_utf8;

verus! {

/// What an entry of the line collection points to.
pub enum EntryState {
    /// A buffer of the host that holds these bytes.
    Live(Seq<u8>),
    /// A buffer that has been released: the handle must not be used.
    Released,
}

/// The line collection after one host call, or `None` where the call must not
/// be made: a release needs a live buffer, and an install needs an entry
/// whose buffer has been released, or the old buffer would leak.
pub open spec fn after_call(entries: Seq<EntryState>, call: HostCallView) -> Option<
    Seq<EntryState>,
> {
    match call {
        HostCallView::Release { index } => {
            if 0 <= index < entries.len() && entries[index] is Live {
                Some(entries.update(index, EntryState::Released))
            } else {
                None
            }
        },
        HostCallView::Install { index, text } => {
            if 0 <= index < entries.len() && entries[index] is Released {
                Some(entries.update(index, EntryState::Live(encode_utf8(text))))
            } else {
                None
            }
        },
    }
}

/// The line collection after a sequence of host calls, made in order, or
/// `None` where one of them must not be made.
pub open spec fn after_calls(entries: Seq<EntryState>, calls: Seq<HostCallView>) -> Option<
    Seq<EntryState>,
>
    decreases calls.len(),
{
    if calls.len() == 0 {
        Some(entries)
    } else {
        match after_calls(entries, calls.drop_last()) {
            Some(reached) => after_call(reached, calls.last()),
            None => None,
        }
    }
}

/// The line collection after the host's answer to `call`. Where the host did
/// what the call asks, that is [`after_call`]. Where its allocator refused an
/// install, nothing is stored: the entry still points to the released buffer.
pub open spec fn after_answer(
    entries: Seq<EntryState>,
    call: HostCallView,
    allocated: bool,
) -> Option<Seq<EntryState>> {
    if call is Install && !allocated {
        if after_call(entries, call) is Some {
            Some(entries)
        } else {
            None
        }
    } else {
        after_call(entries, call)
    }
}

/// Every entry points to a live buffer: the collection may be read.
pub open spec fn usable(entries: Seq<EntryState>) -> bool {
    forall|i: int| 0 <= i < entries.len() ==> (#[trigger] entries[i]) is Live
}

/// A line collection in which every entry points to a live buffer.
pub open spec fn all_live(buffers: Seq<Seq<u8>>) -> Seq<EntryState> {
    Seq::new(buffers.len(), |i: int| EntryState::Live(buffers[i]))
}

/// What the buffer of an entry has to hold in the end: the encoding of the
/// replacement text where there is one, else what it held before.
pub open spec fn settled(rule: PatternRule, buffer: Seq<u8>) -> Seq<u8> {
    match replacement_text(rule, buffer) {
        Some(text) => encode_utf8(text),
        None => buffer,
    }
}

/// The settled form of every buffer of a collection.
pub open spec fn all_settled(rule: PatternRule, buffers: Seq<Seq<u8>>) -> Seq<Seq<u8>> {
    Seq::new(buffers.len(), |i: int| settled(rule, buffers[i]))
}

/// Running the plan for `buffers` on a collection that starts with these
/// buffers settles them and leaves the entries behind them alone.
proof fn lemma_plan_settles_prefix(
    rule: PatternRule,
    buffers: Seq<Seq<u8>>,
    behind: Seq<EntryState>,
)
    ensures
        after_calls(all_live(buffers) + behind, planned(rule, buffers)) == Some(
            all_live(all_settled(rule, buffers)) + behind,
        ),
    decreases buffers.len(),
{
    let start = all_live(buffers) + behind;
    if buffers.len() == 0 {
        assert(start =~= all_live(all_settled(rule, buffers)) + behind);
    } else {
        let index = buffers.len() - 1;
        let inner = buffers.drop_last();
        let kept = seq![EntryState::Live(buffers.last())] + behind;
        lemma_plan_settles_prefix(rule, inner, kept);
        assert(start =~= all_live(inner) + kept);
        let reached = all_live(all_settled(rule, inner)) + kept;
        let earlier = planned(rule, inner);
        let calls = planned(rule, buffers);
        let done = all_live(all_settled(rule, buffers)) + behind;
        assert(reached[index] == EntryState::Live(buffers.last()));
        match replacement_text(rule, buffers.last()) {
            Some(text) => {
                let release = HostCallView::Release { index };
                let install = HostCallView::Install { index, text };
                assert(calls =~= earlier.push(release).push(install));
                assert(calls.drop_last() =~= earlier.push(release));
                assert(earlier.push(release).drop_last() =~= earlier);
                let released = reached.update(index, EntryState::Released);
                assert(after_calls(start, earlier.push(release)) == Some(released));
                assert(released.update(index, EntryState::Live(encode_utf8(text))) =~= done);
            },
            None => {
                assert(calls =~= earlier);
                assert(reached =~= done);
            },
        }
    }
}

/// Running a plan is safe and does the work. On a line collection whose
/// entries all point to live buffers, every call of the plan may be made when
/// its turn comes; afterwards the collection has the length it had, every
/// entry points to a live buffer, and that buffer holds the replacement text
/// where the line had to change and is the old buffer where it had not.
pub proof fn lemma_plan_settles_every_entry(rule: PatternRule, buffers: Seq<Seq<u8>>)
    ensures
        after_calls(all_live(buffers), planned(rule, buffers)) == Some(
            all_live(all_settled(rule, buffers)),
        ),
{
    lemma_plan_settles_prefix(rule, buffers, Seq::empty());
    assert(all_live(buffers) + Seq::<EntryState>::empty() =~= all_live(buffers));
    assert(all_live(all_settled(rule, buffers)) + Seq::<EntryState>::empty() =~= all_live(
        all_settled(rule, buffers),
    ));
}

/// The plan for the first entries of a collection is the start of the plan
/// for the whole collection.
pub proof fn lemma_plan_starts_with_plan_of_prefix(
    rule: PatternRule,
    buffers: Seq<Seq<u8>>,
    count: int,
)
    requires
        0 <= count <= buffers.len(),
    ensures
        planned(rule, buffers.take(count)).is_prefix_of(planned(rule, buffers)),
    decreases buffers.len(),
{
    if count == buffers.len() {
        assert(buffers.take(count) =~= buffers);
    } else {
        lemma_plan_starts_with_plan_of_prefix(rule, buffers.drop_last(), count);
        assert(buffers.drop_last().take(count) =~= buffers.take(count));
    }
}

/// When the install for an entry is due, that entry is the one dead entry
/// of the collection. The calls up to the install are the plan for the
/// entries before it and the release of the entry itself; each of them may be
/// made, and they leave the entry released and every other entry live.
pub proof fn lemma_install_finds_entry_released(
    rule: PatternRule,
    buffers: Seq<Seq<u8>>,
    index: int,
)
    requires
        0 <= index < buffers.len(),
        replacement_text(rule, buffers[index]) is Some,
    ensures
        ({
            let release = HostCallView::Release { index };
            let install = HostCallView::Install {
                index,
                text: replacement_text(rule, buffers[index])->Some_0,
            };
            let made = planned(rule, buffers.take(index)).push(release);
            &&& made.push(install).is_prefix_of(planned(rule, buffers))
            &&& after_calls(all_live(buffers), made) matches Some(reached) && {
                &&& reached.len() == buffers.len()
                &&& reached[index] is Released
                &&& forall|j: int|
                    0 <= j < reached.len() && j != index ==> (#[trigger] reached[j]) is Live
                &&& after_call(reached, install) is Some
            }
        }),
{
    let before = buffers.take(index);
    let behind = all_live(buffers.skip(index));
    let release = HostCallView::Release { index };
    let install = HostCallView::Install {
        index,
        text: replacement_text(rule, buffers[index])->Some_0,
    };
    let made = planned(rule, before).push(release);
    lemma_plan_starts_with_plan_of_prefix(rule, buffers, index + 1);
    assert(buffers.take(index + 1).drop_last() =~= before);
    assert(buffers.take(index + 1).last() == buffers[index]);
    assert(planned(rule, buffers.take(index + 1)) =~= made.push(install));
    lemma_plan_settles_prefix(rule, before, behind);
    assert(all_live(buffers) =~= all_live(before) + behind);
    let settled_before = all_live(all_settled(rule, before)) + behind;
    assert(made.drop_last() =~= planned(rule, before));
    assert(after_calls(all_live(buffers), made) == after_call(settled_before, release));
    assert(settled_before[index] == EntryState::Live(buffers[index]));
}

/// A refused install is fatal. Where an install is due and the allocator
/// gives no buffer, the collection stays as it is, with the entry pointing to
/// its released buffer: it may not be read.
pub proof fn lemma_refused_install_leaves_dead_entry(
    entries: Seq<EntryState>,
    index: int,
    text: Seq<char>,
)
    requires
        after_call(entries, HostCallView::Install { index, text }) is Some,
    ensures
        after_answer(entries, HostCallView::Install { index, text }, false) == Some(entries),
        !usable(entries),
{
    assert(entries[index] is Released);
}

} // verus!
