//! What holds of the monitor over everything that it has heard: how the
//! listed outputs, the flags and the exit status follow from the history of
//! events.

use vstd::prelude::*;

use crate::monitor::Handle;
use crate::monitor::MonitorView;
use crate::monitor::ToplevelEvent;
use crate::text::decimal;
use crate::toplevel::law_entered_output_is_listed;
use crate::toplevel::law_left_output_is_gone;
use crate::toplevel::law_outputs_stay_well_formed;
use crate::toplevel::lemma_filter_contains;
use crate::toplevel::lemma_filter_no_duplicates;
use crate::toplevel::other_than;
use crate::toplevel::ByteOrder;

verus! {

/// Something that the monitor hears.
pub enum Heard {
    Global { name: u32, interface: Seq<char>, version: u32 },
    OutputName { id: u32, text: Seq<char> },
    Toplevel { handle: Handle, event: ToplevelEvent },
}

impl MonitorView {
    /// The monitor has heard one thing more.
    pub open spec fn after(self, heard: Heard) -> MonitorView {
        match heard {
            Heard::Global { name, interface, version } => self.after_global(
                name,
                interface,
                version,
            ),
            Heard::OutputName { id, text } => self.after_output_name(id, text),
            Heard::Toplevel { handle, event } => self.after_event(handle, event),
        }
    }

    /// What every event keeps: no handle is listed twice, every listed
    /// toplevel belongs to a listed handle, and every toplevel is sound in
    /// itself.
    pub open spec fn well_formed(self) -> bool {
        &&& self.handles.no_duplicates()
        &&& forall|id: u32| #[trigger]
            self.toplevels.contains_key(id) ==> self.toplevels[id].well_formed() && self.has_handle(
                id,
            )
    }

    /// Whether a listed handle has the id.
    pub open spec fn has_handle(self, id: u32) -> bool {
        exists|i: int| 0 <= i < self.handles.len() && (#[trigger] self.handles[i]).id == id
    }

    /// No two listed handles have the same id, and each has its toplevel.
    pub open spec fn one_to_one(self) -> bool {
        &&& forall|i: int, j: int|
            0 <= i < self.handles.len() && 0 <= j < self.handles.len() && (
            #[trigger] self.handles[i]).id == (#[trigger] self.handles[j]).id ==> i == j
        &&& forall|i: int|
            0 <= i < self.handles.len() ==> self.toplevels.contains_key(
                (#[trigger] self.handles[i]).id,
            )
    }
}

/// The monitor after a whole history, from silence.
pub open spec fn after_history(order: ByteOrder, history: Seq<Heard>) -> MonitorView
    decreases history.len(),
{
    if history.len() == 0 {
        MonitorView::silent(order)
    } else {
        after_history(order, history.drop_last()).after(history.last())
    }
}

/// Whether the toplevel has entered an output, and has not been closed since.
pub open spec fn once_entered(history: Seq<Heard>, id: u32) -> bool
    decreases history.len(),
{
    if history.len() == 0 {
        false
    } else {
        match history.last() {
            Heard::Toplevel { handle, event } => if handle.id == id && event is OutputEnter {
                true
            } else if handle.id == id && event is Closed {
                false
            } else {
                once_entered(history.drop_last(), id)
            },
            _ => once_entered(history.drop_last(), id),
        }
    }
}

/// Whether the toplevel has entered the output, and has neither left it nor
/// been closed since.
pub open spec fn now_on(history: Seq<Heard>, id: u32, output: u32) -> bool
    decreases history.len(),
{
    if history.len() == 0 {
        false
    } else {
        match history.last() {
            Heard::Toplevel { handle, event } => if handle.id != id {
                now_on(history.drop_last(), id, output)
            } else if event == (ToplevelEvent::OutputEnter { output }) {
                true
            } else if event == (ToplevelEvent::OutputLeave { output }) || event is Closed {
                false
            } else {
                now_on(history.drop_last(), id, output)
            },
            _ => now_on(history.drop_last(), id, output),
        }
    }
}

/// Whether the toplevel has once entered an output and is now on none.
pub open spec fn stranded(history: Seq<Heard>, id: u32) -> bool {
    once_entered(history, id) && forall|output: u32| !#[trigger] now_on(history, id, output)
}

/// Whether position `k` of the history ends a batch of a stranded toplevel.
pub open spec fn strands_at(history: Seq<Heard>, k: int) -> bool {
    history[k] matches Heard::Toplevel { handle, event } && event is Done && stranded(
        history.take(k),
        handle.id,
    )
}

/// How many batches of the history ended with a stranded toplevel.
pub open spec fn strandings(history: Seq<Heard>) -> nat
    decreases history.len(),
{
    if history.len() == 0 {
        0
    } else {
        strandings(history.drop_last()) + (if strands_at(history, history.len() - 1) {
            1nat
        } else {
            0nat
        })
    }
}

/// An event changes nothing about the toplevels of other ids.
pub proof fn law_other_toplevels_stay(m: MonitorView, handle: Handle, event: ToplevelEvent, id: u32)
    requires
        id != handle.id,
    ensures
        m.after_event(handle, event).toplevels.contains_key(id) == m.toplevels.contains_key(id),
        m.toplevels.contains_key(id) ==> m.after_event(handle, event).toplevels[id]
            == m.toplevels[id],
        m.after_event(handle, event).label(id) == m.label(id),
        m.after_event(handle, event).lacks_outputs(id) == m.lacks_outputs(id),
{
}

/// An event changes neither the names of the outputs, nor the manager global,
/// nor the byte order.
pub proof fn law_event_touches_toplevels_only(m: MonitorView, handle: Handle, event: ToplevelEvent)
    ensures
        m.after_event(handle, event).output_names == m.output_names,
        m.after_event(handle, event).manager_global == m.manager_global,
        m.after_event(handle, event).order == m.order,
{
}

/// After any event but that of its closing, the handle and its toplevel are
/// listed; after that one, neither is.
pub proof fn law_handle_is_listed_until_closed(
    m: MonitorView,
    handle: Handle,
    event: ToplevelEvent,
)
    ensures
        m.after_event(handle, event).handles.contains(handle) == !(event is Closed),
        m.after_event(handle, event).toplevels.contains_key(handle.id) == !(event is Closed),
{
    let known = m.registered(handle);
    assert(known.handles.contains(handle)) by {
        if !m.handles.contains(handle) {
            assert(known.handles[m.handles.len() as int] == handle);
        }
    }
    lemma_filter_contains(known.handles, other_than(handle));
}

/// Whatever the monitor hears keeps it well-formed.
pub proof fn law_hearing_keeps_monitor_well_formed(m: MonitorView, heard: Heard)
    requires
        m.well_formed(),
    ensures
        m.after(heard).well_formed(),
{
    let next = m.after(heard);
    match heard {
        Heard::Toplevel { handle, event } => {
            let known = m.registered(handle);
            lemma_registered_well_formed(m, handle);
            let toplevel = known.toplevels[handle.id];
            assert(known.toplevels.contains_key(handle.id));
            assert(toplevel.well_formed());
            match event {
                ToplevelEvent::OutputEnter { output } => {
                    law_outputs_stay_well_formed(toplevel, output);
                },
                ToplevelEvent::OutputLeave { output } => {
                    law_outputs_stay_well_formed(toplevel, output);
                },
                ToplevelEvent::Closed => {
                    lemma_filter_no_duplicates(known.handles, other_than(handle));
                    lemma_filter_contains(known.handles, other_than(handle));
                    assert forall|id: u32| #[trigger]
                        next.toplevels.contains_key(id) implies next.has_handle(id) by {
                        assert(known.toplevels.contains_key(id));
                        let i = choose|i: int|
                            0 <= i < known.handles.len() && (#[trigger] known.handles[i]).id == id;
                        let kept = known.handles[i];
                        assert(known.handles.contains(kept));
                        assert(next.handles.contains(kept));
                        let j = next.handles.index_of(kept);
                        assert(next.handles[j].id == id);
                    }
                },
                _ => {},
            }
            if !(event is Closed) {
                assert(next.handles == known.handles);
                assert forall|id: u32| #[trigger]
                    next.toplevels.contains_key(id) implies next.toplevels[id].well_formed()
                    && next.has_handle(id) by {
                    assert(known.toplevels.contains_key(id));
                    assert(known.has_handle(id));
                    let i = choose|i: int|
                        0 <= i < known.handles.len() && (#[trigger] known.handles[i]).id == id;
                    assert(next.handles[i].id == id);
                }
            } else {
                assert forall|id: u32| #[trigger]
                    next.toplevels.contains_key(id) implies next.toplevels[id].well_formed() by {
                    assert(known.toplevels.contains_key(id));
                }
            }
        },
        _ => {
            assert(next.handles == m.handles && next.toplevels == m.toplevels);
            assert forall|id: u32| #[trigger]
                next.toplevels.contains_key(id) implies next.toplevels[id].well_formed()
                && next.has_handle(id) by {
                assert(m.toplevels.contains_key(id));
                let i = choose|i: int|
                    0 <= i < m.handles.len() && (#[trigger] m.handles[i]).id == id;
                assert(next.handles[i].id == id);
            }
        },
    }
}

proof fn lemma_registered_well_formed(m: MonitorView, handle: Handle)
    requires
        m.well_formed(),
    ensures
        m.registered(handle).well_formed(),
{
    let known = m.registered(handle);
    assert forall|id: u32| #[trigger]
        known.toplevels.contains_key(id) implies known.toplevels[id].well_formed()
        && known.has_handle(id) by {
        if id == handle.id {
            if m.handles.contains(handle) {
                let i = m.handles.index_of(handle);
                assert(known.handles[i].id == id);
            } else {
                assert(known.handles[m.handles.len() as int].id == id);
            }
        } else {
            assert(m.toplevels.contains_key(id));
            let i = choose|i: int| 0 <= i < m.handles.len() && (#[trigger] m.handles[i]).id == id;
            assert(known.handles[i].id == id);
        }
        if m.toplevels.contains_key(id) {
            assert(m.toplevels[id].well_formed());
        }
    }
}

/// A monitor is well-formed at every moment, whatever it has heard.
pub proof fn law_monitor_is_always_well_formed(order: ByteOrder, history: Seq<Heard>)
    ensures
        after_history(order, history).well_formed(),
    decreases history.len(),
{
    if history.len() > 0 {
        law_monitor_is_always_well_formed(order, history.drop_last());
        law_hearing_keeps_monitor_well_formed(
            after_history(order, history.drop_last()),
            history.last(),
        );
    }
}

/// Where every handle has an id of its own, handles and toplevels stay in
/// step: every listed handle has its toplevel.
pub proof fn law_handles_and_toplevels_stay_in_step(
    m: MonitorView,
    handle: Handle,
    event: ToplevelEvent,
)
    requires
        m.one_to_one(),
        forall|i: int|
            0 <= i < m.handles.len() && (#[trigger] m.handles[i]).id == handle.id ==> m.handles[i]
                == handle,
    ensures
        m.after_event(handle, event).one_to_one(),
{
    let known = m.registered(handle);
    let next = m.after_event(handle, event);
    assert(known.one_to_one()) by {
        if !m.handles.contains(handle) {
            assert forall|i: int| 0 <= i < m.handles.len() implies (#[trigger] m.handles[i]).id
                != handle.id by {
                assert(m.handles.contains(m.handles[i]));
            }
        }
    }
    if event is Closed {
        let kept = next.handles;
        lemma_filter_contains(known.handles, other_than(handle));
        lemma_filter_no_duplicates_of_ids(known.handles, other_than(handle));
        assert forall|i: int| 0 <= i < kept.len() implies next.toplevels.contains_key(
            (#[trigger] kept[i]).id,
        ) by {
            assert(kept.contains(kept[i]));
            assert(known.handles.contains(kept[i]));
            let j = known.handles.index_of(kept[i]);
            assert(known.handles[j] == kept[i] && kept[i] != handle);
            if kept[i].id == handle.id {
                if j < m.handles.len() {
                    assert(m.handles[j].id == handle.id);
                }
            }
        }
    } else {
        assert(next.handles == known.handles);
        assert forall|i: int| 0 <= i < next.handles.len() implies next.toplevels.contains_key(
            (#[trigger] next.handles[i]).id,
        ) by {
            assert(known.toplevels.contains_key(known.handles[i].id));
        }
    }
}

proof fn lemma_filter_no_duplicates_of_ids(s: Seq<Handle>, keep: spec_fn(Handle) -> bool)
    requires
        forall|i: int, j: int|
            0 <= i < s.len() && 0 <= j < s.len() && (#[trigger] s[i]).id == (#[trigger] s[j]).id
                ==> i == j,
    ensures
        ({
            let kept = s.filter(keep);
            forall|i: int, j: int|
                0 <= i < kept.len() && 0 <= j < kept.len() && (#[trigger] kept[i]).id == (
                #[trigger] kept[j]).id ==> i == j
        }),
    decreases s.len(),
{
    reveal(Seq::filter);
    if s.len() > 0 {
        let rest = s.drop_last();
        lemma_filter_no_duplicates_of_ids(rest, keep);
        lemma_filter_contains(rest, keep);
        let kept = rest.filter(keep);
        assert forall|i: int| 0 <= i < kept.len() implies (#[trigger] kept[i]).id
            != s.last().id by {
            assert(kept.contains(kept[i]));
            assert(rest.contains(kept[i]));
            let j = rest.index_of(kept[i]);
            assert(s[j] == kept[i]);
            assert(s[s.len() - 1] == s.last());
        }
    }
}

/// Whether every id in the history belongs to one handle only.
pub open spec fn ids_are_unique(history: Seq<Heard>) -> bool {
    forall|i: int, j: int|
        0 <= i < history.len() && 0 <= j < history.len() ==> same_handle_for_same_id(
            #[trigger] history[i],
            #[trigger] history[j],
        )
}

/// Whether two things heard are of one handle, if of one id.
pub open spec fn same_handle_for_same_id(a: Heard, b: Heard) -> bool {
    a matches Heard::Toplevel { handle: x, .. } ==> b matches Heard::Toplevel { handle: y, .. }
        ==> x.id == y.id ==> x == y
}

/// Where every id belongs to one handle only, each listed handle has its
/// toplevel at every moment.
pub proof fn law_handles_and_toplevels_are_always_in_step(order: ByteOrder, history: Seq<Heard>)
    requires
        ids_are_unique(history),
    ensures
        after_history(order, history).one_to_one(),
    decreases history.len(),
{
    if history.len() > 0 {
        let earlier = history.drop_last();
        let m = after_history(order, earlier);
        law_handles_and_toplevels_are_always_in_step(order, earlier);
        match history.last() {
            Heard::Toplevel { handle, event } => {
                assert forall|i: int|
                    0 <= i < m.handles.len() && (#[trigger] m.handles[i]).id
                        == handle.id implies m.handles[i] == handle by {
                    lemma_listed_handle_was_heard(order, earlier, m.handles[i]);
                    let k = choose|k: int|
                        0 <= k < earlier.len() && is_of(#[trigger] earlier[k], m.handles[i]);
                    assert(same_handle_for_same_id(history[k], history[history.len() - 1]));
                }
                law_handles_and_toplevels_stay_in_step(m, handle, event);
            },
            _ => {},
        }
    }
}

/// Whether what was heard is an event of the handle.
pub open spec fn is_of(heard: Heard, handle: Handle) -> bool {
    heard matches Heard::Toplevel { handle: of, .. } && of == handle
}

proof fn lemma_listed_handle_was_heard(order: ByteOrder, history: Seq<Heard>, handle: Handle)
    requires
        after_history(order, history).handles.contains(handle),
    ensures
        exists|k: int| 0 <= k < history.len() && is_of(#[trigger] history[k], handle),
    decreases history.len(),
{
    if history.len() > 0 {
        let earlier = history.drop_last();
        let m = after_history(order, earlier);
        let last = history.len() - 1;
        if !is_of(history[last], handle) {
            match history.last() {
                Heard::Toplevel { handle: of, event } => {
                    lemma_filter_contains(m.registered(of).handles, other_than(of));
                    assert(m.registered(of).handles.contains(handle));
                    let i = m.registered(of).handles.index_of(handle);
                    assert(m.handles[i] == handle);
                },
                _ => {},
            }
            assert(m.handles.contains(handle));
            lemma_listed_handle_was_heard(order, earlier, handle);
            let k = choose|k: int|
                0 <= k < earlier.len() && is_of(#[trigger] earlier[k], handle);
            assert(is_of(history[k], handle));
        }
    }
}

/// The last name that an output has told, if any.
pub open spec fn last_name(history: Seq<Heard>, id: u32) -> Option<Seq<char>>
    decreases history.len(),
{
    if history.len() == 0 {
        None
    } else {
        match history.last() {
            Heard::OutputName { id: named, text } => if named == id {
                Some(text)
            } else {
                last_name(history.drop_last(), id)
            },
            _ => last_name(history.drop_last(), id),
        }
    }
}

/// An output is called by the last name that it has told, and by its id until
/// it has told one.
pub proof fn law_output_is_called_by_its_last_name(order: ByteOrder, history: Seq<Heard>, id: u32)
    ensures
        after_history(order, history).output_name(id) == match last_name(history, id) {
            Some(name) => name,
            None => "wl_output#"@ + decimal(id as nat),
        },
        after_history(order, history).output_names.contains_key(id) == (last_name(
            history,
            id,
        ) is Some),
    decreases history.len(),
{
    if history.len() > 0 {
        law_output_is_called_by_its_last_name(order, history.drop_last(), id);
    }
}

/// A toplevel that has been closed is called by its id alone.
pub proof fn law_closed_toplevel_loses_its_label(m: MonitorView, handle: Handle)
    ensures
        m.after_event(handle, ToplevelEvent::Closed).label(handle.id) == "#"@ + decimal(
            handle.id as nat,
        ),
{
}

/// The outputs listed for a toplevel are those that it has entered and not
/// left since.
pub proof fn law_listed_outputs_follow_history(
    order: ByteOrder,
    history: Seq<Heard>,
    id: u32,
    output: u32,
)
    ensures
        now_on(history, id, output) <==> {
            let m = after_history(order, history);
            m.toplevels.contains_key(id) && m.toplevels[id].outputs.contains(output)
        },
    decreases history.len(),
{
    if history.len() > 0 {
        let earlier = history.drop_last();
        let m = after_history(order, earlier);
        law_listed_outputs_follow_history(order, earlier, id, output);
        match history.last() {
            Heard::Toplevel { handle, event } => {
                if handle.id == id {
                    let known = m.registered(handle);
                    let toplevel = known.toplevels[id];
                    assert(toplevel.outputs.contains(output) <==> now_on(earlier, id, output));
                    match event {
                        ToplevelEvent::OutputEnter { output: entered } => {
                            law_entered_output_is_listed(toplevel, entered);
                        },
                        ToplevelEvent::OutputLeave { output: left } => {
                            law_left_output_is_gone(toplevel, left);
                        },
                        _ => {},
                    }
                } else {
                    law_other_toplevels_stay(m, handle, event, id);
                }
            },
            _ => {},
        }
    }
}

/// A toplevel counts as once shown exactly if it has entered an output since
/// it was first heard of.
pub proof fn law_entering_is_remembered(order: ByteOrder, history: Seq<Heard>, id: u32)
    ensures
        once_entered(history, id) <==> {
            let m = after_history(order, history);
            m.toplevels.contains_key(id) && m.toplevels[id].saw_output_enter
        },
    decreases history.len(),
{
    if history.len() > 0 {
        let earlier = history.drop_last();
        let m = after_history(order, earlier);
        law_entering_is_remembered(order, earlier, id);
        match history.last() {
            Heard::Toplevel { handle, event } => {
                if handle.id != id {
                    law_other_toplevels_stay(m, handle, event, id);
                }
            },
            _ => {},
        }
    }
}

/// A toplevel lacks outputs exactly if it has once entered one and is now on
/// none.
pub proof fn law_lacking_outputs_follows_history(order: ByteOrder, history: Seq<Heard>, id: u32)
    ensures
        after_history(order, history).lacks_outputs(id) <==> stranded(history, id),
{
    let m = after_history(order, history);
    law_entering_is_remembered(order, history, id);
    assert forall|output: u32| #[trigger] now_on(history, id, output) <==> (
    m.toplevels.contains_key(id) && m.toplevels[id].outputs.contains(output)) by {
        law_listed_outputs_follow_history(order, history, id, output);
    }
    if once_entered(history, id) {
        let outputs = m.toplevels[id].outputs;
        if outputs.len() > 0 {
            assert(outputs.contains(outputs[0]));
            assert(now_on(history, id, outputs[0]));
        }
    }
}

/// The count of flagged batches is the number of batches that ended with a
/// toplevel that once entered an output and was then on none.
pub proof fn law_flagged_batches_are_counted(order: ByteOrder, history: Seq<Heard>)
    ensures
        after_history(order, history).no_output_batches == strandings(history),
    decreases history.len(),
{
    if history.len() > 0 {
        let earlier = history.drop_last();
        let m = after_history(order, earlier);
        law_flagged_batches_are_counted(order, earlier);
        assert(history.take(history.len() - 1) =~= earlier);
        match history.last() {
            Heard::Toplevel { handle, event } => {
                law_lacking_outputs_follows_history(order, earlier, handle.id);
            },
            _ => {},
        }
    }
}

/// The monitor exits with 1 exactly if some batch ended with a toplevel that
/// once entered an output and was then on none; it exits with 0 otherwise.
pub proof fn law_exit_code_tells_stranding(order: ByteOrder, history: Seq<Heard>)
    ensures
        after_history(order, history).exit_code() == 1 <==> exists|k: int|
            0 <= k < history.len() && #[trigger] strands_at(history, k),
        after_history(order, history).exit_code() == 0 <==> forall|k: int|
            0 <= k < history.len() ==> !#[trigger] strands_at(history, k),
{
    law_flagged_batches_are_counted(order, history);
    lemma_strandings_positive(history);
}

proof fn lemma_strandings_positive(history: Seq<Heard>)
    ensures
        strandings(history) > 0 <==> exists|k: int|
            0 <= k < history.len() && #[trigger] strands_at(history, k),
    decreases history.len(),
{
    if history.len() > 0 {
        let earlier = history.drop_last();
        lemma_strandings_positive(earlier);
        assert forall|k: int| 0 <= k < earlier.len() implies #[trigger] strands_at(earlier, k)
            == strands_at(history, k) by {
            assert(earlier.take(k) =~= history.take(k));
        }
        if strandings(earlier) > 0 {
            let k = choose|k: int| 0 <= k < earlier.len() && #[trigger] strands_at(earlier, k);
            assert(strands_at(history, k));
        }
        if exists|k: int| 0 <= k < history.len() && #[trigger] strands_at(history, k) {
            let k = choose|k: int| 0 <= k < history.len() && #[trigger] strands_at(history, k);
            if k < earlier.len() {
                assert(strands_at(earlier, k));
            }
        }
    }
}

/// Every event that the monitor looks into is printed, on a line that starts
/// with the stamp; no other event is.
pub proof fn law_every_known_event_is_printed(
    m: MonitorView,
    handle: Handle,
    event: ToplevelEvent,
    stamp: Seq<char>,
)
    ensures
        match m.event_line(handle, event, stamp) {
            Some(line) => !(event is Other) && stamp.is_prefix_of(line),
            None => event is Other,
        },
{
    match m.event_line(handle, event, stamp) {
        Some(line) => {
            assert(line.subrange(0, stamp.len() as int) =~= stamp);
        },
        None => {},
    }
}

/// The line for the end of a batch closes with the flag exactly if the
/// toplevel lacks outputs, and then the batch is counted.
pub proof fn law_flag_marks_lost_outputs(m: MonitorView, handle: Handle, stamp: Seq<char>)
    ensures
        m.event_line(handle, ToplevelEvent::Done, stamp) is Some,
        " !!! NO OUTPUTS"@.is_suffix_of(m.event_line(handle, ToplevelEvent::Done, stamp)->0)
            <==> m.lacks_outputs(handle.id),
        m.after_event(handle, ToplevelEvent::Done).no_output_batches == m.no_output_batches + (
        if m.lacks_outputs(handle.id) {
            1int
        } else {
            0int
        }),
{
    let known = m.registered(handle);
    let toplevel = known.toplevels[handle.id];
    let line = m.event_line(handle, ToplevelEvent::Done, stamp)->0;
    let flag = " !!! NO OUTPUTS"@;
    reveal_strlit(" !!! NO OUTPUTS");
    reveal_strlit("true");
    reveal_strlit("false");
    assert(toplevel.lacks_outputs() == m.lacks_outputs(handle.id));
    if toplevel.lacks_outputs() {
        assert(line.subrange(line.len() - flag.len(), line.len() as int) =~= flag);
    } else {
        assert(line.last() == 'e');
        assert(flag.last() == 'S');
    }
}

} // verus!
