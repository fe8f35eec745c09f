//! What each thing that the monitor hears does to what it knows and to what
//! it prints, field by field and over whole histories.

use vstd::prelude::*;

use crate::history::after_history;
use crate::history::law_lacking_outputs_follows_history;
use crate::history::law_listed_outputs_follow_history;
use crate::history::law_monitor_is_always_well_formed;
use crate::history::law_other_toplevels_stay;
use crate::history::law_output_is_called_by_its_last_name;
use crate::history::last_name;
use crate::history::now_on;
use crate::history::stranded;
use crate::history::Heard;
use crate::monitor::app_id_text;
use crate::monitor::done_text;
use crate::monitor::global_action;
use crate::monitor::title_text;
use crate::monitor::GlobalAction;
use crate::monitor::Handle;
use crate::monitor::Monitor;
use crate::monitor::MonitorView;
use crate::monitor::ToplevelEvent;
use crate::text::bracketed;
use crate::text::debug_text;
use crate::text::debug_texts;
use crate::text::decimal;
use crate::toplevel::law_words_are_read_four_bytes_each;
use crate::toplevel::lemma_filter_contains;
use crate::toplevel::lemma_filter_keeps_order;
use crate::toplevel::lemma_filter_takes_out;
use crate::toplevel::other_than;
use crate::toplevel::state_names;
use crate::toplevel::words;
use crate::toplevel::ByteOrder;

verus! {

/// A view shows every field as it is.
pub proof fn law_monitor_view_is_faithful(m: Monitor, id: u32)
    ensures
        m@.order == m.order,
        m@.manager_global == m.manager_global,
        m@.handles == m.handles@,
        m@.no_output_batches == m.no_output_batches,
        m@.output_names.contains_key(id) == m.output_names@.contains_key(id),
        m.output_names@.contains_key(id) ==> m@.output_names[id] == m.output_names@[id]@,
        m@.toplevels.contains_key(id) == m.toplevels@.contains_key(id),
        m.toplevels@.contains_key(id) ==> m@.toplevels[id] == m.toplevels@[id]@,
{
}

/// A silent monitor knows nothing but its byte order.
pub proof fn law_silent_monitor_knows_nothing(order: ByteOrder, id: u32)
    ensures
        ({
            let m = MonitorView::silent(order);
            &&& m.order == order
            &&& m.manager_global is None
            &&& !m.output_names.contains_key(id)
            &&& !m.toplevels.contains_key(id)
            &&& m.handles.len() == 0
            &&& m.no_output_batches == 0
        }),
{
}

/// Whether a bound version is the announced one, or the limit where that is
/// lower.
pub open spec fn is_lesser(r: u32, version: u32, limit: u32) -> bool {
    r <= version && r <= limit && (r == version || r == limit)
}

/// A seat and an output are bound under their own names, in the announced
/// version or the highest that the monitor speaks; the manager is remembered;
/// everything else is left alone.
pub proof fn law_globals_are_bound_by_interface(name: u32, interface: Seq<char>, version: u32)
    ensures
        match global_action(name, interface, version) {
            GlobalAction::BindSeat { name: n, version: v } => interface == "wl_seat"@ && n == name
                && is_lesser(v, version, 7),
            GlobalAction::BindOutput { name: n, version: v } => interface == "wl_output"@ && n
                == name && is_lesser(v, version, 4),
            GlobalAction::Remember => interface == "zwlr_foreign_toplevel_manager_v1"@,
            GlobalAction::Ignore => interface != "wl_seat"@ && interface != "wl_output"@
                && interface != "zwlr_foreign_toplevel_manager_v1"@,
        },
{
}

/// A global changes at most what is known of the manager, and that only where
/// it is one: the newest is kept, in a version of at most three.
pub proof fn law_global_touches_the_manager_only(
    m: MonitorView,
    name: u32,
    interface: Seq<char>,
    version: u32,
)
    ensures
        ({
            let next = m.after_global(name, interface, version);
            &&& next.order == m.order
            &&& next.output_names == m.output_names
            &&& next.toplevels == m.toplevels
            &&& next.handles == m.handles
            &&& next.no_output_batches == m.no_output_batches
            &&& if interface == "zwlr_foreign_toplevel_manager_v1"@ {
                next.manager_global matches Some((n, v)) && n == name && is_lesser(v, version, 3)
            } else {
                next.manager_global == m.manager_global
            }
        }),
{
    reveal_strlit("wl_seat");
    reveal_strlit("wl_output");
    reveal_strlit("zwlr_foreign_toplevel_manager_v1");
    assert("wl_seat"@.len() != "zwlr_foreign_toplevel_manager_v1"@.len());
    assert("wl_output"@.len() != "zwlr_foreign_toplevel_manager_v1"@.len());
}

/// The name of an output changes that one name.
pub proof fn law_output_name_touches_that_name_only(
    m: MonitorView,
    id: u32,
    name: Seq<char>,
    other: u32,
)
    ensures
        ({
            let next = m.after_output_name(id, name);
            &&& next.output_names.contains_key(id) && next.output_names[id] == name
            &&& other != id ==> next.output_names.contains_key(other)
                == m.output_names.contains_key(other)
            &&& other != id && m.output_names.contains_key(other) ==> next.output_names[other]
                == m.output_names[other]
            &&& next.order == m.order
            &&& next.manager_global == m.manager_global
            &&& next.toplevels == m.toplevels
            &&& next.handles == m.handles
            &&& next.no_output_batches == m.no_output_batches
        }),
{
}

/// The title that is known of an id; none is the empty one.
pub open spec fn known_title(m: MonitorView, id: u32) -> Seq<char> {
    if m.toplevels.contains_key(id) {
        m.toplevels[id].title
    } else {
        seq![]
    }
}

/// The app id that is known of an id; none is the empty one.
pub open spec fn known_app_id(m: MonitorView, id: u32) -> Seq<char> {
    if m.toplevels.contains_key(id) {
        m.toplevels[id].app_id
    } else {
        seq![]
    }
}

/// The states that are known of an id.
pub open spec fn known_states(m: MonitorView, id: u32) -> Seq<u32> {
    if m.toplevels.contains_key(id) {
        m.toplevels[id].states
    } else {
        seq![]
    }
}

/// The outputs that are known of an id.
pub open spec fn known_outputs(m: MonitorView, id: u32) -> Seq<u32> {
    if m.toplevels.contains_key(id) {
        m.toplevels[id].outputs
    } else {
        seq![]
    }
}

/// Whether an id is known to have entered an output.
pub open spec fn known_entered(m: MonitorView, id: u32) -> bool {
    m.toplevels.contains_key(id) && m.toplevels[id].saw_output_enter
}

/// Each event replaces what it tells, and leaves the rest of its toplevel as
/// it was: a title the title, an app id the app id, a state list the states,
/// and an output the list of outputs. Closing removes the toplevel.
pub proof fn law_event_replaces_what_it_tells(m: MonitorView, handle: Handle, event: ToplevelEvent)
    requires
        known_outputs(m, handle.id).no_duplicates(),
    ensures
        ({
            let id = handle.id;
            let next = m.after_event(handle, event);
            let now = next.toplevels[id];
            let outputs = known_outputs(m, id);
            &&& next.toplevels.contains_key(id) == !(event is Closed)
            &&& !(event is Closed) ==> {
                &&& now.title == (match event {
                    ToplevelEvent::Title { title } => title@,
                    _ => known_title(m, id),
                })
                &&& now.app_id == (match event {
                    ToplevelEvent::AppId { app_id } => app_id@,
                    _ => known_app_id(m, id),
                })
                &&& now.states == (match event {
                    ToplevelEvent::State { raw } => words(raw@, m.order),
                    _ => known_states(m, id),
                })
                &&& now.outputs == (match event {
                    ToplevelEvent::OutputEnter { output } => if outputs.contains(output) {
                        outputs
                    } else {
                        outputs.push(output)
                    },
                    ToplevelEvent::OutputLeave { output } => if outputs.contains(output) {
                        outputs.remove(outputs.index_of(output))
                    } else {
                        outputs
                    },
                    _ => outputs,
                })
                &&& now.saw_output_enter == (known_entered(m, id) || event is OutputEnter)
            }
            &&& next.no_output_batches == m.no_output_batches + (if event is Done && known_entered(
                m,
                id,
            ) && outputs.len() == 0 {
                1int
            } else {
                0int
            })
        }),
{
    match event {
        ToplevelEvent::OutputLeave { output } => {
            lemma_filter_takes_out(m.registered(handle).toplevels[handle.id].outputs, output);
        },
        _ => {},
    }
}

/// A handle that is heard for the first time goes to the end of the list; a
/// closed one goes out of it; the others keep their places.
pub proof fn law_handles_are_listed_in_order(m: MonitorView, handle: Handle, event: ToplevelEvent)
    requires
        m.handles.no_duplicates(),
    ensures
        m.after_event(handle, event).handles == (if event is Closed {
            if m.handles.contains(handle) {
                m.handles.remove(m.handles.index_of(handle))
            } else {
                m.handles
            }
        } else if m.handles.contains(handle) {
            m.handles
        } else {
            m.handles.push(handle)
        }),
{
    let known = m.registered(handle).handles;
    if event is Closed {
        lemma_filter_takes_out(m.handles, handle);
        if !m.handles.contains(handle) {
            assert(known.filter(other_than(handle)) == m.handles) by {
                reveal(Seq::filter);
                assert(known.drop_last() =~= m.handles);
            }
        }
    }
}

/// How a listed toplevel is shown: its id, and then its app id and its quoted
/// title in brackets.
pub open spec fn full_label(id: u32, app_id: Seq<char>, title: Seq<char>) -> Seq<char> {
    "#"@ + decimal(id as nat) + "("@ + app_id + " \""@ + title + "\")"@
}

/// A label shows the id, and for a listed toplevel also its app id and its
/// title.
pub proof fn law_label_shows_app_id_and_title(m: MonitorView, id: u32)
    ensures
        m.label(id) == (if m.toplevels.contains_key(id) {
            full_label(id, m.toplevels[id].app_id, m.toplevels[id].title)
        } else {
            "#"@ + decimal(id as nat)
        }),
{
}

/// An output is called by the name that is known of it, whatever that is, or
/// else by its id.
pub proof fn law_output_is_called_by_its_known_name(m: MonitorView, id: u32)
    ensures
        m.output_names.contains_key(id) ==> m.output_name(id) == m.output_names[id],
        !m.output_names.contains_key(id) ==> m.output_name(id) == "wl_output#"@ + decimal(
            id as nat,
        ),
{
}

/// The lines whose last part is handed in show that part as it is, behind the
/// stamp, the id and what it is.
pub proof fn law_title_and_app_id_lines(stamp: Seq<char>, id: u32, shown: Seq<char>)
    ensures
        title_text(stamp, id, shown) == stamp + " #"@ + decimal(id as nat) + " title="@ + shown,
        app_id_text(stamp, id, shown) == stamp + " #"@ + decimal(id as nat) + " app_id="@ + shown,
{
}

/// The line of a batch shows every output that is handed in, and whether the
/// window is minimized; the flag comes last, and only where it is called for.
pub proof fn law_done_line_shows_all_its_parts(
    stamp: Seq<char>,
    label: Seq<char>,
    outputs: Seq<Seq<char>>,
    minimized: bool,
    flagged: bool,
)
    ensures
        ({
            let shown = stamp + " "@ + label + " done outputs="@ + bracketed(outputs)
                + " minimized="@ + (if minimized {
                "true"@
            } else {
                "false"@
            });
            done_text(stamp, label, outputs, minimized, flagged) == (if flagged {
                shown + " !!! NO OUTPUTS"@
            } else {
                shown
            })
        }),
{
    let shown = stamp + " "@ + label + " done outputs="@ + bracketed(outputs) + " minimized="@ + (
    if minimized {
        "true"@
    } else {
        "false"@
    });
    if !flagged {
        assert(done_text(stamp, label, outputs, minimized, flagged) =~= shown);
    }
}

/// The quoted names of several outputs, one for one and in order.
pub open spec fn shown_outputs(m: MonitorView, outputs: Seq<u32>) -> Seq<Seq<char>> {
    Seq::new(outputs.len(), |i: int| debug_text(m.output_name(outputs[i])))
}

/// Each event is printed with its stamp, with what it is about as it was known
/// before, and with what the event tells.
pub proof fn law_event_lines_tell_the_event(
    m: MonitorView,
    handle: Handle,
    event: ToplevelEvent,
    stamp: Seq<char>,
)
    ensures
        ({
            let id = handle.id;
            let about = stamp + " "@ + full_label(id, known_app_id(m, id), known_title(m, id));
            let number = stamp + " #"@ + decimal(id as nat);
            m.event_line(handle, event, stamp) == (match event {
                ToplevelEvent::Title { title } => Some(number + " title="@ + debug_text(title@)),
                ToplevelEvent::AppId { app_id } => Some(
                    number + " app_id="@ + debug_text(app_id@),
                ),
                ToplevelEvent::OutputEnter { output } => Some(
                    about + " output_enter "@ + m.output_name(output),
                ),
                ToplevelEvent::OutputLeave { output } => Some(
                    about + " output_leave "@ + m.output_name(output),
                ),
                ToplevelEvent::State { raw } => Some(
                    about + " state="@ + bracketed(state_names(words(raw@, m.order))),
                ),
                ToplevelEvent::Done => Some(
                    about + " done outputs="@ + bracketed(
                        shown_outputs(m, known_outputs(m, id)),
                    ) + " minimized="@ + (if known_states(m, id).contains(1) {
                        "true"@
                    } else {
                        "false"@
                    }) + (if known_entered(m, id) && known_outputs(m, id).len() == 0 {
                        " !!! NO OUTPUTS"@
                    } else {
                        seq![]
                    }),
                ),
                ToplevelEvent::Closed => Some(about + " closed"@),
                ToplevelEvent::Other => None,
            })
        }),
{
    let known = m.registered(handle);
    let id = handle.id;
    assert(known.label(id) == full_label(id, known_app_id(m, id), known_title(m, id)));
    assert(forall|output: u32| known.output_name(output) == m.output_name(output));
    assert(debug_texts(known.names_of(known.toplevels[id].outputs)) =~= shown_outputs(
        m,
        known_outputs(m, id),
    ));
}

/// Whether the toplevel has been heard of, and not been closed since.
pub open spec fn open_in(history: Seq<Heard>, id: u32) -> bool
    decreases history.len(),
{
    if history.len() == 0 {
        false
    } else {
        match history.last() {
            Heard::Toplevel { handle, event } => if handle.id == id {
                !(event is Closed)
            } else {
                open_in(history.drop_last(), id)
            },
            _ => open_in(history.drop_last(), id),
        }
    }
}

/// The last title that the toplevel has told since it was last closed; the
/// empty one where it has told none.
pub open spec fn last_title(history: Seq<Heard>, id: u32) -> Seq<char>
    decreases history.len(),
{
    if history.len() == 0 {
        seq![]
    } else {
        match history.last() {
            Heard::Toplevel { handle, event } => match event {
                ToplevelEvent::Title { title } if handle.id == id => title@,
                ToplevelEvent::Closed if handle.id == id => seq![],
                _ => last_title(history.drop_last(), id),
            },
            _ => last_title(history.drop_last(), id),
        }
    }
}

/// The last app id that the toplevel has told since it was last closed; the
/// empty one where it has told none.
pub open spec fn last_app_id(history: Seq<Heard>, id: u32) -> Seq<char>
    decreases history.len(),
{
    if history.len() == 0 {
        seq![]
    } else {
        match history.last() {
            Heard::Toplevel { handle, event } => match event {
                ToplevelEvent::AppId { app_id } if handle.id == id => app_id@,
                ToplevelEvent::Closed if handle.id == id => seq![],
                _ => last_app_id(history.drop_last(), id),
            },
            _ => last_app_id(history.drop_last(), id),
        }
    }
}

/// The bytes of the last state list that the toplevel has told since it was
/// last closed; no bytes where it has told none.
pub open spec fn last_state_bytes(history: Seq<Heard>, id: u32) -> Seq<u8>
    decreases history.len(),
{
    if history.len() == 0 {
        seq![]
    } else {
        match history.last() {
            Heard::Toplevel { handle, event } => match event {
                ToplevelEvent::State { raw } if handle.id == id => raw@,
                ToplevelEvent::Closed if handle.id == id => seq![],
                _ => last_state_bytes(history.drop_last(), id),
            },
            _ => last_state_bytes(history.drop_last(), id),
        }
    }
}

/// Over a whole history, a toplevel is listed while it is open, its title, its
/// app id and its states are the last that it told since it was last closed,
/// and the byte order never changes.
pub proof fn law_toplevel_shows_what_it_told_last(order: ByteOrder, history: Seq<Heard>, id: u32)
    ensures
        ({
            let m = after_history(order, history);
            &&& m.order == order
            &&& m.toplevels.contains_key(id) == open_in(history, id)
            &&& known_title(m, id) == last_title(history, id)
            &&& known_app_id(m, id) == last_app_id(history, id)
            &&& known_states(m, id) == words(last_state_bytes(history, id), order)
        }),
    decreases history.len(),
{
    assert(words(Seq::<u8>::empty(), order) =~= Seq::<u32>::empty());
    if history.len() > 0 {
        let earlier = history.drop_last();
        let m = after_history(order, earlier);
        law_toplevel_shows_what_it_told_last(order, earlier, id);
        match history.last() {
            Heard::Toplevel { handle, event } => {
                if handle.id == id {
                    law_monitor_is_always_well_formed(order, earlier);
                    if m.toplevels.contains_key(id) {
                        assert(m.toplevels[id].well_formed());
                    }
                    law_event_replaces_what_it_tells(m, handle, event);
                } else {
                    law_other_toplevels_stay(m, handle, event, id);
                }
            },
            _ => {},
        }
    }
}

/// Where in the history the toplevel entered the output for the stay that
/// still lasts.
pub open spec fn entered_at(history: Seq<Heard>, id: u32, output: u32) -> int
    decreases history.len(),
{
    if history.len() == 0 {
        -1
    } else {
        let earlier = history.drop_last();
        match history.last() {
            Heard::Toplevel { handle, event } => if handle.id == id && event == (
            ToplevelEvent::OutputEnter { output }) && !now_on(earlier, id, output) {
                history.len() - 1
            } else {
                entered_at(earlier, id, output)
            },
            _ => entered_at(earlier, id, output),
        }
    }
}

/// Whether a list of outputs holds those that the toplevel has entered and not
/// left since, each of them once, in the order in which it entered them.
pub open spec fn in_order_of_entering(history: Seq<Heard>, id: u32, outputs: Seq<u32>) -> bool {
    &&& outputs.no_duplicates()
    &&& forall|output: u32| #[trigger] outputs.contains(output) <==> now_on(history, id, output)
    &&& forall|i: int, j: int|
        0 <= i < j < outputs.len() ==> entered_at(history, id, #[trigger] outputs[i]) < entered_at(
            history,
            id,
            #[trigger] outputs[j],
        )
}

/// Over a whole history, the outputs of a toplevel are those that it has
/// entered and not left since, each of them once, in the order in which it
/// entered them.
pub proof fn law_outputs_are_in_order_of_entering(
    order: ByteOrder,
    history: Seq<Heard>,
    id: u32,
)
    ensures
        in_order_of_entering(history, id, known_outputs(after_history(order, history), id)),
{
    let m = after_history(order, history);
    law_monitor_is_always_well_formed(order, history);
    if m.toplevels.contains_key(id) {
        assert(m.toplevels[id].well_formed());
    }
    assert forall|output: u32| #[trigger]
        known_outputs(m, id).contains(output) <==> now_on(history, id, output) by {
        law_listed_outputs_follow_history(order, history, id, output);
    }
    lemma_order_of_entering(order, history, id);
}

proof fn lemma_order_of_entering(order: ByteOrder, history: Seq<Heard>, id: u32)
    ensures
        ({
            let outputs = known_outputs(after_history(order, history), id);
            &&& forall|i: int, j: int|
                0 <= i < j < outputs.len() ==> entered_at(history, id, #[trigger] outputs[i])
                    < entered_at(history, id, #[trigger] outputs[j])
            &&& forall|i: int|
                0 <= i < outputs.len() ==> entered_at(history, id, #[trigger] outputs[i])
                    < history.len()
        }),
    decreases history.len(),
{
    if history.len() > 0 {
        let earlier = history.drop_last();
        let m = after_history(order, earlier);
        let before = known_outputs(m, id);
        let after = known_outputs(after_history(order, history), id);
        lemma_order_of_entering(order, earlier, id);
        match history.last() {
            Heard::Toplevel { handle, event } => {
                if handle.id != id {
                    law_other_toplevels_stay(m, handle, event, id);
                    assert(after == before);
                } else {
                    match event {
                        ToplevelEvent::OutputEnter { output } => {
                            law_listed_outputs_follow_history(order, earlier, id, output);
                            assert forall|other: u32| other != output || before.contains(
                                output,
                            ) implies #[trigger] entered_at(history, id, other) == entered_at(
                                earlier,
                                id,
                                other,
                            ) by {}
                            if before.contains(output) {
                                assert(after == before);
                            } else {
                                assert(after == before.push(output));
                                assert(entered_at(history, id, output) == history.len() - 1);
                                assert forall|i: int| 0 <= i < before.len() implies (
                                #[trigger] before[i]) != output by {
                                    assert(before.contains(before[i]));
                                }
                                assert forall|i: int, j: int|
                                    0 <= i < j < after.len() implies entered_at(
                                    history,
                                    id,
                                    #[trigger] after[i],
                                ) < entered_at(history, id, #[trigger] after[j]) by {
                                    assert(after[i] == before[i]);
                                    if j < before.len() {
                                        assert(after[j] == before[j]);
                                    }
                                }
                                assert forall|i: int| 0 <= i < after.len() implies entered_at(
                                    history,
                                    id,
                                    #[trigger] after[i],
                                ) < history.len() by {
                                    if i < before.len() {
                                        assert(after[i] == before[i]);
                                    }
                                }
                            }
                        },
                        ToplevelEvent::OutputLeave { output } => {
                            let rank = |x: u32| entered_at(earlier, id, x);
                            assert(after == before.filter(other_than(output)));
                            lemma_filter_keeps_order(before, other_than(output), rank);
                            lemma_filter_contains(before, other_than(output));
                            assert forall|i: int, j: int|
                                0 <= i < j < after.len() implies entered_at(
                                history,
                                id,
                                #[trigger] after[i],
                            ) < entered_at(history, id, #[trigger] after[j]) by {
                                assert(rank(after[i]) < rank(after[j]));
                            }
                            assert forall|i: int| 0 <= i < after.len() implies entered_at(
                                history,
                                id,
                                #[trigger] after[i],
                            ) < history.len() by {
                                assert(after.contains(after[i]));
                                assert(before.contains(after[i]));
                                let j = before.index_of(after[i]);
                                assert(before[j] == after[i]);
                            }
                        },
                        ToplevelEvent::Closed => {
                            assert(after.len() == 0);
                        },
                        _ => {
                            assert(after == before);
                        },
                    }
                }
            },
            _ => {
                assert(after == before);
            },
        }
    }
}

/// Whether the four bytes at position `4 * i` spell the number one.
pub open spec fn spells_one(raw: Seq<u8>, order: ByteOrder, i: int) -> bool {
    &&& 0 <= 4 * i
    &&& 4 * i + 4 <= raw.len()
    &&& raw[4 * i + 1] == 0
    &&& raw[4 * i + 2] == 0
    &&& match order {
        ByteOrder::Little => raw[4 * i] == 1 && raw[4 * i + 3] == 0,
        ByteOrder::Big => raw[4 * i] == 0 && raw[4 * i + 3] == 1,
    }
}

/// Whether a state list, as bytes, says that the window is minimized.
pub open spec fn says_minimized(raw: Seq<u8>, order: ByteOrder) -> bool {
    exists|i: int| #[trigger] spells_one(raw, order, i)
}

proof fn lemma_says_minimized(raw: Seq<u8>, order: ByteOrder)
    ensures
        words(raw, order).contains(1) <==> says_minimized(raw, order),
{
    law_words_are_read_four_bytes_each(raw);
    let list = words(raw, order);
    if list.contains(1) {
        let i = list.index_of(1);
        assert(list[i] == 1);
        assert(spells_one(raw, order, i));
    }
    if says_minimized(raw, order) {
        let i = choose|i: int| #[trigger] spells_one(raw, order, i);
        assert(0 <= i < list.len());
        assert(list[i] == 1);
    }
}

/// Over a whole history, the line of a batch shows the toplevel as it last
/// called itself, the quoted name of each output that it has entered and not
/// left since, in the order of entering, whether its last state list says that
/// it is minimized, and the flag exactly if it has been on an output and is on
/// none.
pub proof fn law_done_line_follows_history(
    order: ByteOrder,
    history: Seq<Heard>,
    handle: Handle,
    stamp: Seq<char>,
)
    ensures
        exists|outputs: Seq<u32>, names: Seq<Seq<char>>|
            {
                &&& #[trigger] in_order_of_entering(history, handle.id, outputs)
                &&& #[trigger] are_quoted_names(history, outputs, names)
                &&& after_history(order, history).event_line(handle, ToplevelEvent::Done, stamp)
                    == Some(
                    stamp + " "@ + full_label(
                        handle.id,
                        last_app_id(history, handle.id),
                        last_title(history, handle.id),
                    ) + " done outputs="@ + bracketed(names) + " minimized="@ + (
                    if says_minimized(last_state_bytes(history, handle.id), order) {
                        "true"@
                    } else {
                        "false"@
                    }) + (if stranded(history, handle.id) {
                        " !!! NO OUTPUTS"@
                    } else {
                        seq![]
                    }),
                )
            },
{
    let m = after_history(order, history);
    let id = handle.id;
    let outputs = known_outputs(m, id);
    let names = shown_outputs(m, outputs);
    law_toplevel_shows_what_it_told_last(order, history, id);
    law_outputs_are_in_order_of_entering(order, history, id);
    law_lacking_outputs_follows_history(order, history, id);
    lemma_says_minimized(last_state_bytes(history, id), order);
    law_event_lines_tell_the_event(m, handle, ToplevelEvent::Done, stamp);
    assert(are_quoted_names(history, outputs, names)) by {
        assert forall|i: int| 0 <= i < outputs.len() implies #[trigger] names[i] == debug_text(
            name_in(history, outputs[i]),
        ) by {
            law_output_is_called_by_its_last_name(order, history, outputs[i]);
        }
    }
    assert(m.lacks_outputs(id) <==> known_entered(m, id) && outputs.len() == 0);
}

/// How an output is called after a history: by the last name that it told, or
/// else by its id.
pub open spec fn name_in(history: Seq<Heard>, output: u32) -> Seq<char> {
    match last_name(history, output) {
        Some(name) => name,
        None => "wl_output#"@ + decimal(output as nat),
    }
}

/// Whether the names are those of the outputs, quoted, one for one and in
/// order.
pub open spec fn are_quoted_names(
    history: Seq<Heard>,
    outputs: Seq<u32>,
    names: Seq<Seq<char>>,
) -> bool {
    names.len() == outputs.len() && forall|i: int|
        0 <= i < outputs.len() ==> #[trigger] names[i] == debug_text(name_in(history, outputs[i]))
}

/// The outputs in a batch's line are none exactly if the toplevel is on none.
pub proof fn law_no_outputs_are_shown_exactly_if_on_none(
    history: Seq<Heard>,
    id: u32,
    outputs: Seq<u32>,
)
    requires
        in_order_of_entering(history, id, outputs),
    ensures
        outputs.len() == 0 <==> forall|output: u32| !#[trigger] now_on(history, id, output),
{
    if outputs.len() > 0 {
        assert(outputs.contains(outputs[0]));
        assert(now_on(history, id, outputs[0]));
    } else {
        assert forall|output: u32| !#[trigger] now_on(history, id, output) by {
            assert(!outputs.contains(output));
        }
    }
}

} // verus!
