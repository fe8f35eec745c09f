//! The toplevel monitor: what it knows of the compositor's windows, how each
//! event changes that, and the line that it prints for it.

use std::collections::HashMap;
use vstd::prelude::*;

use crate::history::law_hearing_keeps_monitor_well_formed;
use crate::history::Heard;
use crate::text::append_bool;
use crate::text::append_bracketed;
use crate::text::append_decimal;
use crate::text::bool_text;
use crate::text::bracketed;
use crate::text::debug_text;
use crate::text::debug_texts;
use crate::text::decimal;
use crate::text::quoted;
use crate::text::same_text;
use crate::text::texts;
use crate::toplevel::append_state_names;
use crate::toplevel::decode_states;
use crate::toplevel::order_of_probe;
use crate::toplevel::other_than;
use crate::toplevel::probe_reads_as;
use crate::toplevel::state_names;
use crate::toplevel::words;
use crate::toplevel::ByteOrder;
use crate::toplevel::Toplevel;
use crate::toplevel::ToplevelView;

verus! {

/// A toplevel handle. Two handles are the same protocol object exactly if
/// both numbers agree.
#[derive(Clone, Copy, PartialEq, Eq, Structural, Debug)]
pub struct Handle {
    /// Which protocol object this is, counted over the whole connection.
    pub object: u64,
    /// Its id on the wire, under which its toplevel is listed.
    pub id: u32,
}

/// An event of a toplevel handle.
pub enum ToplevelEvent {
    Title { title: String },
    AppId { app_id: String },
    OutputEnter { output: u32 },
    OutputLeave { output: u32 },
    /// The state list, as the bytes that carry it.
    State { raw: Vec<u8> },
    /// The end of a batch of events.
    Done,
    Closed,
    /// An event that the monitor does not look into.
    Other,
}

/// What to do about a global that the registry announces.
#[derive(Clone, Copy, PartialEq, Eq, Structural, Debug)]
pub enum GlobalAction {
    BindSeat { name: u32, version: u32 },
    BindOutput { name: u32, version: u32 },
    /// Nothing yet: the toplevel manager is bound once the outputs are known.
    Remember,
    Ignore,
}

/// Everything that the monitor knows.
pub struct Monitor {
    /// The byte order of state lists.
    pub order: ByteOrder,
    /// The registry name and the version under which to bind the manager.
    pub manager_global: Option<(u32, u32)>,
    pub output_names: HashMap<u32, String>,
    pub toplevels: HashMap<u32, Toplevel>,
    pub handles: Vec<Handle>,
    /// How many batches ended with a toplevel that lost all its outputs.
    pub no_output_batches: u32,
}

/// The contents of a [`Monitor`].
#[verifier::ext_equal]
pub struct MonitorView {
    pub order: ByteOrder,
    pub manager_global: Option<(u32, u32)>,
    pub output_names: Map<u32, Seq<char>>,
    pub toplevels: Map<u32, ToplevelView>,
    pub handles: Seq<Handle>,
    pub no_output_batches: nat,
}

impl View for Monitor {
    type V = MonitorView;

    open spec fn view(&self) -> MonitorView {
        MonitorView {
            order: self.order,
            manager_global: self.manager_global,
            output_names: self.output_names@.map_values(|name: String| name@),
            toplevels: self.toplevels@.map_values(|toplevel: Toplevel| toplevel@),
            handles: self.handles@,
            no_output_batches: self.no_output_batches as nat,
        }
    }
}

/// The lesser of two versions.
pub open spec fn at_most(version: u32, limit: u32) -> u32 {
    if version < limit {
        version
    } else {
        limit
    }
}

/// The lesser of two versions.
pub fn capped(version: u32, limit: u32) -> (r: u32)
    ensures
        r == at_most(version, limit),
{
    if version < limit {
        version
    } else {
        limit
    }
}

/// What to do about a global of the given interface.
pub open spec fn global_action(name: u32, interface: Seq<char>, version: u32) -> GlobalAction {
    if interface == "wl_seat"@ {
        GlobalAction::BindSeat { name, version: at_most(version, 7) }
    } else if interface == "wl_output"@ {
        GlobalAction::BindOutput { name, version: at_most(version, 4) }
    } else if interface == "zwlr_foreign_toplevel_manager_v1"@ {
        GlobalAction::Remember
    } else {
        GlobalAction::Ignore
    }
}

impl MonitorView {
    /// A monitor that has heard nothing yet.
    pub open spec fn silent(order: ByteOrder) -> MonitorView {
        MonitorView {
            order,
            manager_global: None,
            output_names: Map::empty(),
            toplevels: Map::empty(),
            handles: Seq::empty(),
            no_output_batches: 0,
        }
    }

    /// A global was announced.
    pub open spec fn after_global(
        self,
        name: u32,
        interface: Seq<char>,
        version: u32,
    ) -> MonitorView {
        if global_action(name, interface, version) == GlobalAction::Remember {
            MonitorView { manager_global: Some((name, at_most(version, 3))), ..self }
        } else {
            self
        }
    }

    /// An output told its name.
    pub open spec fn after_output_name(self, id: u32, name: Seq<char>) -> MonitorView {
        MonitorView { output_names: self.output_names.insert(id, name), ..self }
    }

    /// How an output is called: by its name, or by its id until it has told
    /// one.
    pub open spec fn output_name(self, id: u32) -> Seq<char> {
        if self.output_names.contains_key(id) {
            self.output_names[id]
        } else {
            "wl_output#"@ + decimal(id as nat)
        }
    }

    /// How a toplevel is called.
    pub open spec fn label(self, id: u32) -> Seq<char> {
        if self.toplevels.contains_key(id) {
            "#"@ + decimal(id as nat) + "("@ + self.toplevels[id].app_id + " \""@
                + self.toplevels[id].title + "\")"@
        } else {
            "#"@ + decimal(id as nat)
        }
    }

    /// Whether the toplevel has shown on an output and now shows on none.
    pub open spec fn lacks_outputs(self, id: u32) -> bool {
        self.toplevels.contains_key(id) && self.toplevels[id].lacks_outputs()
    }

    /// The handle is known, and its toplevel is listed.
    pub open spec fn registered(self, handle: Handle) -> MonitorView {
        MonitorView {
            handles: if self.handles.contains(handle) {
                self.handles
            } else {
                self.handles.push(handle)
            },
            toplevels: if self.toplevels.contains_key(handle.id) {
                self.toplevels
            } else {
                self.toplevels.insert(handle.id, ToplevelView::unknown())
            },
            ..self
        }
    }

    /// One toplevel has changed.
    pub open spec fn with_toplevel(self, id: u32, toplevel: ToplevelView) -> MonitorView {
        MonitorView { toplevels: self.toplevels.insert(id, toplevel), ..self }
    }

    /// A toplevel handle sent an event.
    pub open spec fn after_event(self, handle: Handle, event: ToplevelEvent) -> MonitorView {
        let known = self.registered(handle);
        let toplevel = known.toplevels[handle.id];
        match event {
            ToplevelEvent::Title { title } => known.with_toplevel(
                handle.id,
                ToplevelView { title: title@, ..toplevel },
            ),
            ToplevelEvent::AppId { app_id } => known.with_toplevel(
                handle.id,
                ToplevelView { app_id: app_id@, ..toplevel },
            ),
            ToplevelEvent::OutputEnter { output } => known.with_toplevel(
                handle.id,
                toplevel.entered(output),
            ),
            ToplevelEvent::OutputLeave { output } => known.with_toplevel(
                handle.id,
                toplevel.left(output),
            ),
            ToplevelEvent::State { raw } => known.with_toplevel(
                handle.id,
                ToplevelView { states: words(raw@, self.order), ..toplevel },
            ),
            ToplevelEvent::Done => if toplevel.lacks_outputs() {
                MonitorView { no_output_batches: known.no_output_batches + 1, ..known }
            } else {
                known
            },
            ToplevelEvent::Closed => MonitorView {
                toplevels: known.toplevels.remove(handle.id),
                handles: known.handles.filter(other_than(handle)),
                ..known
            },
            ToplevelEvent::Other => known,
        }
    }

    /// The line that the event calls for.
    pub open spec fn event_line(
        self,
        handle: Handle,
        event: ToplevelEvent,
        stamp: Seq<char>,
    ) -> Option<Seq<char>> {
        let known = self.registered(handle);
        let toplevel = known.toplevels[handle.id];
        let label = known.label(handle.id);
        match event {
            ToplevelEvent::Title { title } => Some(
                title_text(stamp, handle.id, debug_text(title@)),
            ),
            ToplevelEvent::AppId { app_id } => Some(
                app_id_text(stamp, handle.id, debug_text(app_id@)),
            ),
            ToplevelEvent::OutputEnter { output } => Some(
                stamp + " "@ + label + " output_enter "@ + known.output_name(output),
            ),
            ToplevelEvent::OutputLeave { output } => Some(
                stamp + " "@ + label + " output_leave "@ + known.output_name(output),
            ),
            ToplevelEvent::State { raw } => Some(
                stamp + " "@ + label + " state="@ + bracketed(
                    state_names(words(raw@, self.order)),
                ),
            ),
            ToplevelEvent::Done => Some(
                done_text(
                    stamp,
                    label,
                    debug_texts(known.names_of(toplevel.outputs)),
                    toplevel.minimized(),
                    toplevel.lacks_outputs(),
                ),
            ),
            ToplevelEvent::Closed => Some(stamp + " "@ + label + " closed"@),
            ToplevelEvent::Other => None,
        }
    }

    /// How each of several outputs is called.
    pub open spec fn names_of(self, outputs: Seq<u32>) -> Seq<Seq<char>> {
        outputs.map_values(|output: u32| self.output_name(output))
    }
}

/// The line for a new title, given its quoted form.
pub open spec fn title_text(stamp: Seq<char>, id: u32, quoted_title: Seq<char>) -> Seq<char> {
    stamp + " #"@ + decimal(id as nat) + " title="@ + quoted_title
}

/// The line for a new app id, given its quoted form.
pub open spec fn app_id_text(stamp: Seq<char>, id: u32, quoted_app_id: Seq<char>) -> Seq<char> {
    stamp + " #"@ + decimal(id as nat) + " app_id="@ + quoted_app_id
}

/// What marks a batch that ended with a toplevel that lost all its outputs.
pub open spec fn flag_text(flagged: bool) -> Seq<char> {
    if flagged {
        " !!! NO OUTPUTS"@
    } else {
        Seq::empty()
    }
}

/// The line for the end of a batch, given the quoted names of the outputs.
pub open spec fn done_text(
    stamp: Seq<char>,
    label: Seq<char>,
    quoted_outputs: Seq<Seq<char>>,
    minimized: bool,
    flagged: bool,
) -> Seq<char> {
    stamp + " "@ + label + " done outputs="@ + bracketed(quoted_outputs) + " minimized="@
        + bool_text(minimized) + flag_text(flagged)
}

/// The line for a new title, given its quoted form.
pub fn title_line(stamp: &str, id: u32, quoted_title: &str) -> (r: String)
    ensures
        r@ == title_text(stamp@, id, quoted_title@),
{
    let mut r: String = stamp.to_owned();
    r.append(" #");
    append_decimal(&mut r, id as u64);
    r.append(" title=");
    r.append(quoted_title);
    r
}

/// The line for a new app id, given its quoted form.
pub fn app_id_line(stamp: &str, id: u32, quoted_app_id: &str) -> (r: String)
    ensures
        r@ == app_id_text(stamp@, id, quoted_app_id@),
{
    let mut r: String = stamp.to_owned();
    r.append(" #");
    append_decimal(&mut r, id as u64);
    r.append(" app_id=");
    r.append(quoted_app_id);
    r
}

/// The line for the end of a batch, given the quoted names of the outputs.
pub fn done_line(
    stamp: &str,
    label: &str,
    quoted_outputs: &Vec<String>,
    minimized: bool,
    flagged: bool,
) -> (r: String)
    ensures
        r@ == done_text(stamp@, label@, texts(quoted_outputs@), minimized, flagged),
{
    let mut r = labelled(stamp, label, " done outputs=");
    append_bracketed(&mut r, quoted_outputs);
    r.append(" minimized=");
    append_bool(&mut r, minimized);
    if flagged {
        r.append(" !!! NO OUTPUTS");
    }
    assert(r@ =~= done_text(stamp@, label@, texts(quoted_outputs@), minimized, flagged));
    r
}

/// A stamp, a label and what follows it.
fn labelled(stamp: &str, label: &str, rest: &str) -> (r: String)
    ensures
        r@ == stamp@ + " "@ + label@ + rest@,
{
    let mut r: String = stamp.to_owned();
    r.append(" ");
    r.append(label);
    r.append(rest);
    r
}

/// The handles other than one.
fn without(handles: &Vec<Handle>, unwanted: Handle) -> (r: Vec<Handle>)
    ensures
        r@ == handles@.filter(other_than(unwanted)),
{
    let ghost keep = other_than(unwanted);
    let mut kept: Vec<Handle> = Vec::new();
    let mut i: usize = 0;
    proof {
        reveal(Seq::filter);
    }
    while i < handles.len()
        invariant
            i <= handles.len(),
            keep == other_than(unwanted),
            kept@ == handles@.take(i as int).filter(keep),
        decreases handles.len() - i,
    {
        proof {
            reveal(Seq::filter);
            assert(handles@.take(i + 1).drop_last() =~= handles@.take(i as int));
        }
        if handles[i] != unwanted {
            kept.push(handles[i]);
        }
        i = i + 1;
    }
    assert(handles@.take(handles@.len() as int) =~= handles@);
    kept
}

impl Monitor {
    /// A monitor that has heard nothing yet, for state lists in the given
    /// byte order.
    pub fn new(order: ByteOrder) -> (r: Monitor)
        ensures
            r@ == MonitorView::silent(order),
            r@.well_formed(),
    {
        let r = Monitor {
            order,
            manager_global: None,
            output_names: HashMap::new(),
            toplevels: HashMap::new(),
            handles: Vec::new(),
            no_output_batches: 0,
        };
        assert(r@ =~= MonitorView::silent(order));
        r
    }

    /// A monitor that has heard nothing yet, for state lists in the byte order
    /// of this machine.
    pub fn for_this_machine() -> (r: Monitor)
        ensures
            exists|probe: u32| #[trigger]
                probe_reads_as(probe) && r@ == MonitorView::silent(order_of_probe(probe)),
            r@.well_formed(),
    {
        Monitor::new(ByteOrder::native())
    }

    /// Takes note of a global that the registry announces.
    pub fn global(&mut self, name: u32, interface: &str, version: u32) -> (r: GlobalAction)
        ensures
            r == global_action(name, interface@, version),
            final(self)@ == old(self)@.after_global(name, interface@, version),
    {
        if same_text(interface, "wl_seat") {
            GlobalAction::BindSeat { name, version: capped(version, 7) }
        } else if same_text(interface, "wl_output") {
            GlobalAction::BindOutput { name, version: capped(version, 4) }
        } else if same_text(interface, "zwlr_foreign_toplevel_manager_v1") {
            self.manager_global = Some((name, capped(version, 3)));
            GlobalAction::Remember
        } else {
            GlobalAction::Ignore
        }
    }

    /// Takes note of the name of an output.
    pub fn name_output(&mut self, id: u32, name: String)
        ensures
            final(self)@ == old(self)@.after_output_name(id, name@),
    {
        self.output_names.insert(id, name);
        assert(self@ =~= old(self)@.after_output_name(id, name@));
    }

    /// How an output is called.
    pub fn output_name(&self, id: u32) -> (r: String)
        ensures
            r@ == self@.output_name(id),
    {
        match self.output_names.get(&id) {
            Some(name) => name.clone(),
            None => {
                let mut r: String = "wl_output#".to_owned();
                append_decimal(&mut r, id as u64);
                r
            },
        }
    }

    /// How a toplevel is called.
    pub fn label(&self, id: u32) -> (r: String)
        ensures
            r@ == self@.label(id),
    {
        let mut r: String = "#".to_owned();
        append_decimal(&mut r, id as u64);
        match self.toplevels.get(&id) {
            Some(toplevel) => {
                r.append("(");
                r.append(toplevel.app_id.as_str());
                r.append(" \"");
                r.append(toplevel.title.as_str());
                r.append("\")");
            },
            None => {},
        }
        r
    }

    /// Whether the toplevel has shown on an output and now shows on none.
    pub fn lacks_outputs(&self, id: u32) -> (r: bool)
        ensures
            r == self@.lacks_outputs(id),
    {
        match self.toplevels.get(&id) {
            Some(toplevel) => toplevel.lacks_outputs(),
            None => false,
        }
    }

    /// Makes sure that a handle is known and its toplevel listed.
    fn register(&mut self, handle: Handle)
        ensures
            final(self)@ == old(self)@.registered(handle),
    {
        let mut known = false;
        let mut i: usize = 0;
        while i < self.handles.len() && !known
            invariant
                *self == *old(self),
                i <= self.handles.len(),
                known ==> self.handles@.contains(handle),
                !known ==> forall|j: int| 0 <= j < i ==> self.handles@[j] != handle,
            decreases self.handles.len() - i,
        {
            if self.handles[i] == handle {
                assert(self.handles@[i as int] == handle);
                known = true;
            }
            i = i + 1;
        }
        if !known {
            self.handles.push(handle);
        }
        if !self.toplevels.contains_key(&handle.id) {
            self.toplevels.insert(handle.id, Toplevel::default());
        }
        assert(self@ =~= old(self)@.registered(handle));
    }

    /// The quoted names of several outputs.
    fn quoted_names(&self, outputs: &Vec<u32>) -> (r: Vec<String>)
        ensures
            texts(r@) == debug_texts(self@.names_of(outputs@)),
    {
        let ghost wanted = debug_texts(self@.names_of(outputs@));
        let mut r: Vec<String> = Vec::new();
        let mut i: usize = 0;
        while i < outputs.len()
            invariant
                i <= outputs.len(),
                wanted == debug_texts(self@.names_of(outputs@)),
                texts(r@) == wanted.take(i as int),
            decreases outputs.len() - i,
        {
            let name = self.output_name(outputs[i]);
            let shown = quoted(name.as_str());
            let ghost before = r@;
            r.push(shown);
            assert(texts(r@) =~= texts(before).push(shown@));
            assert(wanted.take(i + 1) =~= wanted.take(i as int).push(shown@));
            i = i + 1;
        }
        assert(wanted.take(outputs@.len() as int) =~= wanted);
        r
    }

    /// Takes note of an event of a toplevel handle, and gives the line to
    /// print for it.
    pub fn toplevel_event(&mut self, handle: Handle, event: ToplevelEvent, stamp: &str) -> (r:
        Option<String>)
        requires
            event is Done && old(self)@.lacks_outputs(handle.id) ==> old(self).no_output_batches
                < u32::MAX,
        ensures
            final(self)@ == old(self)@.after_event(handle, event),
            old(self)@.well_formed() ==> final(self)@.well_formed(),
            match r {
                Some(line) => old(self)@.event_line(handle, event, stamp@) == Some(line@),
                None => old(self)@.event_line(handle, event, stamp@) is None,
            },
    {
        proof {
            if self@.well_formed() {
                law_hearing_keeps_monitor_well_formed(self@, Heard::Toplevel { handle, event });
            }
        }
        self.register(handle);
        let id = handle.id;
        match event {
            ToplevelEvent::Title { title } => {
                let shown = quoted(title.as_str());
                let line = title_line(stamp, id, shown.as_str());
                let toplevel = self.toplevels.entry(id).or_insert(Toplevel::default());
                toplevel.title = title;
                assert(self@ =~= old(self)@.after_event(handle, event));
                Some(line)
            },
            ToplevelEvent::AppId { app_id } => {
                let shown = quoted(app_id.as_str());
                let line = app_id_line(stamp, id, shown.as_str());
                let toplevel = self.toplevels.entry(id).or_insert(Toplevel::default());
                toplevel.app_id = app_id;
                assert(self@ =~= old(self)@.after_event(handle, event));
                Some(line)
            },
            ToplevelEvent::OutputEnter { output } => {
                let name = self.output_name(output);
                let label = self.label(id);
                let mut line = labelled(stamp, label.as_str(), " output_enter ");
                line.append(name.as_str());
                let toplevel = self.toplevels.entry(id).or_insert(Toplevel::default());
                toplevel.enter(output);
                assert(self@ =~= old(self)@.after_event(handle, event));
                Some(line)
            },
            ToplevelEvent::OutputLeave { output } => {
                let name = self.output_name(output);
                let label = self.label(id);
                let mut line = labelled(stamp, label.as_str(), " output_leave ");
                line.append(name.as_str());
                let toplevel = self.toplevels.entry(id).or_insert(Toplevel::default());
                toplevel.leave(output);
                assert(self@ =~= old(self)@.after_event(handle, event));
                Some(line)
            },
            ToplevelEvent::State { raw } => {
                let states = decode_states(&raw, self.order);
                let label = self.label(id);
                let mut line = labelled(stamp, label.as_str(), " state=");
                append_state_names(&mut line, &states);
                let toplevel = self.toplevels.entry(id).or_insert(Toplevel::default());
                toplevel.states = states;
                assert(self@ =~= old(self)@.after_event(handle, event));
                Some(line)
            },
            ToplevelEvent::Done => {
                let label = self.label(id);
                match self.toplevels.get(&id) {
                    Some(toplevel) => {
                        let outputs = self.quoted_names(&toplevel.outputs);
                        let minimized = toplevel.minimized();
                        let flagged = toplevel.lacks_outputs();
                        if flagged {
                            self.no_output_batches = self.no_output_batches + 1;
                        }
                        assert(self@ =~= old(self)@.after_event(handle, event));
                        Some(done_line(stamp, label.as_str(), &outputs, minimized, flagged))
                    },
                    None => {
                        assert(false);
                        None
                    },
                }
            },
            ToplevelEvent::Closed => {
                let label = self.label(id);
                let line = labelled(stamp, label.as_str(), " closed");
                self.toplevels.remove(&id);
                self.handles = without(&self.handles, handle);
                assert(self@ =~= old(self)@.after_event(handle, event));
                Some(line)
            },
            ToplevelEvent::Other => None,
        }
    }
}

} // verus!
