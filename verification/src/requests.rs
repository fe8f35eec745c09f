//! The minimize requests that the monitor sends on behalf of a taskbar
//! click, and the summary with which it ends.

use vstd::prelude::*;

use crate::monitor::Handle;
use crate::monitor::Monitor;
use crate::monitor::MonitorView;
use crate::text::append_decimal;
use crate::text::debug_text;
use crate::text::decimal;
use crate::text::quoted;

verus! {

/// A request to minimize a window or to bring it back.
pub struct MinimizeRequest {
    /// The app id of the window.
    pub target: String,
    /// Whether the window is to be minimized or brought back.
    pub minimize: bool,
    /// The handle to send it to, if any toplevel has that app id.
    pub handle: Option<Handle>,
}

/// The contents of a [`MinimizeRequest`].
#[verifier::ext_equal]
pub struct MinimizeRequestView {
    pub target: Seq<char>,
    pub minimize: bool,
    pub handle: Option<Handle>,
}

impl View for MinimizeRequest {
    type V = MinimizeRequestView;

    open spec fn view(&self) -> MinimizeRequestView {
        MinimizeRequestView {
            target: self.target@,
            minimize: self.minimize,
            handle: self.handle,
        }
    }
}

impl MonitorView {
    /// Whether the toplevel of the handle at position `i` has the app id.
    pub open spec fn has_app_id(self, i: int, app_id: Seq<char>) -> bool {
        let id = self.handles[i].id;
        self.toplevels.contains_key(id) && self.toplevels[id].app_id == app_id
    }

    /// The first handle, from position `i` on, whose toplevel has the app id.
    pub open spec fn find_from(self, i: int, app_id: Seq<char>) -> Option<Handle>
        decreases self.handles.len() - i,
    {
        if i < 0 || i >= self.handles.len() {
            None
        } else if self.has_app_id(i, app_id) {
            Some(self.handles[i])
        } else {
            self.find_from(i + 1, app_id)
        }
    }

    /// The first handle whose toplevel has the app id.
    pub open spec fn find(self, app_id: Seq<char>) -> Option<Handle> {
        self.find_from(0, app_id)
    }

    /// The request for one target, where there is one.
    pub open spec fn request(self, target: Option<Seq<char>>, minimize: bool) -> Seq<
        MinimizeRequestView,
    > {
        match target {
            Some(target) => seq![
                MinimizeRequestView { target, minimize, handle: self.find(target) },
            ],
            None => Seq::empty(),
        }
    }

    /// The requests for two targets: first to minimize, then to bring back.
    pub open spec fn requests(
        self,
        minimize: Option<Seq<char>>,
        unminimize: Option<Seq<char>>,
    ) -> Seq<MinimizeRequestView> {
        self.request(minimize, true) + self.request(unminimize, false)
    }

    /// The line with which the monitor ends.
    pub open spec fn summary(self) -> Seq<char> {
        "summary: toplevels="@ + decimal(self.toplevels.len()) + " no_output_batches="@ + decimal(
            self.no_output_batches,
        )
    }

    /// The status with which the monitor exits.
    pub open spec fn exit_code(self) -> int {
        if self.no_output_batches > 0 {
            1
        } else {
            0
        }
    }
}

/// The characters of an optional string.
pub open spec fn optional_text(s: Option<String>) -> Option<Seq<char>> {
    match s {
        Some(s) => Some(s@),
        None => None,
    }
}

/// The contents of each request.
pub open spec fn request_views(requests: Seq<MinimizeRequest>) -> Seq<MinimizeRequestView> {
    requests.map_values(|request: MinimizeRequest| request@)
}

/// The line for a request, given the quoted form of its target.
pub open spec fn request_text(
    stamp: Seq<char>,
    request: MinimizeRequestView,
    quoted_target: Seq<char>,
) -> Seq<char> {
    if request.handle is Some {
        stamp + " >>> sent "@ + (if request.minimize {
            "set_minimized"@
        } else {
            "unset_minimized"@
        }) + " to "@ + request.target
    } else {
        stamp + " >>> no toplevel with app_id "@ + quoted_target
    }
}

impl MinimizeRequest {
    /// The line for this request, given the quoted form of its target.
    pub fn line_with(&self, stamp: &str, quoted_target: &str) -> (r: String)
        ensures
            r@ == request_text(stamp@, self@, quoted_target@),
    {
        let mut r: String = stamp.to_owned();
        if self.handle.is_some() {
            r.append(" >>> sent ");
            if self.minimize {
                r.append("set_minimized");
            } else {
                r.append("unset_minimized");
            }
            r.append(" to ");
            r.append(self.target.as_str());
        } else {
            r.append(" >>> no toplevel with app_id ");
            r.append(quoted_target);
        }
        r
    }

    /// The line for this request.
    pub fn line(&self, stamp: &str) -> (r: String)
        ensures
            r@ == request_text(stamp@, self@, debug_text(self.target@)),
    {
        let shown = quoted(self.target.as_str());
        self.line_with(stamp, shown.as_str())
    }
}

impl Monitor {
    /// The first handle whose toplevel has the app id.
    pub fn find(&self, app_id: &String) -> (r: Option<Handle>)
        ensures
            r == self@.find(app_id@),
    {
        let mut i: usize = 0;
        while i < self.handles.len()
            invariant
                i <= self.handles.len(),
                self@.find(app_id@) == self@.find_from(i as int, app_id@),
            decreases self.handles.len() - i,
        {
            let handle = self.handles[i];
            match self.toplevels.get(&handle.id) {
                Some(toplevel) => {
                    if toplevel.app_id == *app_id {
                        assert(self@.has_app_id(i as int, app_id@));
                        return Some(handle);
                    }
                },
                None => {},
            }
            assert(!self@.has_app_id(i as int, app_id@));
            i = i + 1;
        }
        None
    }

    /// The requests to send: first to minimize, then to bring back.
    pub fn requests(&self, minimize: &Option<String>, unminimize: &Option<String>) -> (r: Vec<
        MinimizeRequest,
    >)
        ensures
            request_views(r@) == self@.requests(
                optional_text(*minimize),
                optional_text(*unminimize),
            ),
    {
        let mut r: Vec<MinimizeRequest> = Vec::new();
        match minimize {
            Some(target) => {
                let handle = self.find(target);
                r.push(MinimizeRequest { target: target.clone(), minimize: true, handle });
            },
            None => {},
        }
        assert(request_views(r@) =~= self@.request(optional_text(*minimize), true));
        let ghost first = r@;
        match unminimize {
            Some(target) => {
                let handle = self.find(target);
                r.push(MinimizeRequest { target: target.clone(), minimize: false, handle });
                assert(request_views(r@) =~= request_views(first).push(r@.last()@));
            },
            None => {},
        }
        assert(request_views(r@) =~= self@.requests(
            optional_text(*minimize),
            optional_text(*unminimize),
        ));
        r
    }

    /// The line with which the monitor ends.
    pub fn summary(&self) -> (r: String)
        ensures
            r@ == self@.summary(),
    {
        let mut r: String = "summary: toplevels=".to_owned();
        assert(self.toplevels@.dom() =~= self@.toplevels.dom());
        append_decimal(&mut r, self.toplevels.len() as u64);
        r.append(" no_output_batches=");
        append_decimal(&mut r, self.no_output_batches as u64);
        r
    }

    /// The status with which the monitor exits: 1 if any toplevel that once
    /// entered an output ended a batch with none, 0 otherwise.
    pub fn exit_code(&self) -> (r: i32)
        ensures
            r == self@.exit_code(),
    {
        if self.no_output_batches > 0 {
            1
        } else {
            0
        }
    }
}

/// The handle that is found comes first among those with the app id; none is
/// found only where there is none.
pub proof fn law_first_handle_is_found(m: MonitorView, app_id: Seq<char>)
    ensures
        match m.find(app_id) {
            Some(handle) => exists|i: int|
                0 <= i < m.handles.len() && m.handles[i] == handle && #[trigger] m.has_app_id(
                    i,
                    app_id,
                ) && forall|j: int| 0 <= j < i ==> !#[trigger] m.has_app_id(j, app_id),
            None => forall|j: int|
                0 <= j < m.handles.len() ==> !#[trigger] m.has_app_id(j, app_id),
        },
{
    lemma_find_from(m, 0, app_id);
}

proof fn lemma_find_from(m: MonitorView, start: int, app_id: Seq<char>)
    requires
        0 <= start,
    ensures
        match m.find_from(start, app_id) {
            Some(handle) => exists|i: int|
                start <= i < m.handles.len() && m.handles[i] == handle && #[trigger] m.has_app_id(
                    i,
                    app_id,
                ) && forall|j: int| start <= j < i ==> !#[trigger] m.has_app_id(j, app_id),
            None => forall|j: int|
                start <= j < m.handles.len() ==> !#[trigger] m.has_app_id(j, app_id),
        },
    decreases m.handles.len() - start,
{
    if start < m.handles.len() && !m.has_app_id(start, app_id) {
        lemma_find_from(m, start + 1, app_id);
        if m.find_from(start, app_id) is Some {
            let handle = m.find_from(start, app_id)->0;
            let i = choose|i: int|
                start + 1 <= i < m.handles.len() && m.handles[i] == handle
                    && #[trigger] m.has_app_id(i, app_id) && forall|j: int|
                    start + 1 <= j < i ==> !#[trigger] m.has_app_id(j, app_id);
            assert(m.has_app_id(i, app_id));
        }
    }
}

/// Whether a listed toplevel of the id has the app id.
pub open spec fn shows(m: MonitorView, id: u32, app_id: Seq<char>) -> bool {
    m.toplevels.contains_key(id) && m.toplevels[id].app_id == app_id
}

/// Whether the handle is the first listed one whose toplevel has the app id,
/// or there is none and no such toplevel either.
pub open spec fn is_first_with(
    m: MonitorView,
    handle: Option<Handle>,
    app_id: Seq<char>,
) -> bool {
    match handle {
        Some(found) => exists|i: int|
            0 <= i < m.handles.len() && #[trigger] m.handles[i] == found && shows(
                m,
                found.id,
                app_id,
            ) && forall|j: int| 0 <= j < i ==> !shows(m, (#[trigger] m.handles[j]).id, app_id),
        None => forall|j: int|
            0 <= j < m.handles.len() ==> !shows(m, (#[trigger] m.handles[j]).id, app_id),
    }
}

/// There is one request for each target that is given, the one to minimize
/// first. It asks to minimize the first target and to bring back the second,
/// whatever is known of the windows, and goes to the first listed handle whose
/// toplevel has that app id.
pub proof fn law_requests_do_what_was_asked(
    m: MonitorView,
    minimize: Option<Seq<char>>,
    unminimize: Option<Seq<char>>,
)
    ensures
        ({
            let requests = m.requests(minimize, unminimize);
            let first = if minimize is Some {
                1int
            } else {
                0int
            };
            &&& requests.len() == first + (if unminimize is Some {
                1int
            } else {
                0int
            })
            &&& minimize matches Some(target) ==> requests[0].target == target
                && requests[0].minimize && is_first_with(m, requests[0].handle, target)
            &&& unminimize matches Some(target) ==> requests[first].target == target
                && !requests[first].minimize && is_first_with(m, requests[first].handle, target)
        }),
{
    if minimize is Some {
        lemma_found_is_first(m, minimize->0);
    }
    if unminimize is Some {
        lemma_found_is_first(m, unminimize->0);
    }
}

/// The handle that is found is the first listed one whose toplevel has the
/// app id; none is found only where no listed handle has one.
pub proof fn law_find_looks_through_the_handles(m: MonitorView, app_id: Seq<char>)
    ensures
        is_first_with(m, m.find(app_id), app_id),
{
    lemma_found_is_first(m, app_id);
}

proof fn lemma_found_is_first(m: MonitorView, app_id: Seq<char>)
    ensures
        is_first_with(m, m.find(app_id), app_id),
{
    law_first_handle_is_found(m, app_id);
    assert forall|j: int| 0 <= j < m.handles.len() implies shows(
        m,
        (#[trigger] m.handles[j]).id,
        app_id,
    ) == m.has_app_id(j, app_id) by {}
    if m.find(app_id) is Some {
        let found = m.find(app_id)->0;
        let i = choose|i: int|
            0 <= i < m.handles.len() && m.handles[i] == found && #[trigger] m.has_app_id(i, app_id)
                && forall|j: int| 0 <= j < i ==> !#[trigger] m.has_app_id(j, app_id);
        assert(m.handles[i] == found);
        assert forall|j: int| 0 <= j < i implies !shows(
            m,
            (#[trigger] m.handles[j]).id,
            app_id,
        ) by {
            assert(!m.has_app_id(j, app_id));
        }
    }
}

/// The line of a request that was sent names the request and the target as it
/// is; that of one without a toplevel shows the quoted target.
pub proof fn law_request_line_names_the_request(
    stamp: Seq<char>,
    request: MinimizeRequestView,
    quoted_target: Seq<char>,
)
    ensures
        request_text(stamp, request, quoted_target) == (match request.handle {
            Some(_) => if request.minimize {
                stamp + " >>> sent "@ + "set_minimized"@ + " to "@ + request.target
            } else {
                stamp + " >>> sent "@ + "unset_minimized"@ + " to "@ + request.target
            },
            None => stamp + " >>> no toplevel with app_id "@ + quoted_target,
        }),
{
}

/// The summary tells how many toplevels are listed and how many batches were
/// flagged.
pub proof fn law_summary_counts(m: MonitorView)
    ensures
        m.summary() == "summary: toplevels="@ + decimal(m.toplevels.dom().len())
            + " no_output_batches="@ + decimal(m.no_output_batches),
{
}

/// Optional texts and lists of requests are shown as they are, one for one
/// and in order.
pub proof fn law_requests_are_shown_as_they_are(
    text: String,
    request: MinimizeRequest,
    requests: Seq<MinimizeRequest>,
)
    ensures
        optional_text(Some(text)) == Some(text@),
        optional_text(None) is None,
        request@.target == request.target@,
        request@.minimize == request.minimize,
        request@.handle == request.handle,
        request_views(requests).len() == requests.len(),
        forall|i: int|
            0 <= i < requests.len() ==> #[trigger] request_views(requests)[i] == requests[i]@,
{
}

} // verus!
