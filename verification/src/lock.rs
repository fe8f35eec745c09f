//! The session lock tester: what it knows of the compositor, and the buffer
//! that it shows on each output.

use vstd::prelude::*;

use crate::event_laws::is_lesser;
use crate::monitor::at_most;
use crate::monitor::capped;
use crate::text::append_decimal;
use crate::text::decimal;
use crate::text::same_text;

verus! {

/// A global and the version in which it is bound.
#[derive(Clone, Copy, PartialEq, Eq, Structural, Debug)]
pub struct Global {
    pub name: u32,
    pub version: u32,
}

/// What to do about a global that the registry announces.
#[derive(Clone, Copy, PartialEq, Eq, Structural, Debug)]
pub enum LockGlobalAction {
    BindCompositor { global: Global },
    BindShm { global: Global },
    BindOutput { global: Global },
    BindManager { global: Global },
    Ignore,
}

/// An event of the session lock.
#[derive(Clone, Copy, PartialEq, Eq, Structural, Debug)]
pub enum LockEvent {
    Locked,
    /// The compositor refused or ended the lock.
    Finished,
    /// An event that the tester does not look into.
    Other,
}

/// A global without which the tester cannot go on.
#[derive(Clone, Copy, PartialEq, Eq, Structural, Debug)]
pub enum MissingGlobal {
    Manager,
    Compositor,
    Shm,
}

/// Everything that the tester knows.
pub struct LockSession {
    pub compositor: Option<Global>,
    pub shm: Option<Global>,
    pub manager: Option<Global>,
    pub outputs: Vec<Global>,
    pub locked: bool,
    pub finished: bool,
}

/// The contents of a [`LockSession`].
#[verifier::ext_equal]
pub struct LockSessionView {
    pub compositor: Option<Global>,
    pub shm: Option<Global>,
    pub manager: Option<Global>,
    pub outputs: Seq<Global>,
    pub locked: bool,
    pub finished: bool,
}

impl View for LockSession {
    type V = LockSessionView;

    open spec fn view(&self) -> LockSessionView {
        LockSessionView {
            compositor: self.compositor,
            shm: self.shm,
            manager: self.manager,
            outputs: self.outputs@,
            locked: self.locked,
            finished: self.finished,
        }
    }
}

/// What to do about a global of the given interface.
pub open spec fn lock_global_action(
    name: u32,
    interface: Seq<char>,
    version: u32,
) -> LockGlobalAction {
    if interface == "wl_compositor"@ {
        LockGlobalAction::BindCompositor { global: Global { name, version: at_most(version, 4) } }
    } else if interface == "wl_shm"@ {
        LockGlobalAction::BindShm { global: Global { name, version: 1 } }
    } else if interface == "wl_output"@ {
        LockGlobalAction::BindOutput { global: Global { name, version: at_most(version, 4) } }
    } else if interface == "ext_session_lock_manager_v1"@ {
        LockGlobalAction::BindManager { global: Global { name, version: 1 } }
    } else {
        LockGlobalAction::Ignore
    }
}

impl LockSessionView {
    /// A session of which nothing is known yet.
    pub open spec fn silent() -> LockSessionView {
        LockSessionView {
            compositor: None,
            shm: None,
            manager: None,
            outputs: Seq::empty(),
            locked: false,
            finished: false,
        }
    }

    /// A global has been bound, or left alone.
    pub open spec fn after_global(self, action: LockGlobalAction) -> LockSessionView {
        match action {
            LockGlobalAction::BindCompositor { global } => LockSessionView {
                compositor: Some(global),
                ..self
            },
            LockGlobalAction::BindShm { global } => LockSessionView { shm: Some(global), ..self },
            LockGlobalAction::BindOutput { global } => LockSessionView {
                outputs: self.outputs.push(global),
                ..self
            },
            LockGlobalAction::BindManager { global } => LockSessionView {
                manager: Some(global),
                ..self
            },
            LockGlobalAction::Ignore => self,
        }
    }

    /// The session lock sent an event.
    pub open spec fn after_event(self, event: LockEvent) -> LockSessionView {
        match event {
            LockEvent::Locked => LockSessionView { locked: true, ..self },
            LockEvent::Finished => LockSessionView { finished: true, ..self },
            LockEvent::Other => self,
        }
    }

    /// The answer to a lock surface that was given a size.
    pub open spec fn configured(self, width: u32, height: u32) -> Result<
        LockBuffer,
        MissingGlobal,
    > {
        if self.shm is Some {
            Ok(buffer_for(width, height))
        } else {
            Err(MissingGlobal::Shm)
        }
    }
}

/// The line that an event of the session lock calls for.
pub open spec fn lock_event_text(event: LockEvent, stamp: Seq<char>) -> Option<Seq<char>> {
    match event {
        LockEvent::Locked => Some(stamp + " locked"@),
        LockEvent::Finished => Some(
            stamp + " finished (compositor refused or ended the lock)"@,
        ),
        LockEvent::Other => None,
    }
}

/// The signed number with the same 32 bits.
pub open spec fn signed(n: u32) -> int {
    if n < 0x8000_0000 {
        n as int
    } else {
        n - 0x1_0000_0000
    }
}

/// The bytes of one row of a buffer, four for each pixel.
pub open spec fn row_bytes(width: u32) -> int {
    signed(width) * 4
}

/// The bytes of a whole buffer.
pub open spec fn buffer_bytes(width: u32, height: u32) -> int {
    row_bytes(width) * signed(height)
}

/// Whether the sizes of a buffer can be told to the compositor.
pub open spec fn fits(width: u32, height: u32) -> bool {
    i32::MIN <= row_bytes(width) <= i32::MAX && i32::MIN <= buffer_bytes(width, height) <= i32::MAX
}

/// A blank buffer that covers an output.
#[derive(Clone, Copy, PartialEq, Eq, Structural, Debug)]
pub struct LockBuffer {
    /// Where in its pool the buffer starts.
    pub offset: i32,
    pub width: i32,
    pub height: i32,
    /// The bytes of one row.
    pub stride: i32,
    /// The bytes of the pool.
    pub size: i32,
    /// The length of the file behind the pool: the size, extended with its
    /// sign to 64 bits.
    pub file_length: u64,
}

/// The buffer for a surface of the given size.
pub open spec fn buffer_for(width: u32, height: u32) -> LockBuffer {
    let size = buffer_bytes(width, height);
    LockBuffer {
        offset: 0,
        width: signed(width) as i32,
        height: signed(height) as i32,
        stride: row_bytes(width) as i32,
        size: size as i32,
        file_length: (if size >= 0 {
            size
        } else {
            0x1_0000_0000_0000_0000 + size
        }) as u64,
    }
}

/// The signed number with the same 32 bits.
fn to_signed(n: u32) -> (r: i32)
    ensures
        r == signed(n),
{
    if n < 0x8000_0000 {
        n as i32
    } else {
        -((u32::MAX - n) as i32) - 1
    }
}

proof fn lemma_product_bound(a: int, b: int)
    requires
        -0x8000_0000 <= a <= 0x8000_0000,
        -0x8000_0000 <= b <= 0x8000_0000,
    ensures
        -0x4000_0000_0000_0000 <= a * b <= 0x4000_0000_0000_0000,
{
    assert(-0x4000_0000_0000_0000 <= a * b <= 0x4000_0000_0000_0000) by (nonlinear_arith)
        requires
            -0x8000_0000 <= a <= 0x8000_0000,
            -0x8000_0000 <= b <= 0x8000_0000,
    ;
}

/// Whether the sizes of a buffer can be told to the compositor.
pub fn buffer_fits(width: u32, height: u32) -> (r: bool)
    ensures
        r == fits(width, height),
{
    let row: i64 = to_signed(width) as i64 * 4;
    if row < i32::MIN as i64 || row > i32::MAX as i64 {
        return false;
    }
    proof {
        lemma_product_bound(row_bytes(width), signed(height));
    }
    let size: i64 = row * to_signed(height) as i64;
    i32::MIN as i64 <= size && size <= i32::MAX as i64
}

/// The buffer for a surface of the given size.
pub fn lock_buffer(width: u32, height: u32) -> (r: LockBuffer)
    requires
        fits(width, height),
    ensures
        r == buffer_for(width, height),
        r.stride == row_bytes(width),
        r.size == buffer_bytes(width, height),
{
    let stride: i32 = to_signed(width) * 4;
    let size: i32 = stride * to_signed(height);
    let file_length: u64 = if size >= 0 {
        size as u64
    } else {
        u64::MAX - ((-(size as i64) - 1) as u64)
    };
    LockBuffer {
        offset: 0,
        width: to_signed(width),
        height: to_signed(height),
        stride,
        size,
        file_length,
    }
}

/// What the tester says when it gives up for want of a global.
pub open spec fn missing_text(missing: MissingGlobal) -> Seq<char> {
    match missing {
        MissingGlobal::Manager => "no ext_session_lock_manager_v1"@,
        MissingGlobal::Compositor => "wl_compositor"@,
        MissingGlobal::Shm => "wl_shm"@,
    }
}

impl MissingGlobal {
    /// What the tester says when it gives up.
    pub fn message(self) -> (r: &'static str)
        ensures
            r@ == missing_text(self),
    {
        match self {
            MissingGlobal::Manager => "no ext_session_lock_manager_v1",
            MissingGlobal::Compositor => "wl_compositor",
            MissingGlobal::Shm => "wl_shm",
        }
    }
}

/// A stamp and what follows it.
fn stamped(stamp: &str, rest: &str) -> (r: String)
    ensures
        r@ == stamp@ + rest@,
{
    let mut r: String = stamp.to_owned();
    r.append(rest);
    r
}

/// The line for a lock that has been requested.
pub open spec fn requested_text(stamp: Seq<char>, outputs: nat) -> Seq<char> {
    stamp + " lock requested for "@ + decimal(outputs) + " outputs"@
}

/// The line for the size that the compositor gives a lock surface.
pub open spec fn configure_text(stamp: Seq<char>, width: u32, height: u32) -> Seq<char> {
    stamp + " lock surface configure "@ + decimal(width as nat) + "x"@ + decimal(height as nat)
}

/// The line for the size that the compositor gives a lock surface.
pub fn configure_line(stamp: &str, width: u32, height: u32) -> (r: String)
    ensures
        r@ == configure_text(stamp@, width, height),
{
    let mut r = stamped(stamp, " lock surface configure ");
    append_decimal(&mut r, width as u64);
    r.append("x");
    append_decimal(&mut r, height as u64);
    r
}

/// The line for the request to unlock.
pub open spec fn unlock_text(stamp: Seq<char>) -> Seq<char> {
    stamp + " unlock_and_destroy"@
}

/// The line with which the tester ends.
pub open spec fn end_text(stamp: Seq<char>) -> Seq<char> {
    stamp + " done"@
}

/// The line for the request to unlock.
pub fn unlock_line(stamp: &str) -> (r: String)
    ensures
        r@ == stamp@ + " unlock_and_destroy"@,
        r@ == unlock_text(stamp@),
{
    stamped(stamp, " unlock_and_destroy")
}

/// The line with which the tester ends.
pub fn done_line(stamp: &str) -> (r: String)
    ensures
        r@ == stamp@ + " done"@,
        r@ == end_text(stamp@),
{
    stamped(stamp, " done")
}

impl LockSession {
    /// A session of which nothing is known yet.
    pub fn new() -> (r: LockSession)
        ensures
            r@ == LockSessionView::silent(),
    {
        LockSession {
            compositor: None,
            shm: None,
            manager: None,
            outputs: Vec::new(),
            locked: false,
            finished: false,
        }
    }

    /// Takes note of a global that the registry announces.
    pub fn global(&mut self, name: u32, interface: &str, version: u32) -> (r: LockGlobalAction)
        ensures
            r == lock_global_action(name, interface@, version),
            final(self)@ == old(self)@.after_global(r),
    {
        if same_text(interface, "wl_compositor") {
            let global = Global { name, version: capped(version, 4) };
            self.compositor = Some(global);
            LockGlobalAction::BindCompositor { global }
        } else if same_text(interface, "wl_shm") {
            let global = Global { name, version: 1 };
            self.shm = Some(global);
            LockGlobalAction::BindShm { global }
        } else if same_text(interface, "wl_output") {
            let global = Global { name, version: capped(version, 4) };
            self.outputs.push(global);
            LockGlobalAction::BindOutput { global }
        } else if same_text(interface, "ext_session_lock_manager_v1") {
            let global = Global { name, version: 1 };
            self.manager = Some(global);
            LockGlobalAction::BindManager { global }
        } else {
            LockGlobalAction::Ignore
        }
    }

    /// Takes note of an event of the session lock, and gives the line to
    /// print for it.
    pub fn lock_event(&mut self, event: LockEvent, stamp: &str) -> (r: Option<String>)
        ensures
            final(self)@ == old(self)@.after_event(event),
            match r {
                Some(line) => lock_event_text(event, stamp@) == Some(line@),
                None => lock_event_text(event, stamp@) is None,
            },
    {
        match event {
            LockEvent::Locked => {
                self.locked = true;
                Some(stamped(stamp, " locked"))
            },
            LockEvent::Finished => {
                self.finished = true;
                Some(stamped(stamp, " finished (compositor refused or ended the lock)"))
            },
            LockEvent::Other => None,
        }
    }

    /// The line for a lock that has been requested.
    pub fn requested_line(&self, stamp: &str) -> (r: String)
        ensures
            r@ == requested_text(stamp@, self@.outputs.len()),
    {
        let mut r = stamped(stamp, " lock requested for ");
        append_decimal(&mut r, self.outputs.len() as u64);
        r.append(" outputs");
        r
    }

    /// The buffer with which to answer a lock surface that was given a size.
    /// There is none where the compositor has no shared memory.
    pub fn configure(&self, width: u32, height: u32) -> (r: Result<LockBuffer, MissingGlobal>)
        requires
            self@.shm is Some ==> fits(width, height),
        ensures
            r == (if self@.shm is Some {
                Ok(buffer_for(width, height))
            } else {
                Err::<LockBuffer, MissingGlobal>(MissingGlobal::Shm)
            }),
            r == self@.configured(width, height),
    {
        match self.shm {
            Some(_) => Ok(lock_buffer(width, height)),
            None => Err(MissingGlobal::Shm),
        }
    }
}

/// Every output that is announced adds one to the list, in the order in which
/// they come; no other global touches it.
pub proof fn law_outputs_are_collected(
    session: LockSessionView,
    name: u32,
    interface: Seq<char>,
    version: u32,
)
    ensures
        ({
            let next = session.after_global(lock_global_action(name, interface, version));
            if interface == "wl_output"@ {
                next.outputs == session.outputs.push(
                    Global { name, version: at_most(version, 4) },
                )
            } else {
                next.outputs == session.outputs
            }
        }),
{
    reveal_strlit("wl_compositor");
    reveal_strlit("wl_output");
    reveal_strlit("wl_shm");
    assert("wl_compositor"@.len() != "wl_output"@.len());
    assert("wl_shm"@.len() != "wl_output"@.len());
}

/// A lock that the compositor has ended stays ended, whatever comes next.
pub proof fn law_finished_lock_stays_finished(
    session: LockSessionView,
    event: LockEvent,
    action: LockGlobalAction,
)
    requires
        session.finished,
    ensures
        session.after_event(event).finished,
        session.after_global(action).finished,
{
}

/// A buffer of an ordinary size holds exactly its pixels, four bytes each.
pub proof fn law_buffer_holds_its_pixels(width: u32, height: u32)
    requires
        fits(width, height),
        width < 0x8000_0000,
        height < 0x8000_0000,
    ensures
        buffer_for(width, height).width == width,
        buffer_for(width, height).height == height,
        buffer_for(width, height).stride == 4 * width,
        buffer_for(width, height).size == 4 * width * height,
        buffer_for(width, height).file_length == 4 * width * height,
        buffer_for(width, height).size == buffer_for(width, height).stride * buffer_for(
            width,
            height,
        ).height,
{
    assert(4 * width * height >= 0) by (nonlinear_arith)
        requires
            width >= 0,
            height >= 0,
    ;
}

/// A view shows every field as it is.
pub proof fn law_session_view_is_faithful(session: LockSession)
    ensures
        session@.compositor == session.compositor,
        session@.shm == session.shm,
        session@.manager == session.manager,
        session@.outputs == session.outputs@,
        session@.locked == session.locked,
        session@.finished == session.finished,
{
}

/// A silent session knows of no global and no event.
pub proof fn law_silent_session_knows_nothing(session: LockSessionView)
    requires
        session == LockSessionView::silent(),
    ensures
        session.compositor is None,
        session.shm is None,
        session.manager is None,
        session.outputs.len() == 0,
        !session.locked,
        !session.finished,
{
}

/// The lesser of two versions is neither above the one nor the other, and is
/// one of them.
pub proof fn law_version_is_capped(version: u32, limit: u32)
    ensures
        at_most(version, limit) <= version,
        at_most(version, limit) <= limit,
        at_most(version, limit) == version || at_most(version, limit) == limit,
{
}

/// Each interface is bound under the announced name: the compositor and the
/// outputs in the announced version or four where that is lower, the other two
/// in version one. Nothing else is bound.
pub proof fn law_lock_globals_are_bound_by_interface(name: u32, interface: Seq<char>, version: u32)
    ensures
        match lock_global_action(name, interface, version) {
            LockGlobalAction::BindCompositor { global } => interface == "wl_compositor"@
                && global.name == name && is_lesser(global.version, version, 4),
            LockGlobalAction::BindShm { global } => interface == "wl_shm"@ && global.name == name
                && global.version == 1,
            LockGlobalAction::BindOutput { global } => interface == "wl_output"@ && global.name
                == name && is_lesser(global.version, version, 4),
            LockGlobalAction::BindManager { global } => interface
                == "ext_session_lock_manager_v1"@ && global.name == name && global.version == 1,
            LockGlobalAction::Ignore => interface != "wl_compositor"@ && interface != "wl_shm"@
                && interface != "wl_output"@ && interface != "ext_session_lock_manager_v1"@,
        },
{
}

/// What is bound is kept in its own place, the newest of its kind, or behind
/// the other outputs; everything else stays as it was.
pub proof fn law_bound_globals_are_kept(session: LockSessionView, action: LockGlobalAction)
    ensures
        ({
            let next = session.after_global(action);
            &&& next.compositor == (match action {
                LockGlobalAction::BindCompositor { global } => Some(global),
                _ => session.compositor,
            })
            &&& next.shm == (match action {
                LockGlobalAction::BindShm { global } => Some(global),
                _ => session.shm,
            })
            &&& next.manager == (match action {
                LockGlobalAction::BindManager { global } => Some(global),
                _ => session.manager,
            })
            &&& next.outputs == (match action {
                LockGlobalAction::BindOutput { global } => session.outputs.push(global),
                _ => session.outputs,
            })
            &&& next.locked == session.locked
            &&& next.finished == session.finished
        }),
{
}

/// An event of the lock marks what it says and changes nothing else; nothing
/// that was marked is taken back.
pub proof fn law_lock_events_are_marked(session: LockSessionView, event: LockEvent)
    ensures
        ({
            let next = session.after_event(event);
            &&& next.locked == (session.locked || event == LockEvent::Locked)
            &&& next.finished == (session.finished || event == LockEvent::Finished)
            &&& next.compositor == session.compositor
            &&& next.shm == session.shm
            &&& next.manager == session.manager
            &&& next.outputs == session.outputs
        }),
{
}

/// The lines of the tester: the stamp, and then what has happened.
pub proof fn law_lock_lines(stamp: Seq<char>, outputs: nat, width: u32, height: u32)
    ensures
        forall|event: LockEvent| #[trigger]
            lock_event_text(event, stamp) == (match event {
                LockEvent::Locked => Some(stamp + " locked"@),
                LockEvent::Finished => Some(
                    stamp + " finished (compositor refused or ended the lock)"@,
                ),
                LockEvent::Other => None,
            }),
        requested_text(stamp, outputs) == stamp + " lock requested for "@ + decimal(outputs)
            + " outputs"@,
        configure_text(stamp, width, height) == stamp + " lock surface configure "@ + decimal(
            width as nat,
        ) + "x"@ + decimal(height as nat),
        unlock_text(stamp) == stamp + " unlock_and_destroy"@,
        end_text(stamp) == stamp + " done"@,
{
}

/// Each missing global is named by its interface.
pub proof fn law_missing_globals_are_named(missing: MissingGlobal)
    ensures
        missing_text(missing) == (match missing {
            MissingGlobal::Manager => "no ext_session_lock_manager_v1"@,
            MissingGlobal::Compositor => "wl_compositor"@,
            MissingGlobal::Shm => "wl_shm"@,
        }),
{
}

/// Whether a signed number has the same 32 bits as an unsigned one.
pub open spec fn same_bits(a: i32, b: u32) -> bool {
    a == b || a == b - 0x1_0000_0000
}

/// For every size the buffer fits exactly if neither its row nor the whole of
/// it overflows 32 signed bits; then it has the bits of that size, rows of four
/// bytes a pixel, as many bytes as its rows together, starts at the front, and
/// its file has the same bits as its size.
pub proof fn law_buffer_is_as_large_as_its_surface(width: u32, height: u32, w: i32, h: i32)
    requires
        same_bits(w, width),
        same_bits(h, height),
    ensures
        fits(width, height) <==> i32::MIN <= 4 * w <= i32::MAX && i32::MIN <= (4 * w) * h
            <= i32::MAX,
        fits(width, height) ==> ({
            let buffer = buffer_for(width, height);
            &&& buffer.offset == 0
            &&& buffer.width == w
            &&& buffer.height == h
            &&& buffer.stride == 4 * w
            &&& buffer.size == (4 * w) * h
            &&& buffer.file_length == (if buffer.size >= 0 {
                buffer.size as int
            } else {
                buffer.size + 0x1_0000_0000_0000_0000
            })
        }),
{
    assert(signed(width) == w);
    assert(signed(height) == h);
    assert(row_bytes(width) == 4 * w);
}

/// A lock surface is answered exactly if there is shared memory, whatever else
/// is known, and then with the buffer of its size.
pub proof fn law_configure_needs_shared_memory_only(
    session: LockSessionView,
    width: u32,
    height: u32,
)
    ensures
        session.shm is Some ==> session.configured(width, height) == Ok::<
            LockBuffer,
            MissingGlobal,
        >(buffer_for(width, height)),
        session.shm is None ==> session.configured(width, height) == Err::<
            LockBuffer,
            MissingGlobal,
        >(MissingGlobal::Shm),
{
}

} // verus!
