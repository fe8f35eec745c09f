use shoji_probe::lock::buffer_fits;
use shoji_probe::lock::configure_line;
use shoji_probe::lock::done_line;
use shoji_probe::lock::lock_buffer;
use shoji_probe::lock::unlock_line;
use shoji_probe::lock::Global;
use shoji_probe::lock::LockBuffer;
use shoji_probe::lock::LockEvent;
use shoji_probe::lock::LockGlobalAction;
use shoji_probe::lock::LockSession;
use shoji_probe::lock::MissingGlobal;

#[test]
fn lock_globals_are_bound_and_noted() {
    let mut s = LockSession::new();
    let compositor = Global { name: 1, version: 4 };
    assert_eq!(
        s.global(1, "wl_compositor", 6),
        LockGlobalAction::BindCompositor { global: compositor }
    );
    assert_eq!(s.compositor, Some(compositor));
    let shm = Global { name: 2, version: 1 };
    assert_eq!(s.global(2, "wl_shm", 2), LockGlobalAction::BindShm { global: shm });
    assert_eq!(s.shm, Some(shm));
    let manager = Global { name: 3, version: 1 };
    assert_eq!(
        s.global(3, "ext_session_lock_manager_v1", 9),
        LockGlobalAction::BindManager { global: manager }
    );
    assert_eq!(s.manager, Some(manager));
    assert_eq!(s.global(4, "wl_seat", 9), LockGlobalAction::Ignore);
}

#[test]
fn outputs_are_collected_in_order() {
    let mut s = LockSession::new();
    let first = Global { name: 7, version: 3 };
    let second = Global { name: 5, version: 4 };
    assert_eq!(s.global(7, "wl_output", 3), LockGlobalAction::BindOutput { global: first });
    assert_eq!(s.global(5, "wl_output", 5), LockGlobalAction::BindOutput { global: second });
    s.global(6, "wl_shm", 1);
    assert_eq!(s.outputs, vec![first, second]);
    assert_eq!(s.requested_line("S"), "S lock requested for 2 outputs");
}

#[test]
fn lock_events_are_noted_and_printed() {
    let mut s = LockSession::new();
    assert_eq!(s.lock_event(LockEvent::Other, "S"), None);
    assert_eq!(s.lock_event(LockEvent::Locked, "S"), Some("S locked".to_string()));
    assert!(s.locked && !s.finished);
    assert_eq!(
        s.lock_event(LockEvent::Finished, "S"),
        Some("S finished (compositor refused or ended the lock)".to_string())
    );
    assert!(s.finished);
    s.lock_event(LockEvent::Locked, "S");
    assert!(s.finished);
}

#[test]
fn other_lock_lines() {
    assert_eq!(configure_line("S", 1920, 1080), "S lock surface configure 1920x1080");
    assert_eq!(unlock_line("S"), "S unlock_and_destroy");
    assert_eq!(done_line("S"), "S done");
}

#[test]
fn buffer_covers_the_surface() {
    assert!(buffer_fits(1920, 1080));
    assert_eq!(
        lock_buffer(1920, 1080),
        LockBuffer {
            offset: 0,
            width: 1920,
            height: 1080,
            stride: 7680,
            size: 8294400,
            file_length: 8294400,
        }
    );
    assert_eq!(lock_buffer(0, 5).size, 0);
}

#[test]
fn sizes_wrap_as_casts_do() {
    for (width, height) in [(1u32, u32::MAX), (u32::MAX, 1), (u32::MAX, u32::MAX), (3, 0)] {
        assert!(buffer_fits(width, height));
        let stride = width as i32 * 4;
        let size = stride * height as i32;
        let buffer = lock_buffer(width, height);
        assert_eq!(buffer.width, width as i32);
        assert_eq!(buffer.height, height as i32);
        assert_eq!(buffer.stride, stride);
        assert_eq!(buffer.size, size);
        assert_eq!(buffer.file_length, size as u64);
    }
}

#[test]
fn sizes_that_overflow_do_not_fit() {
    assert!(!buffer_fits(0x2000_0000, 0));
    assert!(buffer_fits(0x1fff_ffff, 0));
    assert!(buffer_fits(0x1fff_ffff, 1));
    assert!(!buffer_fits(0x1fff_ffff, 2));
    assert!(!buffer_fits(65536, 65536));
    assert!(!buffer_fits(i32::MAX as u32 + 1, 1));
}

#[test]
fn configure_needs_shared_memory() {
    let mut s = LockSession::new();
    assert_eq!(s.configure(2, 3), Err(MissingGlobal::Shm));
    s.global(2, "wl_shm", 1);
    assert_eq!(s.configure(2, 3), Ok(lock_buffer(2, 3)));
}

#[test]
fn missing_globals_are_named() {
    assert_eq!(MissingGlobal::Manager.message(), "no ext_session_lock_manager_v1");
    assert_eq!(MissingGlobal::Compositor.message(), "wl_compositor");
    assert_eq!(MissingGlobal::Shm.message(), "wl_shm");
}
