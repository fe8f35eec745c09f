use shoji_probe::monitor::app_id_line;
use shoji_probe::monitor::capped;
use shoji_probe::monitor::done_line;
use shoji_probe::monitor::title_line;
use shoji_probe::monitor::GlobalAction;
use shoji_probe::monitor::Handle;
use shoji_probe::monitor::Monitor;
use shoji_probe::monitor::ToplevelEvent;
use shoji_probe::requests::MinimizeRequest;
use shoji_probe::toplevel::ByteOrder;

const STAMP: &str = "[  0.250s]";

fn handle(object: u64, id: u32) -> Handle {
    Handle { object, id }
}

fn title(text: &str) -> ToplevelEvent {
    ToplevelEvent::Title { title: text.to_string() }
}

fn app_id(text: &str) -> ToplevelEvent {
    ToplevelEvent::AppId { app_id: text.to_string() }
}

fn enter(output: u32) -> ToplevelEvent {
    ToplevelEvent::OutputEnter { output }
}

fn leave(output: u32) -> ToplevelEvent {
    ToplevelEvent::OutputLeave { output }
}

fn hear(monitor: &mut Monitor, handle: Handle, event: ToplevelEvent) -> String {
    monitor.toplevel_event(handle, event, STAMP).unwrap()
}

fn monitor() -> Monitor {
    Monitor::new(ByteOrder::Little)
}

#[test]
fn globals_are_bound_in_capped_versions() {
    let mut m = monitor();
    assert_eq!(m.global(1, "wl_seat", 9), GlobalAction::BindSeat { name: 1, version: 7 });
    assert_eq!(m.global(1, "wl_seat", 5), GlobalAction::BindSeat { name: 1, version: 5 });
    assert_eq!(m.global(2, "wl_output", 4), GlobalAction::BindOutput { name: 2, version: 4 });
    assert_eq!(m.global(2, "wl_output", 6), GlobalAction::BindOutput { name: 2, version: 4 });
    assert_eq!(m.global(3, "wl_shm", 1), GlobalAction::Ignore);
    assert_eq!(m.manager_global, None);
    assert_eq!(capped(3, 7), 3);
}

#[test]
fn manager_global_is_remembered() {
    let mut m = monitor();
    let action = m.global(12, "zwlr_foreign_toplevel_manager_v1", 5);
    assert_eq!(action, GlobalAction::Remember);
    assert_eq!(m.manager_global, Some((12, 3)));
    m.global(13, "zwlr_foreign_toplevel_manager_v1", 2);
    assert_eq!(m.manager_global, Some((13, 2)));
}

#[test]
fn outputs_are_called_by_name_or_id() {
    let mut m = monitor();
    assert_eq!(m.output_name(17), "wl_output#17");
    m.name_output(17, "DP-1".to_string());
    assert_eq!(m.output_name(17), "DP-1");
    m.name_output(17, "DP-2".to_string());
    assert_eq!(m.output_name(17), "DP-2");
}

#[test]
fn labels_show_app_id_and_title() {
    let mut m = monitor();
    assert_eq!(m.label(40), "#40");
    hear(&mut m, handle(0, 40), title("a \"b\""));
    hear(&mut m, handle(0, 40), app_id("foot"));
    assert_eq!(m.label(40), "#40(foot \"a \"b\"\")");
}

#[test]
fn titles_are_quoted() {
    let mut m = monitor();
    let text = "tab\t \"quote\" \u{301}\u{200b} \\ \u{1f600}";
    let line = hear(&mut m, handle(0, 9), title(text));
    assert_eq!(line, format!("{} #9 title={:?}", STAMP, text));
    assert_eq!(m.toplevels[&9].title, text);
    let line = hear(&mut m, handle(0, 9), app_id("org\n"));
    assert_eq!(line, format!("{} #9 app_id={:?}", STAMP, "org\n"));
    assert_eq!(m.toplevels[&9].app_id, "org\n");
}

#[test]
fn lines_take_their_quoted_parts() {
    assert_eq!(title_line("S", 7, "\"t\""), "S #7 title=\"t\"");
    assert_eq!(app_id_line("S", 7, "\"a\""), "S #7 app_id=\"a\"");
    assert_eq!(
        done_line("S", "#7", &vec!["\"x\"".to_string(), "\"y\"".to_string()], true, false),
        "S #7 done outputs=[\"x\", \"y\"] minimized=true"
    );
    assert_eq!(
        done_line("S", "#7", &vec![], false, true),
        "S #7 done outputs=[] minimized=false !!! NO OUTPUTS"
    );
}

#[test]
fn outputs_are_entered_and_left() {
    let mut m = monitor();
    let h = handle(0, 5);
    m.name_output(3, "HDMI-A-1".to_string());
    assert_eq!(hear(&mut m, h, enter(3)), format!("{} #5( \"\") output_enter HDMI-A-1", STAMP));
    assert_eq!(hear(&mut m, h, enter(4)), format!("{} #5( \"\") output_enter wl_output#4", STAMP));
    assert_eq!(m.toplevels[&5].outputs, vec![3, 4]);
    assert_eq!(hear(&mut m, h, leave(3)), format!("{} #5( \"\") output_leave HDMI-A-1", STAMP));
    assert_eq!(m.toplevels[&5].outputs, vec![4]);
    assert!(m.toplevels[&5].saw_output_enter);
}

#[test]
fn states_are_decoded_and_named() {
    let mut m = monitor();
    let h = handle(0, 5);
    let raw = vec![2, 0, 0, 0, 1, 0, 0, 0, 9, 0, 0, 0, 7];
    let line = hear(&mut m, h, ToplevelEvent::State { raw: raw.clone() });
    assert_eq!(line, format!("{} #5( \"\") state={:?}", STAMP, ["activated", "minimized", "?"]));
    assert_eq!(m.toplevels[&5].states, vec![2, 1, 9]);
    let mut big = Monitor::new(ByteOrder::Big);
    hear(&mut big, h, ToplevelEvent::State { raw });
    assert_eq!(big.toplevels[&5].states, vec![0x0200_0000, 0x0100_0000, 0x0900_0000]);
}

#[test]
fn states_are_decoded_as_this_machine_reads_them() {
    let mut m = Monitor::for_this_machine();
    hear(&mut m, handle(0, 5), ToplevelEvent::State { raw: vec![1, 2, 3, 4] });
    assert_eq!(m.toplevels[&5].states, vec![u32::from_ne_bytes([1, 2, 3, 4])]);
    assert_eq!(m.summary(), "summary: toplevels=1 no_output_batches=0");
}

#[test]
fn closed_toplevel_loses_its_label() {
    let mut m = monitor();
    hear(&mut m, handle(0, 5), app_id("foot"));
    hear(&mut m, handle(0, 5), ToplevelEvent::Closed);
    assert_eq!(m.label(5), "#5");
}

#[test]
fn done_sums_up_a_batch() {
    let mut m = monitor();
    let h = handle(0, 5);
    m.name_output(3, "DP\t1".to_string());
    hear(&mut m, h, enter(3));
    hear(&mut m, h, enter(4));
    hear(&mut m, h, ToplevelEvent::State { raw: vec![1, 0, 0, 0] });
    let line = hear(&mut m, h, ToplevelEvent::Done);
    let outputs = vec!["DP\t1".to_string(), "wl_output#4".to_string()];
    assert_eq!(line, format!("{} #5( \"\") done outputs={:?} minimized=true", STAMP, outputs));
    assert_eq!(m.no_output_batches, 0);
    assert_eq!(m.exit_code(), 0);
}

#[test]
fn lost_outputs_are_flagged_and_counted() {
    let mut m = monitor();
    let h = handle(0, 5);
    let line = hear(&mut m, h, ToplevelEvent::Done);
    assert_eq!(line, format!("{} #5( \"\") done outputs=[] minimized=false", STAMP));
    hear(&mut m, h, enter(3));
    hear(&mut m, h, leave(3));
    assert!(m.lacks_outputs(5));
    let line = hear(&mut m, h, ToplevelEvent::Done);
    assert_eq!(
        line,
        format!("{} #5( \"\") done outputs=[] minimized=false !!! NO OUTPUTS", STAMP)
    );
    assert_eq!(m.no_output_batches, 1);
    hear(&mut m, h, ToplevelEvent::Done);
    assert_eq!(m.no_output_batches, 2);
    assert_eq!(m.exit_code(), 1);
    assert_eq!(m.summary(), "summary: toplevels=1 no_output_batches=2");
    hear(&mut m, h, enter(3));
    assert!(!m.lacks_outputs(5));
    hear(&mut m, h, ToplevelEvent::Done);
    assert_eq!(m.no_output_batches, 2);
}

#[test]
fn closing_forgets_the_toplevel() {
    let mut m = monitor();
    let h = handle(0, 5);
    hear(&mut m, h, app_id("foot"));
    hear(&mut m, h, enter(3));
    hear(&mut m, h, leave(3));
    let line = hear(&mut m, h, ToplevelEvent::Closed);
    assert_eq!(line, format!("{} #5(foot \"\") closed", STAMP));
    assert!(m.toplevels.is_empty());
    assert!(m.handles.is_empty());
    assert!(!m.lacks_outputs(5));
    hear(&mut m, h, ToplevelEvent::Done);
    assert_eq!(m.no_output_batches, 0);
    assert_eq!(m.handles, vec![h]);
}

#[test]
fn other_events_register_the_handle_only() {
    let mut m = monitor();
    assert_eq!(m.toplevel_event(handle(2, 6), ToplevelEvent::Other, STAMP), None);
    assert_eq!(m.handles, vec![handle(2, 6)]);
    assert_eq!(m.label(6), "#6( \"\")");
    m.toplevel_event(handle(2, 6), ToplevelEvent::Other, STAMP);
    assert_eq!(m.handles, vec![handle(2, 6)]);
}

#[test]
fn toplevels_do_not_touch_each_other() {
    let mut m = monitor();
    hear(&mut m, handle(0, 5), enter(3));
    hear(&mut m, handle(0, 5), app_id("a"));
    hear(&mut m, handle(1, 6), enter(4));
    hear(&mut m, handle(1, 6), leave(3));
    hear(&mut m, handle(1, 6), ToplevelEvent::Closed);
    assert_eq!(m.toplevels[&5].outputs, vec![3]);
    assert_eq!(m.label(5), "#5(a \"\")");
    assert_eq!(m.handles, vec![handle(0, 5)]);
    assert_eq!(m.toplevels.len(), 1);
}

#[test]
fn handles_that_share_an_id_share_a_toplevel() {
    let mut m = monitor();
    hear(&mut m, handle(0, 5), app_id("a"));
    hear(&mut m, handle(1, 5), title("t"));
    assert_eq!(m.handles, vec![handle(0, 5), handle(1, 5)]);
    assert_eq!(m.label(5), "#5(a \"t\")");
    hear(&mut m, handle(0, 5), ToplevelEvent::Closed);
    assert_eq!(m.handles, vec![handle(1, 5)]);
    assert!(m.toplevels.is_empty());
    assert_eq!(m.find(&"a".to_string()), None);
}

#[test]
fn first_handle_with_the_app_id_is_found() {
    let mut m = monitor();
    hear(&mut m, handle(0, 5), app_id("a"));
    hear(&mut m, handle(1, 6), app_id("b"));
    hear(&mut m, handle(2, 7), app_id("b"));
    assert_eq!(m.find(&"b".to_string()), Some(handle(1, 6)));
    assert_eq!(m.find(&"c".to_string()), None);
    hear(&mut m, handle(1, 6), ToplevelEvent::Closed);
    assert_eq!(m.find(&"b".to_string()), Some(handle(2, 7)));
}

#[test]
fn requests_minimize_first() {
    let mut m = monitor();
    hear(&mut m, handle(0, 5), app_id("a"));
    let requests = m.requests(&Some("a".to_string()), &Some("z\n".to_string()));
    assert_eq!(requests.len(), 2);
    assert_eq!(requests[0].handle, Some(handle(0, 5)));
    assert!(requests[0].minimize);
    assert_eq!(requests[0].line(STAMP), format!("{} >>> sent set_minimized to a", STAMP));
    assert_eq!(requests[1].handle, None);
    assert!(!requests[1].minimize);
    assert_eq!(
        requests[1].line(STAMP),
        format!("{} >>> no toplevel with app_id {:?}", STAMP, "z\n")
    );
    let requests = m.requests(&None, &Some("a".to_string()));
    assert_eq!(requests.len(), 1);
    assert_eq!(requests[0].line(STAMP), format!("{} >>> sent unset_minimized to a", STAMP));
    assert!(m.requests(&None, &None).is_empty());
}

#[test]
fn request_line_takes_its_quoted_target() {
    let request = MinimizeRequest { target: "t".to_string(), minimize: true, handle: None };
    assert_eq!(request.line_with("S", "Q"), "S >>> no toplevel with app_id Q");
}

#[test]
fn silent_monitor_sums_up_to_nothing() {
    assert_eq!(monitor().summary(), "summary: toplevels=0 no_output_batches=0");
    assert_eq!(monitor().exit_code(), 0);
}
