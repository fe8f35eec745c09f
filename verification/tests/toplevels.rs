use shoji_probe::toplevel::append_state_names;
use shoji_probe::toplevel::decode_states;
use shoji_probe::toplevel::name_of_state;
use shoji_probe::toplevel::ByteOrder;
use shoji_probe::toplevel::Toplevel;

#[test]
fn states_are_read_in_either_order() {
    let raw = vec![1, 0, 0, 0, 2, 0, 0, 1];
    assert_eq!(decode_states(&raw, ByteOrder::Little), vec![1, 0x0100_0002]);
    assert_eq!(decode_states(&raw, ByteOrder::Big), vec![0x0100_0000, 0x0200_0001]);
    assert_eq!(decode_states(&vec![255, 255, 255, 255], ByteOrder::Little), vec![u32::MAX]);
}

#[test]
fn left_over_bytes_count_for_nothing() {
    assert_eq!(decode_states(&vec![], ByteOrder::Little), Vec::<u32>::new());
    assert_eq!(decode_states(&vec![1, 0, 0], ByteOrder::Little), Vec::<u32>::new());
    assert_eq!(decode_states(&vec![1, 0, 0, 0, 9], ByteOrder::Little), vec![1]);
}

#[test]
fn native_order_is_that_of_the_machine() {
    let raw = vec![1, 2, 3, 4];
    assert_eq!(
        decode_states(&raw, ByteOrder::native()),
        vec![u32::from_ne_bytes([1, 2, 3, 4])]
    );
}

#[test]
fn native_probe_is_what_the_machine_reads() {
    assert_eq!(ByteOrder::native_probe(), u32::from_ne_bytes([1, 0, 0, 0]));
    assert_eq!(ByteOrder::native(), ByteOrder::from_probe(ByteOrder::native_probe()));
}

#[test]
fn probe_tells_the_order() {
    assert_eq!(ByteOrder::from_probe(u32::from_le_bytes([1, 0, 0, 0])), ByteOrder::Little);
    assert_eq!(ByteOrder::from_probe(u32::from_be_bytes([1, 0, 0, 0])), ByteOrder::Big);
}

#[test]
fn state_names_print_as_a_list() {
    let names = ["maximized", "minimized", "activated", "fullscreen", "?"];
    let mut out = String::new();
    append_state_names(&mut out, &vec![0, 1, 2, 3, 4]);
    assert_eq!(out, format!("{:?}", names));
    assert_eq!(name_of_state(u32::MAX), "?");
    let mut out = String::new();
    append_state_names(&mut out, &vec![]);
    assert_eq!(out, "[]");
}

#[test]
fn entering_lists_an_output_once() {
    let mut toplevel = Toplevel::default();
    assert!(!toplevel.lacks_outputs());
    toplevel.enter(3);
    toplevel.enter(5);
    toplevel.enter(3);
    assert_eq!(toplevel.outputs, vec![3, 5]);
    assert!(toplevel.saw_output_enter);
}

#[test]
fn leaving_undoes_entering() {
    let mut toplevel = Toplevel::default();
    toplevel.enter(3);
    toplevel.enter(5);
    toplevel.leave(5);
    assert_eq!(toplevel.outputs, vec![3]);
    toplevel.leave(9);
    assert_eq!(toplevel.outputs, vec![3]);
    assert!(!toplevel.lacks_outputs());
    toplevel.leave(3);
    assert!(toplevel.lacks_outputs());
}

#[test]
fn leaving_alone_is_not_lacking() {
    let mut toplevel = Toplevel::default();
    toplevel.leave(3);
    assert!(!toplevel.lacks_outputs());
}

#[test]
fn minimized_is_one_of_the_states() {
    let mut toplevel = Toplevel::default();
    assert!(!toplevel.minimized());
    toplevel.states = vec![2, 1];
    assert!(toplevel.minimized());
}
