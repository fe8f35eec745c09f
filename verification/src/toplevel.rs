//! One toplevel window as its compositor advertises it, and the binary form
//! of its state list.

use vstd::prelude::*;

use crate::text::append_bracketed;
use crate::text::bracketed;
use crate::text::texts;

verus! {

/// The value that stands for a minimized window in a state list.
pub const MINIMIZED: u32 = 1;

/// The test that everything but one value passes.
pub open spec fn other_than<A>(x: A) -> spec_fn(A) -> bool {
    |y: A| y != x
}

/// What a toplevel handle has told so far.
pub struct Toplevel {
    pub title: String,
    pub app_id: String,
    /// The outputs that show the window, in the order in which it entered
    /// them.
    pub outputs: Vec<u32>,
    pub saw_output_enter: bool,
    pub states: Vec<u32>,
}

/// The contents of a [`Toplevel`].
#[verifier::ext_equal]
pub struct ToplevelView {
    pub title: Seq<char>,
    pub app_id: Seq<char>,
    pub outputs: Seq<u32>,
    pub saw_output_enter: bool,
    pub states: Seq<u32>,
}

impl View for Toplevel {
    type V = ToplevelView;

    open spec fn view(&self) -> ToplevelView {
        ToplevelView {
            title: self.title@,
            app_id: self.app_id@,
            outputs: self.outputs@,
            saw_output_enter: self.saw_output_enter,
            states: self.states@,
        }
    }
}

impl ToplevelView {
    /// A toplevel of which nothing is known yet.
    pub open spec fn unknown() -> ToplevelView {
        ToplevelView {
            title: Seq::empty(),
            app_id: Seq::empty(),
            outputs: Seq::empty(),
            saw_output_enter: false,
            states: Seq::empty(),
        }
    }

    /// The window shows on one more output.
    pub open spec fn entered(self, output: u32) -> ToplevelView {
        ToplevelView {
            saw_output_enter: true,
            outputs: if self.outputs.contains(output) {
                self.outputs
            } else {
                self.outputs.push(output)
            },
            ..self
        }
    }

    /// The window no longer shows on an output.
    pub open spec fn left(self, output: u32) -> ToplevelView {
        ToplevelView { outputs: self.outputs.filter(other_than(output)), ..self }
    }

    /// The window has shown on an output, and now shows on none.
    pub open spec fn lacks_outputs(self) -> bool {
        self.saw_output_enter && self.outputs.len() == 0
    }

    pub open spec fn minimized(self) -> bool {
        self.states.contains(MINIMIZED)
    }

    /// No output is listed twice, and none is listed unless the window has
    /// entered one.
    pub open spec fn well_formed(self) -> bool {
        &&& self.outputs.no_duplicates()
        &&& self.outputs.len() > 0 ==> self.saw_output_enter
    }
}

impl Default for Toplevel {
    fn default() -> (r: Toplevel)
        ensures
            r@ == ToplevelView::unknown(),
    {
        Toplevel {
            title: String::new(),
            app_id: String::new(),
            outputs: Vec::new(),
            saw_output_enter: false,
            states: Vec::new(),
        }
    }
}

impl Toplevel {
    /// Records that the window shows on `output`.
    pub fn enter(&mut self, output: u32)
        ensures
            final(self)@ == old(self)@.entered(output),
    {
        self.saw_output_enter = true;
        if !contains(&self.outputs, output) {
            self.outputs.push(output);
        }
    }

    /// Records that the window no longer shows on `output`.
    pub fn leave(&mut self, output: u32)
        ensures
            final(self)@ == old(self)@.left(output),
    {
        self.outputs = without(&self.outputs, output);
    }

    /// Whether the window has shown on an output and now shows on none.
    pub fn lacks_outputs(&self) -> (r: bool)
        ensures
            r == self@.lacks_outputs(),
    {
        self.saw_output_enter && self.outputs.len() == 0
    }

    pub fn minimized(&self) -> (r: bool)
        ensures
            r == self@.minimized(),
    {
        contains(&self.states, MINIMIZED)
    }
}

/// Whether a list holds a value.
fn contains(values: &Vec<u32>, wanted: u32) -> (r: bool)
    ensures
        r == values@.contains(wanted),
{
    let mut i: usize = 0;
    while i < values.len()
        invariant
            i <= values.len(),
            forall|j: int| 0 <= j < i ==> values@[j] != wanted,
        decreases values.len() - i,
    {
        if values[i] == wanted {
            assert(values@[i as int] == wanted);
            return true;
        }
        i = i + 1;
    }
    false
}

/// A list without the occurrences of one value.
fn without(values: &Vec<u32>, unwanted: u32) -> (r: Vec<u32>)
    ensures
        r@ == values@.filter(other_than(unwanted)),
{
    let ghost keep = other_than(unwanted);
    let mut kept: Vec<u32> = Vec::new();
    let mut i: usize = 0;
    proof {
        reveal(Seq::filter);
    }
    while i < values.len()
        invariant
            i <= values.len(),
            keep == other_than(unwanted),
            kept@ == values@.take(i as int).filter(keep),
        decreases values.len() - i,
    {
        proof {
            reveal(Seq::filter);
            assert(values@.take(i + 1).drop_last() =~= values@.take(i as int));
        }
        if values[i] != unwanted {
            kept.push(values[i]);
        }
        i = i + 1;
    }
    assert(values@.take(values@.len() as int) =~= values@);
    kept
}

/// The order of the bytes of a number in memory.
#[derive(Clone, Copy, PartialEq, Eq, Structural, Debug)]
pub enum ByteOrder {
    Little,
    Big,
}

/// The number that four bytes hold.
pub open spec fn word(bytes: Seq<u8>, order: ByteOrder) -> int {
    match order {
        ByteOrder::Little => bytes[0] + 0x100 * bytes[1] + 0x1_0000 * bytes[2] + 0x100_0000
            * bytes[3],
        ByteOrder::Big => bytes[3] + 0x100 * bytes[2] + 0x1_0000 * bytes[1] + 0x100_0000
            * bytes[0],
    }
}

/// The numbers that a run of bytes holds, four bytes each. What is left over
/// at the end counts for nothing.
pub open spec fn words(raw: Seq<u8>, order: ByteOrder) -> Seq<u32> {
    Seq::new(raw.len() / 4, |i: int| word(raw.subrange(4 * i, 4 * i + 4), order) as u32)
}

/// The byte order in which the bytes `1, 0, 0, 0` read as `probe`.
pub open spec fn order_of_probe(probe: u32) -> ByteOrder {
    if probe == 1 {
        ByteOrder::Little
    } else {
        ByteOrder::Big
    }
}

/// Calls `u32::from_ne_bytes`. The claim is that the bytes are read in one of
/// the two orders; which one depends on the machine and is left unsaid.
#[verifier::external_body]
fn native_word(bytes: [u8; 4]) -> (r: u32)
    ensures
        r == word(bytes@, ByteOrder::Little) || r == word(bytes@, ByteOrder::Big),
{
    u32::from_ne_bytes(bytes)
}

/// Whether the number is an outcome of a call of `u32::from_ne_bytes` on the
/// bytes `1, 0, 0, 0`.
pub closed spec fn probe_reads_as(r: u32) -> bool {
    call_ensures(native_word, ([1, 0, 0, 0],), r)
}

impl ByteOrder {
    /// The byte order of the machine on which the bytes `1, 0, 0, 0` read as
    /// `probe`.
    pub fn from_probe(probe: u32) -> (r: ByteOrder)
        ensures
            r == order_of_probe(probe),
    {
        if probe == 1 {
            ByteOrder::Little
        } else {
            ByteOrder::Big
        }
    }

    /// What this machine reads in the bytes `1, 0, 0, 0`. Which of the two
    /// numbers it is depends on the machine alone.
    pub fn native_probe() -> (r: u32)
        ensures
            probe_reads_as(r),
            r == 1 || r == 0x0100_0000,
    {
        native_word([1, 0, 0, 0])
    }

    /// The byte order of this machine: that in which it reads the bytes
    /// `1, 0, 0, 0`.
    pub fn native() -> (r: ByteOrder)
        ensures
            exists|probe: u32| #[trigger] probe_reads_as(probe) && r == order_of_probe(probe),
    {
        ByteOrder::from_probe(ByteOrder::native_probe())
    }
}

/// The number in four bytes.
fn read_word(b0: u8, b1: u8, b2: u8, b3: u8, order: ByteOrder) -> (r: u32)
    ensures
        r == word(seq![b0, b1, b2, b3], order),
{
    match order {
        ByteOrder::Little => b0 as u32 + 0x100 * (b1 as u32) + 0x1_0000 * (b2 as u32) + 0x100_0000
            * (b3 as u32),
        ByteOrder::Big => b3 as u32 + 0x100 * (b2 as u32) + 0x1_0000 * (b1 as u32) + 0x100_0000
            * (b0 as u32),
    }
}

/// Reads a state list from the bytes that carry it.
pub fn decode_states(raw: &Vec<u8>, order: ByteOrder) -> (r: Vec<u32>)
    ensures
        r@ == words(raw@, order),
{
    let mut r: Vec<u32> = Vec::new();
    let mut i: usize = 0;
    let n: usize = raw.len() / 4;
    while i < n
        invariant
            i <= n,
            n == raw@.len() / 4,
            4 * n <= raw.len(),
            r@ == words(raw@, order).take(i as int),
        decreases n - i,
    {
        let at: usize = 4 * i;
        let value = read_word(raw[at], raw[at + 1], raw[at + 2], raw[at + 3], order);
        proof {
            let chunk = raw@.subrange(4 * i, 4 * i + 4);
            assert(chunk =~= seq![raw@[at as int], raw@[at + 1], raw@[at + 2], raw@[at + 3]]);
            assert(words(raw@, order)[i as int] == value);
            assert(words(raw@, order).take(i + 1) =~= words(raw@, order).take(i as int).push(
                value,
            ));
        }
        r.push(value);
        i = i + 1;
    }
    assert(words(raw@, order).take(n as int) =~= words(raw@, order));
    r
}

/// The name of one entry of a state list.
pub open spec fn state_name(value: u32) -> Seq<char> {
    if value == 0 {
        "maximized"@
    } else if value == 1 {
        "minimized"@
    } else if value == 2 {
        "activated"@
    } else if value == 3 {
        "fullscreen"@
    } else {
        "?"@
    }
}

/// The names of a state list, each between double quotes.
pub open spec fn state_names(states: Seq<u32>) -> Seq<Seq<char>> {
    states.map_values(|value: u32| "\""@ + state_name(value) + "\""@)
}

/// The name of one entry of a state list.
pub fn name_of_state(value: u32) -> (r: &'static str)
    ensures
        r@ == state_name(value),
{
    match value {
        0 => "maximized",
        1 => "minimized",
        2 => "activated",
        3 => "fullscreen",
        _ => "?",
    }
}

/// Appends the names of a state list, quoted and between square brackets.
pub fn append_state_names(out: &mut String, states: &Vec<u32>)
    ensures
        final(out)@ == old(out)@ + bracketed(state_names(states@)),
{
    let mut names: Vec<String> = Vec::new();
    let mut i: usize = 0;
    while i < states.len()
        invariant
            i <= states.len(),
            texts(names@) == state_names(states@).take(i as int),
        decreases states.len() - i,
    {
        let mut name: String = "\"".to_owned();
        name.append(name_of_state(states[i]));
        name.append("\"");
        let ghost before = names@;
        names.push(name);
        assert(texts(names@) =~= texts(before).push(name@));
        assert(state_names(states@).take(i + 1) =~= state_names(states@).take(i as int).push(
            name@,
        ));
        i = i + 1;
    }
    assert(state_names(states@).take(states@.len() as int) =~= state_names(states@));
    append_bracketed(out, &names);
}

/// A window that has just entered an output is listed on it, and has been
/// seen on one.
pub proof fn law_entered_output_is_listed(t: ToplevelView, output: u32)
    ensures
        t.entered(output).outputs.contains(output),
        !t.entered(output).lacks_outputs(),
        forall|other: u32|
            other != output ==> (t.entered(output).outputs.contains(other)
                <==> #[trigger] t.outputs.contains(other)),
{
    let after = t.entered(output).outputs;
    if !t.outputs.contains(output) {
        assert(after[after.len() - 1] == output);
        assert forall|other: u32| other != output implies (after.contains(other)
            <==> #[trigger] t.outputs.contains(other)) by {
            if t.outputs.contains(other) {
                let i = t.outputs.index_of(other);
                assert(after[i] == other);
            }
        }
    }
}

/// A window that has just left an output is no longer listed on it; every
/// other output stays.
pub proof fn law_left_output_is_gone(t: ToplevelView, output: u32)
    ensures
        !t.left(output).outputs.contains(output),
        forall|other: u32|
            other != output ==> (t.left(output).outputs.contains(other)
                <==> #[trigger] t.outputs.contains(other)),
{
    lemma_filter_contains(t.outputs, other_than(output));
}

/// Leaving an output that the window had newly entered gives back the list
/// of outputs as it was.
pub proof fn law_leaving_undoes_entering(t: ToplevelView, output: u32)
    requires
        !t.outputs.contains(output),
    ensures
        t.entered(output).left(output).outputs == t.outputs,
{
    let keep = other_than(output);
    reveal(Seq::filter);
    assert(t.outputs.push(output).drop_last() =~= t.outputs);
    lemma_filter_keeps_all(t.outputs, keep);
}

/// Entering twice is entering once.
pub proof fn law_entering_again_changes_nothing(t: ToplevelView, output: u32)
    ensures
        t.entered(output).entered(output) == t.entered(output),
{
    law_entered_output_is_listed(t, output);
}

/// Entering and leaving keep the list of outputs free of duplicates.
pub proof fn law_outputs_stay_well_formed(t: ToplevelView, output: u32)
    requires
        t.well_formed(),
    ensures
        t.entered(output).well_formed(),
        t.left(output).well_formed(),
{
    lemma_filter_no_duplicates(t.outputs, other_than(output));
}

/// A view shows every field as it is.
pub proof fn law_toplevel_view_is_faithful(t: Toplevel)
    ensures
        t@.title == t.title@,
        t@.app_id == t.app_id@,
        t@.outputs == t.outputs@,
        t@.saw_output_enter == t.saw_output_enter,
        t@.states == t.states@,
{
}

/// Nothing is known of an unknown toplevel.
pub proof fn law_unknown_toplevel_is_blank(t: ToplevelView)
    requires
        t == ToplevelView::unknown(),
    ensures
        t.title.len() == 0,
        t.app_id.len() == 0,
        t.outputs.len() == 0,
        t.states.len() == 0,
        !t.saw_output_enter,
{
}

/// Entering an output puts it behind those already listed, marks that one has
/// been entered, and changes nothing else.
pub proof fn law_entering_appends(t: ToplevelView, output: u32)
    ensures
        ({
            let next = t.entered(output);
            &&& t.outputs.contains(output) ==> next.outputs == t.outputs
            &&& !t.outputs.contains(output) ==> next.outputs == t.outputs.push(output)
            &&& next.saw_output_enter
            &&& next.title == t.title
            &&& next.app_id == t.app_id
            &&& next.states == t.states
        }),
{
}

/// Leaving an output takes it out of the list, and changes nothing else.
pub proof fn law_leaving_takes_out(t: ToplevelView, output: u32)
    requires
        t.outputs.no_duplicates(),
    ensures
        ({
            let next = t.left(output);
            &&& t.outputs.contains(output) ==> next.outputs == t.outputs.remove(
                t.outputs.index_of(output),
            )
            &&& !t.outputs.contains(output) ==> next.outputs == t.outputs
            &&& next.saw_output_enter == t.saw_output_enter
            &&& next.title == t.title
            &&& next.app_id == t.app_id
            &&& next.states == t.states
        }),
{
    lemma_filter_takes_out(t.outputs, output);
}

/// A window lacks outputs exactly if it has been on one and none is listed.
pub proof fn law_lacking_outputs(t: ToplevelView)
    ensures
        t.lacks_outputs() <==> t.saw_output_enter && t.outputs =~= Seq::empty(),
{
}

/// A window is minimized exactly if one of its states is 1.
pub proof fn law_minimized_is_state_one(t: ToplevelView)
    ensures
        t.minimized() <==> exists|i: int| 0 <= i < t.states.len() && #[trigger] t.states[i] == 1,
{
}

/// Each four bytes give one number, in either order; up to three bytes at the
/// end are left over.
pub proof fn law_words_are_read_four_bytes_each(raw: Seq<u8>)
    ensures
        4 * words(raw, ByteOrder::Little).len() <= raw.len() < 4 * words(
            raw,
            ByteOrder::Little,
        ).len() + 4,
        words(raw, ByteOrder::Big).len() == words(raw, ByteOrder::Little).len(),
        forall|i: int|
            0 <= i < words(raw, ByteOrder::Little).len() ==> #[trigger] words(
                raw,
                ByteOrder::Little,
            )[i] == raw[4 * i] + 256 * raw[4 * i + 1] + 65536 * raw[4 * i + 2] + 16777216 * raw[4
                * i + 3],
        forall|i: int|
            0 <= i < words(raw, ByteOrder::Big).len() ==> #[trigger] words(raw, ByteOrder::Big)[i]
                == 16777216 * raw[4 * i] + 65536 * raw[4 * i + 1] + 256 * raw[4 * i + 2] + raw[4 * i
                + 3],
{
}

/// The order in which the bytes `1, 0, 0, 0` read as a number is found again
/// from that number.
pub proof fn law_probe_gives_the_order_back(order: ByteOrder, probe: u32)
    requires
        words(seq![1, 0, 0, 0], order) == seq![probe],
    ensures
        order_of_probe(probe) == order,
{
    let raw: Seq<u8> = seq![1, 0, 0, 0];
    law_words_are_read_four_bytes_each(raw);
    assert(words(raw, order)[0] == probe);
}

/// Each name stands for one state, and `?` for all the others.
pub proof fn law_state_names_tell_states_apart(value: u32)
    ensures
        state_name(value) == "maximized"@ <==> value == 0,
        state_name(value) == "minimized"@ <==> value == 1,
        state_name(value) == "activated"@ <==> value == 2,
        state_name(value) == "fullscreen"@ <==> value == 3,
        state_name(value) == "?"@ <==> value > 3,
{
    reveal_strlit("maximized");
    reveal_strlit("minimized");
    reveal_strlit("activated");
    reveal_strlit("fullscreen");
    reveal_strlit("?");
    assert("maximized"@[1] != "minimized"@[1]);
    assert("maximized"@[0] != "activated"@[0]);
    assert("minimized"@[0] != "activated"@[0]);
    assert("fullscreen"@.len() == 10 && "?"@.len() == 1);
}

/// The names of a state list stand one for one, in order, each between double
/// quotes.
pub proof fn law_state_names_stand_one_for_one(states: Seq<u32>)
    ensures
        state_names(states).len() == states.len(),
        forall|i: int|
            0 <= i < states.len() ==> #[trigger] state_names(states)[i] == seq!['"'] + state_name(
                states[i],
            ) + seq!['"'],
{
    reveal_strlit("\"");
    assert("\""@ =~= seq!['"']);
}

/// Filtering out one value of a sequence without duplicates takes out that
/// one place.
pub proof fn lemma_filter_takes_out<A>(s: Seq<A>, x: A)
    requires
        s.no_duplicates(),
    ensures
        s.contains(x) ==> s.filter(other_than(x)) == s.remove(s.index_of(x)),
        !s.contains(x) ==> s.filter(other_than(x)) == s,
    decreases s.len(),
{
    let keep = other_than(x);
    if !s.contains(x) {
        lemma_filter_keeps_all(s, keep);
    } else {
        reveal(Seq::filter);
        let rest = s.drop_last();
        lemma_filter_takes_out(rest, x);
        let at = s.index_of(x);
        if at == s.len() - 1 {
            assert(!rest.contains(x)) by {
                if rest.contains(x) {
                    assert(s[rest.index_of(x)] == s[at]);
                }
            }
            assert(s.remove(at) =~= rest);
        } else {
            assert(rest[at] == x);
            assert(rest.contains(x));
            assert(rest.index_of(x) == at) by {
                assert(s[rest.index_of(x)] == s[at]);
            }
            assert(s.last() != x) by {
                assert(s[s.len() - 1] != s[at]);
            }
            assert(s.remove(at) =~= rest.remove(at).push(s.last()));
        }
    }
}

/// Filtering keeps the order in which a rank puts the items.
pub proof fn lemma_filter_keeps_order<A>(
    s: Seq<A>,
    keep: spec_fn(A) -> bool,
    rank: spec_fn(A) -> int,
)
    requires
        forall|i: int, j: int|
            0 <= i < j < s.len() ==> rank(#[trigger] s[i]) < rank(#[trigger] s[j]),
    ensures
        ({
            let kept = s.filter(keep);
            forall|i: int, j: int|
                0 <= i < j < kept.len() ==> rank(#[trigger] kept[i]) < rank(#[trigger] kept[j])
        }),
    decreases s.len(),
{
    reveal(Seq::filter);
    if s.len() > 0 {
        let rest = s.drop_last();
        lemma_filter_keeps_order(rest, keep, rank);
        lemma_filter_contains(rest, keep);
        let kept = rest.filter(keep);
        assert forall|i: int| 0 <= i < kept.len() implies rank(#[trigger] kept[i]) < rank(
            s.last(),
        ) by {
            assert(kept.contains(kept[i]));
            assert(rest.contains(kept[i]));
            let j = rest.index_of(kept[i]);
            assert(s[j] == kept[i]);
            assert(rank(s[j]) < rank(s[s.len() - 1]));
        }
    }
}

/// What filtering keeps of a sequence.
pub proof fn lemma_filter_contains<A>(s: Seq<A>, keep: spec_fn(A) -> bool)
    ensures
        forall|x: A| s.filter(keep).contains(x) <==> (#[trigger] s.contains(x) && keep(x)),
    decreases s.len(),
{
    reveal(Seq::filter);
    if s.len() > 0 {
        let rest = s.drop_last();
        lemma_filter_contains(rest, keep);
        assert forall|x: A| s.filter(keep).contains(x) <==> (#[trigger] s.contains(x) && keep(
            x,
        )) by {
            assert(s =~= rest.push(s.last()));
            assert(s.contains(x) <==> (rest.contains(x) || x == s.last())) by {
                if rest.contains(x) {
                    assert(s[rest.index_of(x)] == x);
                }
                if x == s.last() {
                    assert(s[s.len() - 1] == x);
                }
            }
            if keep(s.last()) {
                let kept = rest.filter(keep);
                assert(s.filter(keep) == kept.push(s.last()));
                assert(kept.push(s.last()).contains(x) <==> (kept.contains(x) || x == s.last()))
                    by {
                    if kept.contains(x) {
                        assert(kept.push(s.last())[kept.index_of(x)] == x);
                    }
                    if x == s.last() {
                        assert(kept.push(s.last())[kept.len() as int] == x);
                    }
                }
            }
        }
    }
}

/// Filtering introduces no duplicates.
pub proof fn lemma_filter_no_duplicates<A>(s: Seq<A>, keep: spec_fn(A) -> bool)
    requires
        s.no_duplicates(),
    ensures
        s.filter(keep).no_duplicates(),
        s.filter(keep).len() <= s.len(),
    decreases s.len(),
{
    reveal(Seq::filter);
    if s.len() > 0 {
        let rest = s.drop_last();
        lemma_filter_no_duplicates(rest, keep);
        lemma_filter_contains(rest, keep);
        assert(!rest.contains(s.last()));
    }
}

/// Filtering keeps everything where nothing fails the test.
pub proof fn lemma_filter_keeps_all<A>(s: Seq<A>, keep: spec_fn(A) -> bool)
    requires
        forall|x: A| #[trigger] s.contains(x) ==> keep(x),
    ensures
        s.filter(keep) == s,
    decreases s.len(),
{
    reveal(Seq::filter);
    if s.len() > 0 {
        let rest = s.drop_last();
        assert forall|x: A| #[trigger] rest.contains(x) implies keep(x) by {
            assert(s[rest.index_of(x)] == x);
            assert(s.contains(x));
        }
        lemma_filter_keeps_all(rest, keep);
        assert(s.contains(s[s.len() - 1]));
        assert(rest.push(s.last()) =~= s);
    }
}

} // verus!
