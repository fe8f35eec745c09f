//! The command lines of the two helpers.

use vstd::prelude::*;

use crate::requests::optional_text;
use crate::text::decimal;
use crate::text::law_decimal_reads_back;
use crate::text::number;
use crate::text::parse_number;
use crate::text::same_text;
use crate::text::texts;

verus! {

/// What the monitor was asked to do.
pub struct MonitorOptions {
    /// How long to watch.
    pub seconds: u64,
    /// The app id of the window to minimize.
    pub minimize: Option<String>,
    /// The app id of the window to bring back.
    pub unminimize: Option<String>,
    /// How long to wait before that.
    pub after: u64,
}

/// The contents of [`MonitorOptions`].
#[verifier::ext_equal]
pub struct MonitorOptionsView {
    pub seconds: u64,
    pub minimize: Option<Seq<char>>,
    pub unminimize: Option<Seq<char>>,
    pub after: u64,
}

impl View for MonitorOptions {
    type V = MonitorOptionsView;

    open spec fn view(&self) -> MonitorOptionsView {
        MonitorOptionsView {
            seconds: self.seconds,
            minimize: optional_text(self.minimize),
            unminimize: optional_text(self.unminimize),
            after: self.after,
        }
    }
}

/// Whether an argument takes the one behind it as its value.
pub open spec fn is_flag(arg: Seq<char>) -> bool {
    arg == "--minimize"@ || arg == "--unminimize"@ || arg == "--after"@
}

/// The argument at a position, where there is one.
pub open spec fn argument(args: Seq<Seq<char>>, i: int) -> Option<Seq<char>> {
    if 0 <= i < args.len() {
        Some(args[i])
    } else {
        None
    }
}

/// The number that an optional argument stands for, or else a fallback.
pub open spec fn number_or(arg: Option<Seq<char>>, fallback: u64) -> u64 {
    match arg {
        Some(arg) => match number(arg) {
            Some(n) => n,
            None => fallback,
        },
        None => fallback,
    }
}

impl MonitorOptionsView {
    /// Ten seconds of watching, and nothing to minimize.
    pub open spec fn standard() -> MonitorOptionsView {
        MonitorOptionsView { seconds: 10, minimize: None, unminimize: None, after: 2 }
    }

    /// These options, after a flag and the argument behind it.
    pub open spec fn flagged(
        self,
        flag: Seq<char>,
        value: Option<Seq<char>>,
    ) -> MonitorOptionsView {
        if flag == "--minimize"@ {
            MonitorOptionsView { minimize: value, ..self }
        } else if flag == "--unminimize"@ {
            MonitorOptionsView { unminimize: value, ..self }
        } else {
            MonitorOptionsView { after: number_or(value, self.after), ..self }
        }
    }

    /// These options, after the arguments from position `i` on.
    pub open spec fn read_from(self, args: Seq<Seq<char>>, i: int) -> MonitorOptionsView
        decreases args.len() + 1 - i,
    {
        if i >= args.len() {
            self
        } else if is_flag(args[i]) {
            self.flagged(args[i], argument(args, i + 1)).read_from(args, i + 2)
        } else {
            MonitorOptionsView {
                seconds: number_or(Some(args[i]), self.seconds),
                ..self
            }.read_from(args, i + 1)
        }
    }

    /// These options, after all the arguments.
    pub open spec fn read(self, args: Seq<Seq<char>>) -> MonitorOptionsView {
        self.read_from(args, 0)
    }
}

/// Whether the arguments from position `i` on end with a flag that lacks its
/// value.
pub open spec fn dangling_from(args: Seq<Seq<char>>, i: int) -> bool
    decreases args.len() + 1 - i,
{
    if i >= args.len() {
        false
    } else if is_flag(args[i]) {
        i + 1 >= args.len() || dangling_from(args, i + 2)
    } else {
        dangling_from(args, i + 1)
    }
}

/// The argument at a position, where there is one.
fn argument_at(args: &Vec<String>, i: usize) -> (r: Option<String>)
    ensures
        optional_text(r) == argument(texts(args@), i as int),
{
    if i < args.len() {
        Some(args[i].clone())
    } else {
        None
    }
}

/// The number that an optional argument stands for, or else a fallback.
fn number_of(arg: &Option<String>, fallback: u64) -> (r: u64)
    ensures
        r == number_or(optional_text(*arg), fallback),
{
    match arg {
        Some(arg) => match parse_number(arg.as_str()) {
            Some(n) => n,
            None => fallback,
        },
        None => fallback,
    }
}

impl MonitorOptions {
    /// Reads the arguments behind the program's name.
    pub fn parse(args: &Vec<String>) -> (r: MonitorOptions)
        ensures
            r@ == MonitorOptionsView::standard().read(texts(args@)),
    {
        let mut r = MonitorOptions { seconds: 10, minimize: None, unminimize: None, after: 2 };
        let mut index: usize = 0;
        while index < args.len()
            invariant
                index <= args.len(),
                MonitorOptionsView::standard().read(texts(args@)) == r@.read_from(
                    texts(args@),
                    index as int,
                ),
            decreases args.len() - index,
        {
            let arg = args[index].as_str();
            let ghost before = r@;
            assert(arg@ == texts(args@)[index as int]);
            let is_minimize = same_text(arg, "--minimize");
            let is_unminimize = same_text(arg, "--unminimize");
            let is_after = same_text(arg, "--after");
            if is_minimize || is_unminimize || is_after {
                let value = argument_at(args, index + 1);
                let ghost shown = optional_text(value);
                if is_minimize {
                    r.minimize = value;
                } else if is_unminimize {
                    r.unminimize = value;
                } else {
                    r.after = number_of(&value, r.after);
                }
                assert(r@ =~= before.flagged(arg@, shown));
                if args.len() - index >= 2 {
                    index = index + 2;
                } else {
                    assert(r@.read_from(texts(args@), index + 2) == r@);
                    assert(r@.read_from(texts(args@), args@.len() as int) == r@);
                    index = args.len();
                }
            } else {
                match parse_number(arg) {
                    Some(n) => {
                        r.seconds = n;
                    },
                    None => {},
                }
                assert(r@ =~= MonitorOptionsView {
                    seconds: number_or(Some(arg@), before.seconds),
                    ..before
                });
                index = index + 1;
            }
        }
        r
    }
}

/// How many seconds to keep the session locked.
pub open spec fn lock_time(args: Seq<Seq<char>>) -> u64 {
    number_or(argument(args, 0), 3)
}

/// Reads how many seconds to keep the session locked: the first argument
/// behind the program's name, or three where it is missing or no number.
pub fn lock_seconds(args: &Vec<String>) -> (r: u64)
    ensures
        r == lock_time(texts(args@)),
        r == number_or(argument(texts(args@), 0), 3),
{
    let first = argument_at(args, 0);
    number_of(&first, 3)
}

/// Arguments are read in order: reading two lists one after the other is
/// reading the second on top of what the first gave, unless the first breaks
/// off behind a flag.
pub proof fn law_arguments_are_read_in_order(
    options: MonitorOptionsView,
    first: Seq<Seq<char>>,
    second: Seq<Seq<char>>,
)
    requires
        !dangling_from(first, 0),
    ensures
        options.read(first + second) == options.read(first).read(second),
{
    lemma_read_on(options, first, second, 0);
}

proof fn lemma_read_on(
    options: MonitorOptionsView,
    first: Seq<Seq<char>>,
    second: Seq<Seq<char>>,
    i: int,
)
    requires
        0 <= i <= first.len(),
        !dangling_from(first, i),
    ensures
        options.read_from(first + second, i) == options.read_from(first, i).read(second),
    decreases first.len() - i,
{
    let all = first + second;
    if i == first.len() {
        lemma_shift(options, first, second, 0);
    } else {
        assert(all[i] == first[i]);
        if is_flag(first[i]) {
            assert(argument(all, i + 1) == argument(first, i + 1));
            lemma_read_on(options.flagged(first[i], argument(first, i + 1)), first, second, i + 2);
        } else {
            lemma_read_on(
                MonitorOptionsView {
                    seconds: number_or(Some(first[i]), options.seconds),
                    ..options
                },
                first,
                second,
                i + 1,
            );
        }
    }
}

proof fn lemma_shift(
    options: MonitorOptionsView,
    first: Seq<Seq<char>>,
    second: Seq<Seq<char>>,
    i: int,
)
    requires
        0 <= i,
    ensures
        options.read_from(first + second, first.len() + i) == options.read_from(second, i),
    decreases second.len() + 1 - i,
{
    let all = first + second;
    if i < second.len() {
        assert(all[first.len() + i] == second[i]);
        if is_flag(second[i]) {
            assert(argument(all, first.len() + i + 1) == argument(second, i + 1));
            lemma_shift(
                options.flagged(second[i], argument(second, i + 1)),
                first,
                second,
                i + 2,
            );
        } else {
            lemma_shift(
                MonitorOptionsView {
                    seconds: number_or(Some(second[i]), options.seconds),
                    ..options
                },
                first,
                second,
                i + 1,
            );
        }
    }
}

/// A flag with its value sets that one option and leaves the others, whatever
/// the value looks like.
pub proof fn law_flag_sets_its_own_option(
    options: MonitorOptionsView,
    flag: Seq<char>,
    value: Seq<char>,
)
    requires
        is_flag(flag),
    ensures
        options.read(seq![flag, value]) == options.flagged(flag, Some(value)),
        options.read(seq![flag, value]).seconds == options.seconds,
        flag == "--after"@ ==> options.read(seq![flag, value]).minimize == options.minimize
            && options.read(seq![flag, value]).unminimize == options.unminimize,
        flag != "--after"@ ==> options.read(seq![flag, value]).after == options.after,
{
    let args = seq![flag, value];
    assert(argument(args, 1) == Some(value));
    assert(options.read_from(args, 0) == options.flagged(flag, Some(value)).read_from(args, 2));
    reveal_strlit("--after");
    reveal_strlit("--minimize");
    reveal_strlit("--unminimize");
    assert("--after"@.len() != "--minimize"@.len() && "--after"@.len() != "--unminimize"@.len());
}

/// A view shows every field as it is.
pub proof fn law_options_view_is_faithful(options: MonitorOptions)
    ensures
        options@.seconds == options.seconds,
        options@.after == options.after,
        options.minimize is None ==> options@.minimize is None,
        options.minimize matches Some(app_id) ==> options@.minimize == Some(app_id@),
        options.unminimize is None ==> options@.unminimize is None,
        options.unminimize matches Some(app_id) ==> options@.unminimize == Some(app_id@),
{
}

/// `--minimize` and its value set the window to minimize, and nothing else,
/// whatever the value looks like and whatever comes behind.
pub proof fn law_minimize_sets_minimize(
    options: MonitorOptionsView,
    value: Seq<char>,
    rest: Seq<Seq<char>>,
)
    ensures
        ({
            let next = options.read(seq!["--minimize"@, value]);
            &&& next.minimize == Some(value)
            &&& next.unminimize == options.unminimize
            &&& next.after == options.after
            &&& next.seconds == options.seconds
            &&& options.read(seq!["--minimize"@, value] + rest) == next.read(rest)
        }),
{
    lemma_flag_then_rest(options, "--minimize"@, value, rest);
}

/// `--unminimize` and its value set the window to bring back, and nothing
/// else, whatever the value looks like and whatever comes behind.
pub proof fn law_unminimize_sets_unminimize(
    options: MonitorOptionsView,
    value: Seq<char>,
    rest: Seq<Seq<char>>,
)
    ensures
        ({
            let next = options.read(seq!["--unminimize"@, value]);
            &&& next.unminimize == Some(value)
            &&& next.minimize == options.minimize
            &&& next.after == options.after
            &&& next.seconds == options.seconds
            &&& options.read(seq!["--unminimize"@, value] + rest) == next.read(rest)
        }),
{
    lemma_flag_then_rest(options, "--unminimize"@, value, rest);
    reveal_strlit("--minimize");
    reveal_strlit("--unminimize");
    assert("--minimize"@.len() != "--unminimize"@.len());
}

/// `--after` and a number set the time to wait, and nothing else; with
/// anything that is no number they set nothing.
pub proof fn law_after_sets_after(
    options: MonitorOptionsView,
    value: Seq<char>,
    rest: Seq<Seq<char>>,
)
    ensures
        ({
            let next = options.read(seq!["--after"@, value]);
            &&& number(value) matches Some(n) ==> next.after == n
            &&& number(value) is None ==> next.after == options.after
            &&& next.minimize == options.minimize
            &&& next.unminimize == options.unminimize
            &&& next.seconds == options.seconds
            &&& options.read(seq!["--after"@, value] + rest) == next.read(rest)
        }),
{
    lemma_flag_then_rest(options, "--after"@, value, rest);
    reveal_strlit("--after");
    reveal_strlit("--minimize");
    reveal_strlit("--unminimize");
    assert("--after"@.len() != "--minimize"@.len() && "--after"@.len() != "--unminimize"@.len());
}

/// `--after` and a number in decimal wait for that many seconds.
pub proof fn law_after_reads_decimals(options: MonitorOptionsView, n: u64)
    ensures
        options.read(seq!["--after"@, decimal(n as nat)]).after == n,
{
    law_after_sets_after(options, decimal(n as nat), seq![]);
    law_decimal_reads_back(n);
}

/// Any other argument sets the time to watch if it is a number, and nothing
/// else; what comes behind is read on top of that.
pub proof fn law_other_argument_sets_seconds(
    options: MonitorOptionsView,
    arg: Seq<char>,
    rest: Seq<Seq<char>>,
)
    requires
        arg != "--minimize"@,
        arg != "--unminimize"@,
        arg != "--after"@,
    ensures
        ({
            let next = options.read(seq![arg]);
            &&& number(arg) matches Some(n) ==> next.seconds == n
            &&& number(arg) is None ==> next.seconds == options.seconds
            &&& next.minimize == options.minimize
            &&& next.unminimize == options.unminimize
            &&& next.after == options.after
            &&& options.read(seq![arg] + rest) == next.read(rest)
        }),
{
    let first = seq![arg];
    let set = MonitorOptionsView { seconds: number_or(Some(arg), options.seconds), ..options };
    assert(options.read_from(first, 0) == set.read_from(first, 1));
    assert(set.read_from(first, 1) == set);
    assert(!dangling_from(first, 1));
    assert(!dangling_from(first, 0));
    law_arguments_are_read_in_order(options, first, rest);
}

/// A flag at the very end has no value: it takes back a window that was given
/// before, and leaves the time to wait.
pub proof fn law_flag_at_the_end_has_no_value(options: MonitorOptionsView)
    ensures
        ({
            let next = options.read(seq!["--minimize"@]);
            &&& next.minimize is None
            &&& next.unminimize == options.unminimize
            &&& next.after == options.after
            &&& next.seconds == options.seconds
        }),
        ({
            let next = options.read(seq!["--unminimize"@]);
            &&& next.unminimize is None
            &&& next.minimize == options.minimize
            &&& next.after == options.after
            &&& next.seconds == options.seconds
        }),
        options.read(seq!["--after"@]) == options,
        options.read(seq![]) == options,
{
    reveal_strlit("--after");
    reveal_strlit("--minimize");
    reveal_strlit("--unminimize");
    assert("--after"@.len() != "--minimize"@.len() && "--after"@.len() != "--unminimize"@.len());
    assert("--minimize"@.len() != "--unminimize"@.len());
    lemma_bare_flag(options, "--minimize"@);
    lemma_bare_flag(options, "--unminimize"@);
    lemma_bare_flag(options, "--after"@);
    assert(options.read(seq!["--after"@]) =~= options);
}

proof fn lemma_bare_flag(options: MonitorOptionsView, flag: Seq<char>)
    requires
        is_flag(flag),
    ensures
        options.read(seq![flag]) == options.flagged(flag, None),
{
    let args = seq![flag];
    assert(argument(args, 1) is None);
    assert(options.read_from(args, 0) == options.flagged(flag, None).read_from(args, 2));
}

proof fn lemma_flag_then_rest(
    options: MonitorOptionsView,
    flag: Seq<char>,
    value: Seq<char>,
    rest: Seq<Seq<char>>,
)
    requires
        is_flag(flag),
    ensures
        options.read(seq![flag, value]) == options.flagged(flag, Some(value)),
        options.read(seq![flag, value] + rest) == options.read(seq![flag, value]).read(rest),
{
    let first = seq![flag, value];
    law_flag_sets_its_own_option(options, flag, value);
    assert(!dangling_from(first, 2));
    assert(!dangling_from(first, 0));
    law_arguments_are_read_in_order(options, first, rest);
}

/// An option that no argument speaks of keeps its default: ten seconds of
/// watching, two of waiting, and no window.
pub proof fn law_unset_options_keep_their_defaults(args: Seq<Seq<char>>)
    ensures
        ({
            let options = MonitorOptionsView::standard().read(args);
            &&& (forall|i: int| 0 <= i < args.len() ==> number(#[trigger] args[i]) is None)
                ==> options.seconds == 10 && options.after == 2
            &&& !args.contains("--after"@) ==> options.after == 2
            &&& !args.contains("--minimize"@) ==> options.minimize is None
            &&& !args.contains("--unminimize"@) ==> options.unminimize is None
        }),
{
    lemma_unset_options_stay(MonitorOptionsView::standard(), args, 0);
}

proof fn lemma_unset_options_stay(options: MonitorOptionsView, args: Seq<Seq<char>>, i: int)
    requires
        0 <= i,
    ensures
        ({
            let next = options.read_from(args, i);
            &&& (forall|j: int| 0 <= j < args.len() ==> number(#[trigger] args[j]) is None)
                ==> next.seconds == options.seconds && next.after == options.after
            &&& !args.contains("--after"@) ==> next.after == options.after
            &&& !args.contains("--minimize"@) ==> next.minimize == options.minimize
            &&& !args.contains("--unminimize"@) ==> next.unminimize == options.unminimize
        }),
    decreases args.len() + 1 - i,
{
    if i < args.len() {
        let arg = args[i];
        assert(args.contains(arg));
        if is_flag(arg) {
            lemma_unset_options_stay(options.flagged(arg, argument(args, i + 1)), args, i + 2);
        } else {
            lemma_unset_options_stay(
                MonitorOptionsView { seconds: number_or(Some(arg), options.seconds), ..options },
                args,
                i + 1,
            );
        }
    }
}

/// The time to keep the session locked is the first argument where that is a
/// number, and three seconds otherwise; the other arguments do not count.
pub proof fn law_lock_time_is_the_first_argument(args: Seq<Seq<char>>)
    ensures
        args.len() == 0 ==> lock_time(args) == 3,
        args.len() > 0 ==> lock_time(args) == (match number(args[0]) {
            Some(n) => n,
            None => 3,
        }),
{
}

} // verus!
