//! Text that the helpers print and read: decimal numbers, quoted strings,
//! lists and time stamps.

use vstd::prelude::*;

verus! {

/// The character of one decimal digit.
pub open spec fn digit_char(d: nat) -> char {
    (48 + d) as char
}

/// `n` written in decimal, without leading zeros.
pub open spec fn decimal(n: nat) -> Seq<char>
    decreases n,
{
    if n < 10 {
        seq![digit_char(n)]
    } else {
        decimal(n / 10).push(digit_char(n % 10))
    }
}

/// Whether every character is one of `0` to `9`.
pub open spec fn all_digits(s: Seq<char>) -> bool {
    forall|i: int| 0 <= i < s.len() ==> '0' <= #[trigger] s[i] <= '9'
}

/// The value of a string of decimal digits; the empty string counts as zero.
pub open spec fn digits_value(s: Seq<char>) -> int
    decreases s.len(),
{
    if s.len() == 0 {
        0
    } else {
        digits_value(s.drop_last()) * 10 + (s.last() as int - '0' as int)
    }
}

/// What follows an optional leading `+`.
pub open spec fn after_sign(s: Seq<char>) -> Seq<char> {
    if s.len() > 0 && s[0] == '+' {
        s.skip(1)
    } else {
        s
    }
}

/// The number that a string stands for: an optional `+`, then one or more
/// digits, with a value that fits.
pub open spec fn number(s: Seq<char>) -> Option<u64> {
    let digits = after_sign(s);
    if digits.len() > 0 && all_digits(digits) && digits_value(digits) <= u64::MAX {
        Some(digits_value(digits) as u64)
    } else {
        None
    }
}

/// Items between square brackets, separated by a comma and a space.
pub open spec fn bracketed(items: Seq<Seq<char>>) -> Seq<char> {
    "["@ + listed(items) + "]"@
}

/// Items separated by a comma and a space.
pub open spec fn listed(items: Seq<Seq<char>>) -> Seq<char>
    decreases items.len(),
{
    if items.len() == 0 {
        Seq::empty()
    } else if items.len() == 1 {
        items[0]
    } else {
        listed(items.drop_last()) + ", "@ + items.last()
    }
}

/// The text of each string.
pub open spec fn texts(items: Seq<String>) -> Seq<Seq<char>> {
    items.map_values(|s: String| s@)
}

/// `n` spaces.
pub open spec fn spaces(n: nat) -> Seq<char> {
    Seq::new(n, |i: int| ' ')
}

/// `s` with spaces in front of it up to `width` characters; a longer `s` stays
/// as it is.
pub open spec fn right_aligned(s: Seq<char>, width: nat) -> Seq<char> {
    if s.len() < width {
        spaces((width - s.len()) as nat) + s
    } else {
        s
    }
}

/// A time stamp: the elapsed seconds, right-aligned in seven columns, between
/// `[` and `s]`. Before the clock has started it reads zero.
pub open spec fn stamp_text(elapsed: Option<Seq<char>>) -> Seq<char> {
    let shown = match elapsed {
        Some(seconds) => seconds,
        None => "0.000"@,
    };
    "["@ + right_aligned(shown, 7) + "s]"@
}

/// `true` or `false`.
pub open spec fn bool_text(b: bool) -> Seq<char> {
    if b {
        "true"@
    } else {
        "false"@
    }
}

/// What `Debug` prints for a string: the string between double quotes, with
/// the escapes that std's Unicode tables call for.
pub uninterp spec fn debug_text(s: Seq<char>) -> Seq<char>;

/// The `Debug` form of each string.
pub open spec fn debug_texts(items: Seq<Seq<char>>) -> Seq<Seq<char>> {
    items.map_values(|s: Seq<char>| debug_text(s))
}

/// Calls std's `Debug` formatting of `str`. The claim is only that the outcome
/// depends on nothing but the string.
#[verifier::external_body]
pub(crate) fn quoted(s: &str) -> (r: String)
    ensures
        r@ == debug_text(s@),
{
    format!("{:?}", s)
}

/// Whether two strings hold the same characters.
pub fn same_text(a: &str, b: &str) -> (r: bool)
    ensures
        r == (a@ == b@),
{
    let left: String = a.to_owned();
    let right: String = b.to_owned();
    left == right
}

/// The characters of a string, in order.
pub fn characters(s: &str) -> (r: Vec<char>)
    ensures
        r@ == s@,
{
    let mut r: Vec<char> = Vec::new();
    for c in iter: s.chars()
        invariant
            iter.seq() == s@,
            r@ == s@.take(iter.index() as int),
    {
        r.push(c);
        assert(s@.take(iter.index() + 1) =~= s@.take(iter.index() as int).push(c));
    }
    assert(s@.take(s@.len() as int) =~= s@);
    r
}

/// One decimal digit as text.
fn digit(d: u64) -> (r: &'static str)
    requires
        d < 10,
    ensures
        r@ == seq![digit_char(d as nat)],
{
    proof {
        reveal_strlit("0");
        reveal_strlit("1");
        reveal_strlit("2");
        reveal_strlit("3");
        reveal_strlit("4");
        reveal_strlit("5");
        reveal_strlit("6");
        reveal_strlit("7");
        reveal_strlit("8");
        reveal_strlit("9");
    }
    if d == 0 {
        "0"
    } else if d == 1 {
        "1"
    } else if d == 2 {
        "2"
    } else if d == 3 {
        "3"
    } else if d == 4 {
        "4"
    } else if d == 5 {
        "5"
    } else if d == 6 {
        "6"
    } else if d == 7 {
        "7"
    } else if d == 8 {
        "8"
    } else {
        "9"
    }
}

/// Appends `n` in decimal.
pub fn append_decimal(out: &mut String, n: u64)
    ensures
        final(out)@ == old(out)@ + decimal(n as nat),
    decreases n,
{
    if n < 10 {
        out.append(digit(n));
    } else {
        append_decimal(out, n / 10);
        out.append(digit(n % 10));
        assert(out@ =~= old(out)@ + decimal((n / 10) as nat).push(digit_char((n % 10) as nat)));
    }
}

/// Reads a number: an optional `+`, then one or more digits. Anything else,
/// or a value beyond `u64`, is no number.
pub fn parse_number(s: &str) -> (r: Option<u64>)
    ensures
        r == number(s@),
{
    let chars = characters(s);
    let start: usize = if chars.len() > 0 && chars[0] == '+' { 1 } else { 0 };
    let ghost digits = after_sign(s@);
    if start == chars.len() {
        return None;
    }
    let mut value: u64 = 0;
    let mut i: usize = start;
    while i < chars.len()
        invariant
            start <= i <= chars.len(),
            start <= 1,
            chars@ == s@,
            digits == after_sign(s@),
            digits == s@.skip(start as int),
            digits.len() > 0,
            all_digits(digits.take(i - start)),
            value == digits_value(digits.take(i - start)),
        decreases chars.len() - i,
    {
        let c = chars[i];
        assert(c == digits[i - start]);
        if c < '0' || c > '9' {
            assert(!all_digits(digits));
            return None;
        }
        let d: u64 = (c as u32 - '0' as u32) as u64;
        proof {
            let longer = digits.take(i - start + 1);
            assert(longer.drop_last() =~= digits.take(i - start));
            assert(digits_value(longer) == value * 10 + d);
            if value * 10 + d > u64::MAX && all_digits(digits) {
                lemma_value_grows(digits, i - start + 1);
            }
        }
        if value > (u64::MAX - d) / 10 {
            return None;
        }
        value = value * 10 + d;
        i = i + 1;
    }
    assert(digits.take(digits.len() as int) =~= digits);
    Some(value)
}

/// Reading on can only make the value of a string of digits larger.
proof fn lemma_value_grows(s: Seq<char>, n: int)
    requires
        all_digits(s),
        0 <= n <= s.len(),
    ensures
        digits_value(s.take(n)) <= digits_value(s),
        0 <= digits_value(s),
    decreases s.len(),
{
    if s.len() == 0 {
        assert(s.take(n) =~= s);
    } else {
        let shorter = s.drop_last();
        assert('0' <= s[s.len() - 1] <= '9');
        assert(all_digits(shorter));
        if n == s.len() {
            assert(s.take(n) =~= s);
            lemma_value_grows(shorter, 0);
        } else {
            lemma_value_grows(shorter, n);
            assert(s.take(n) =~= shorter.take(n));
        }
    }
}

/// Appends the items between square brackets.
pub fn append_bracketed(out: &mut String, items: &Vec<String>)
    ensures
        final(out)@ == old(out)@ + bracketed(texts(items@)),
{
    out.append("[");
    let ghost start = out@;
    let mut i: usize = 0;
    while i < items.len()
        invariant
            i <= items.len(),
            out@ == start + listed(texts(items@).take(i as int)),
        decreases items.len() - i,
    {
        if i > 0 {
            out.append(", ");
        }
        out.append(items[i].as_str());
        proof {
            let longer = texts(items@).take(i + 1);
            assert(longer.drop_last() =~= texts(items@).take(i as int));
            assert(longer.last() == items@[i as int]@);
            if i == 0 {
                assert(texts(items@).take(0) =~= Seq::<Seq<char>>::empty());
                assert(out@ =~= start + longer[0]);
            } else {
                assert(out@ =~= start + (listed(longer.drop_last()) + ", "@ + longer.last()));
            }
        }
        i = i + 1;
    }
    out.append("]");
    assert(texts(items@).take(items@.len() as int) =~= texts(items@));
    assert(out@ =~= old(out)@ + bracketed(texts(items@)));
}

/// The time stamp that starts every line. `elapsed` is the number of seconds
/// since the program started, with three decimals.
pub fn stamp(elapsed: Option<&str>) -> (r: String)
    ensures
        r@ == stamp_text(match elapsed {
            Some(seconds) => Some(seconds@),
            None => None,
        }),
{
    let shown: &str = match elapsed {
        Some(seconds) => seconds,
        None => "0.000",
    };
    let mut r: String = "[".to_owned();
    let mut columns: usize = characters(shown).len();
    let ghost length = columns;
    while columns < 7
        invariant
            length == shown@.len(),
            length <= columns,
            length >= 7 ==> columns == length,
            length < 7 ==> columns <= 7,
            r@ == "["@ + spaces((columns - length) as nat),
        decreases 7 - columns,
    {
        proof {
            reveal_strlit(" ");
        }
        r.append(" ");
        columns = columns + 1;
        assert(r@ =~= "["@ + spaces((columns - length) as nat));
    }
    r.append(shown);
    r.append("s]");
    assert(r@ =~= "["@ + right_aligned(shown@, 7) + "s]"@);
    r
}

/// Appends `true` or `false`.
pub fn append_bool(out: &mut String, b: bool)
    ensures
        final(out)@ == old(out)@ + bool_text(b),
{
    if b {
        out.append("true");
    } else {
        out.append("false");
    }
}

/// Reading a number back from its decimal form gives the number.
pub proof fn law_decimal_reads_back(n: u64)
    ensures
        number(decimal(n as nat)) == Some(n),
{
    lemma_decimal(n as nat);
    assert(after_sign(decimal(n as nat)) == decimal(n as nat));
}

/// Two numbers with the same decimal form are the same.
pub proof fn law_decimal_is_injective(a: nat, b: nat)
    requires
        decimal(a) == decimal(b),
    ensures
        a == b,
{
    lemma_decimal(a);
    lemma_decimal(b);
}

proof fn lemma_decimal(n: nat)
    ensures
        decimal(n).len() > 0,
        all_digits(decimal(n)),
        digits_value(decimal(n)) == n,
        decimal(n)[0] != '+',
    decreases n,
{
    if n < 10 {
        assert(decimal(n).drop_last() =~= Seq::<char>::empty());
        assert(digits_value(decimal(n).drop_last()) == 0);
    } else {
        lemma_decimal(n / 10);
        assert(decimal(n).drop_last() =~= decimal(n / 10));
    }
}

/// A decimal form has digits only, and starts with a zero only where it is a
/// single digit.
pub proof fn law_decimal_has_no_leading_zero(n: nat)
    ensures
        decimal(n).len() > 0,
        forall|i: int| 0 <= i < decimal(n).len() ==> '0' <= #[trigger] decimal(n)[i] <= '9',
        decimal(n)[0] == '0' ==> decimal(n).len() == 1,
{
    lemma_decimal(n);
    lemma_decimal_start(n);
}

proof fn lemma_decimal_start(n: nat)
    ensures
        n > 0 ==> decimal(n)[0] != '0',
        n == 0 ==> decimal(n).len() == 1,
    decreases n,
{
    if n >= 10 {
        lemma_decimal_start(n / 10);
        lemma_decimal(n / 10);
    }
}

/// One digit reads as its value.
pub proof fn law_one_digit_reads_as_its_value(c: char)
    requires
        '0' <= c <= '9',
    ensures
        number(seq![c]) == Some((c as int - '0' as int) as u64),
{
    let s = seq![c];
    assert(s.drop_last() =~= Seq::<char>::empty());
    assert(digits_value(s.drop_last()) == 0);
    assert(after_sign(s) == s);
}

/// A digit behind a string of digits multiplies its value by ten and adds
/// itself, as long as the outcome fits; past that, nothing is a number.
pub proof fn law_next_digit_counts_tenfold(s: Seq<char>, c: char)
    requires
        s.len() > 0,
        forall|i: int| 0 <= i < s.len() ==> '0' <= #[trigger] s[i] <= '9',
        '0' <= c <= '9',
    ensures
        number(s.push(c)) == match number(s) {
            Some(n) => {
                let value = 10 * n + (c as int - '0' as int);
                if value <= u64::MAX {
                    Some(value as u64)
                } else {
                    None
                }
            },
            None => None,
        },
{
    let longer = s.push(c);
    assert('0' <= s[0] <= '9');
    assert(longer[0] == s[0]);
    assert(after_sign(s) == s);
    assert(after_sign(longer) == longer);
    assert(longer.drop_last() =~= s);
    assert(all_digits(s));
    assert(all_digits(longer));
    lemma_value_grows(s, 0);
}

/// A single `+` in front of a number changes nothing; two are no number.
pub proof fn law_plus_sign_changes_nothing(s: Seq<char>)
    ensures
        s.len() == 0 || s[0] != '+' ==> number(seq!['+'] + s) == number(s),
        s.len() > 0 && s[0] == '+' ==> number(seq!['+'] + s) is None,
{
    let signed = seq!['+'] + s;
    assert(signed.skip(1) =~= s);
    assert(after_sign(signed) == s);
    if s.len() > 0 && s[0] == '+' {
        assert(!('0' <= s[0] <= '9'));
    }
}

/// Whatever reads as a number is digits, but for one `+` in front.
pub proof fn law_number_holds_digits_only(s: Seq<char>)
    requires
        number(s) is Some,
    ensures
        s.len() > 0,
        '0' <= s[0] <= '9' || (s[0] == '+' && s.len() > 1),
        forall|i: int| 0 < i < s.len() ==> '0' <= #[trigger] s[i] <= '9',
{
    let digits = after_sign(s);
    if s.len() > 0 && s[0] == '+' {
        assert forall|i: int| 0 < i < s.len() implies '0' <= #[trigger] s[i] <= '9' by {
            assert(digits[i - 1] == s[i]);
        }
    } else {
        assert(digits == s);
    }
}

/// A list without items is a pair of brackets, and one item stands alone
/// between them.
pub proof fn law_short_lists(item: Seq<char>)
    ensures
        bracketed(Seq::empty()) == seq!['[', ']'],
        bracketed(seq![item]) == seq!['['] + item + seq![']'],
{
    reveal_strlit("[");
    reveal_strlit("]");
    assert("["@ =~= seq!['[']);
    assert("]"@ =~= seq![']']);
    assert(bracketed(Seq::empty()) =~= seq!['[', ']']);
    assert(listed(seq![item]) == item);
}

/// One more item goes before the closing bracket, behind a comma and a space.
pub proof fn law_lists_grow_at_the_end(items: Seq<Seq<char>>, item: Seq<char>)
    requires
        items.len() > 0,
    ensures
        bracketed(items.push(item)) == bracketed(items).drop_last() + seq![',', ' '] + item + seq![
            ']',
        ],
{
    reveal_strlit("]");
    reveal_strlit(", ");
    assert("]"@ =~= seq![']']);
    assert(", "@ =~= seq![',', ' ']);
    assert(items.push(item).drop_last() =~= items);
    assert(bracketed(items).drop_last() =~= "["@ + listed(items));
    assert(bracketed(items.push(item)) =~= bracketed(items).drop_last() + seq![',', ' '] + item
        + seq![']']);
}

/// A stamp shows the seconds as they are, between `[` and `s]`, with spaces
/// in front up to seven columns and never more.
pub proof fn law_stamp_shows_the_seconds(seconds: Seq<char>)
    ensures
        ({
            let stamp = stamp_text(Some(seconds));
            let columns = if seconds.len() < 7 {
                7int
            } else {
                seconds.len() as int
            };
            &&& stamp.len() == columns + 3
            &&& stamp[0] == '['
            &&& stamp.subrange(stamp.len() - 2 - seconds.len(), stamp.len() - 2) == seconds
            &&& stamp[stamp.len() - 2] == 's'
            &&& stamp[stamp.len() - 1] == ']'
            &&& forall|i: int|
                1 <= i < stamp.len() - 2 - seconds.len() ==> #[trigger] stamp[i] == ' '
        }),
{
    reveal_strlit("[");
    reveal_strlit("s]");
    let stamp = stamp_text(Some(seconds));
    assert(stamp.subrange(stamp.len() - 2 - seconds.len(), stamp.len() - 2) =~= seconds);
}

/// Before the clock has started, the stamp is that of no time at all.
pub proof fn law_stamp_before_the_start_is_zero()
    ensures
        stamp_text(None) == stamp_text(Some(seq!['0', '.', '0', '0', '0'])),
{
    reveal_strlit("0.000");
    assert("0.000"@ =~= seq!['0', '.', '0', '0', '0']);
}

/// The texts of a list of strings, and their `Debug` forms, stand one for one
/// and in order.
pub proof fn law_texts_stand_one_for_one(items: Seq<String>, shown: Seq<Seq<char>>)
    ensures
        texts(items).len() == items.len(),
        forall|i: int| 0 <= i < items.len() ==> #[trigger] texts(items)[i] == items[i]@,
        debug_texts(shown).len() == shown.len(),
        forall|i: int|
            0 <= i < shown.len() ==> #[trigger] debug_texts(shown)[i] == debug_text(shown[i]),
{
}

} // verus!
