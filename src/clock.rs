use vstd::prelude::*;
use vstd::string::*;
use crate::message::{decimal, decimal_string, digit_char};
use crate::text::push_char;

verus! {

/// A local date and time, to the second.
#[derive(Clone, Copy, Debug, PartialEq, Eq, Structural)]
pub struct LocalTime {
    pub year: i32,
    pub month: u32,
    pub day: u32,
    pub hour: u32,
    pub minute: u32,
    pub second: u32,
}

impl LocalTime {
    /// Every field within its calendar range.
    pub open spec fn valid(&self) -> bool {
        &&& 1 <= self.month <= 12
        &&& 1 <= self.day <= 31
        &&& self.hour < 24
        &&& self.minute < 60
        &&& self.second < 60
    }
}

/// `n` in two digits.
pub open spec fn two_digits(n: nat) -> Seq<char> {
    seq![digit_char(n / 10), digit_char(n % 10)]
}

/// `n` in four digits.
pub open spec fn four_digits(n: nat) -> Seq<char> {
    seq![digit_char(n / 1000), digit_char((n / 100) % 10), digit_char((n / 10) % 10), digit_char(n % 10)]
}

/// `n` in at least four digits.
pub open spec fn wide_digits(n: nat) -> Seq<char> {
    if n <= 9999 {
        four_digits(n)
    } else {
        decimal(n)
    }
}

/// The year as `%Y` writes it: four digits for years 0 to 9999, else a
/// sign and at least four digits.
pub open spec fn year_text(y: int) -> Seq<char> {
    if 0 <= y <= 9999 {
        four_digits(y as nat)
    } else if y < 0 {
        seq!['-'] + wide_digits((-y) as nat)
    } else {
        seq!['+'] + decimal(y as nat)
    }
}

/// The stamp `%Y-%m-%d_%H-%M-%S` of a time.
pub open spec fn stamp_spec(t: LocalTime) -> Seq<char> {
    year_text(t.year as int) + seq!['-'] + two_digits(t.month as nat) + seq!['-'] + two_digits(
        t.day as nat,
    ) + seq!['_'] + two_digits(t.hour as nat) + seq!['-'] + two_digits(t.minute as nat) + seq!['-']
        + two_digits(t.second as nat)
}

/// Appends the digit `d`.
fn push_digit(s: &mut String, d: u32)
    requires
        d < 10,
    ensures
        final(s)@ == old(s)@.push(digit_char(d as nat)),
{
    let digits = "0123456789";
    proof {
        reveal_strlit("0123456789");
        assert(digits@ =~= seq!['0', '1', '2', '3', '4', '5', '6', '7', '8', '9']);
    }
    push_char(s, digits.get_char(d as usize));
}

/// Appends `n` in two digits.
fn push_two(s: &mut String, n: u32)
    requires
        n < 100,
    ensures
        final(s)@ == old(s)@ + two_digits(n as nat),
{
    push_digit(s, n / 10);
    push_digit(s, n % 10);
    assert(final(s)@ =~= old(s)@ + two_digits(n as nat));
}

/// Appends `n` in four digits.
fn push_four(s: &mut String, n: u32)
    requires
        n <= 9999,
    ensures
        final(s)@ == old(s)@ + four_digits(n as nat),
{
    push_digit(s, n / 1000);
    push_digit(s, (n / 100) % 10);
    push_digit(s, (n / 10) % 10);
    push_digit(s, n % 10);
    assert(final(s)@ =~= old(s)@ + four_digits(n as nat));
}

/// The stamp `%Y-%m-%d_%H-%M-%S` of `t`, as chrono writes it.
pub fn format_stamp(t: &LocalTime) -> (r: String)
    requires
        t.valid(),
    ensures
        r@ == stamp_spec(*t),
{
    let mut s = String::new();
    if 0 <= t.year && t.year <= 9999 {
        push_four(&mut s, t.year as u32);
    } else if t.year < 0 {
        push_char(&mut s, '-');
        let a: i64 = -(t.year as i64);
        if a <= 9999 {
            push_four(&mut s, a as u32);
        } else {
            let d = decimal_string(a as usize);
            s.append(d.as_str());
        }
    } else {
        push_char(&mut s, '+');
        let d = decimal_string(t.year as usize);
        s.append(d.as_str());
    }
    assert(s@ =~= year_text(t.year as int));
    push_char(&mut s, '-');
    push_two(&mut s, t.month);
    push_char(&mut s, '-');
    push_two(&mut s, t.day);
    push_char(&mut s, '_');
    push_two(&mut s, t.hour);
    push_char(&mut s, '-');
    push_two(&mut s, t.minute);
    push_char(&mut s, '-');
    push_two(&mut s, t.second);
    assert(s@ =~= stamp_spec(*t));
    s
}

/// Whether `c` is a decimal digit.
pub open spec fn is_digit(c: char) -> bool {
    '0' <= c <= '9'
}

proof fn lemma_digit_char(d: nat)
    requires
        d < 10,
    ensures
        is_digit(digit_char(d)),
{
    let ds = seq!['0', '1', '2', '3', '4', '5', '6', '7', '8', '9'];
    assert(ds[d as int] == digit_char(d));
}

/// For years 0 to 9999 a stamp has the fixed shape `YYYY-MM-DD_HH-MM-SS`:
/// nineteen characters, `-` at 4, 7, 13 and 16, `_` at 10, digits elsewhere.
pub proof fn lemma_stamp_shape(t: LocalTime)
    requires
        t.valid(),
        0 <= t.year <= 9999,
    ensures
        stamp_spec(t).len() == 19,
        stamp_spec(t)[4] == '-' && stamp_spec(t)[7] == '-' && stamp_spec(t)[13] == '-'
            && stamp_spec(t)[16] == '-',
        stamp_spec(t)[10] == '_',
        forall|i: int|
            0 <= i < 19 && i != 4 && i != 7 && i != 10 && i != 13 && i != 16 ==> is_digit(
                #[trigger] stamp_spec(t)[i],
            ),
{
    let y = t.year as nat;
    lemma_digit_char(y / 1000);
    lemma_digit_char((y / 100) % 10);
    lemma_digit_char((y / 10) % 10);
    lemma_digit_char(y % 10);
    lemma_digit_char(t.month as nat / 10);
    lemma_digit_char(t.month as nat % 10);
    lemma_digit_char(t.day as nat / 10);
    lemma_digit_char(t.day as nat % 10);
    lemma_digit_char(t.hour as nat / 10);
    lemma_digit_char(t.hour as nat % 10);
    lemma_digit_char(t.minute as nat / 10);
    lemma_digit_char(t.minute as nat % 10);
    lemma_digit_char(t.second as nat / 10);
    lemma_digit_char(t.second as nat % 10);
    let s = stamp_spec(t);
    assert(s =~= seq![
        digit_char(y / 1000), digit_char((y / 100) % 10), digit_char((y / 10) % 10),
        digit_char(y % 10), '-', digit_char(t.month as nat / 10), digit_char(t.month as nat % 10),
        '-', digit_char(t.day as nat / 10), digit_char(t.day as nat % 10), '_',
        digit_char(t.hour as nat / 10), digit_char(t.hour as nat % 10), '-',
        digit_char(t.minute as nat / 10), digit_char(t.minute as nat % 10), '-',
        digit_char(t.second as nat / 10), digit_char(t.second as nat % 10),
    ]);
}

/// Relies on `chrono::Local::now` and chrono's `Datelike` / `Timelike`
/// accessors: the local date and time now, with the month and day counted
/// from 1, the hour from 0 to 23, and the minute and second from 0 to 59.
#[verifier::external_body]
fn local_now() -> (t: LocalTime)
    ensures
        t.valid(),
{
    let now = chrono::Local::now();
    LocalTime {
        year: chrono::Datelike::year(&now),
        month: chrono::Datelike::month(&now),
        day: chrono::Datelike::day(&now),
        hour: chrono::Timelike::hour(&now),
        minute: chrono::Timelike::minute(&now),
        second: chrono::Timelike::second(&now),
    }
}

/// The local time now, as a stamp `%Y-%m-%d_%H-%M-%S`.
pub fn time_now() -> (r: String)
    ensures
        exists|t: LocalTime| t.valid() && r@ == stamp_spec(t),
{
    let t = local_now();
    format_stamp(&t)
}

} // verus!
