//! Memory ids: base-36 renderings of strictly increasing millisecond
//! timestamps, so that no two ids handed out by one generator are equal.
use crate::text::{is_blank, is_white_space, lemma_trim_fixed, push_char, trim};
use vstd::prelude::*;
use vstd::string::*;

verus! {

/// The base-36 digit for `d` in `0..36`: `0`-`9`, then `a`-`z`.
pub open spec fn base36_digit(d: int) -> char {
    if d < 10 {
        (d + 48) as char
    } else {
        (d + 87) as char
    }
}

/// The base-36 digits of `n`, most significant first, without leading zeros
/// (`0` is the single digit `0`).
pub open spec fn base36_digits(n: nat) -> Seq<char>
    decreases n,
{
    if n < 36 {
        seq![base36_digit(n as int)]
    } else {
        base36_digits(n / 36).push(base36_digit((n % 36) as int))
    }
}

/// The base-36 rendering of a timestamp; a negative one renders as the empty
/// text.
pub open spec fn base36_text(value: int) -> Seq<char> {
    if value < 0 {
        Seq::empty()
    } else {
        base36_digits(value as nat)
    }
}

/// The digits `ds` (least significant first) rendered most significant first.
spec fn digits_reversed(ds: Seq<u8>) -> Seq<char> {
    Seq::new(ds.len(), |i: int| base36_digit(ds[ds.len() - 1 - i] as int))
}

proof fn lemma_digits_len(n: nat)
    ensures
        base36_digits(n).len() >= 1,
        n >= 36 ==> base36_digits(n).len() >= 2,
    decreases n,
{
    if n >= 36 {
        lemma_digits_len(n / 36);
    }
}

/// Different numbers have different base-36 renderings.
pub proof fn lemma_base36_injective(a: nat, b: nat)
    requires
        base36_digits(a) == base36_digits(b),
    ensures
        a == b,
    decreases a,
{
    lemma_digits_len(a);
    lemma_digits_len(b);
    if a >= 36 && b >= 36 {
        let da = base36_digits(a);
        let db = base36_digits(b);
        assert(da.last() == db.last());
        assert(da.drop_last() =~= base36_digits(a / 36));
        assert(db.drop_last() =~= base36_digits(b / 36));
        lemma_base36_injective(a / 36, b / 36);
        assert(a % 36 == b % 36);
        assert(a == b) by (nonlinear_arith)
            requires
                a / 36 == b / 36,
                a % 36 == b % 36,
        ;
    } else if a < 36 && b < 36 {
        assert(base36_digits(a)[0] == base36_digit(a as int));
        assert(base36_digits(b)[0] == base36_digit(b as int));
    } else {
        assert(base36_digits(a).len() != base36_digits(b).len());
    }
}

/// The base-36 rendering of `value` (empty for a negative value).
pub fn to_base36(value: i64) -> (s: String)
    ensures
        s@ == base36_text(value as int),
{
    let mut s = String::new();
    if value < 0 {
        return s;
    }
    let mut v: i64 = value;
    let mut digits: Vec<u8> = Vec::new();
    while v >= 36
        invariant
            0 <= v <= value,
            forall|j: int| 0 <= j < digits@.len() ==> digits@[j] < 36,
            base36_digits(value as nat) == base36_digits(v as nat) + digits_reversed(digits@),
        decreases v,
    {
        let ghost before = digits@;
        let d = (v % 36) as u8;
        digits.push(d);
        proof {
            assert(base36_digits(v as nat) == base36_digits((v / 36) as nat).push(
                base36_digit(d as int),
            ));
            assert(digits_reversed(digits@) =~= seq![base36_digit(d as int)] + digits_reversed(
                before,
            ));
            assert(base36_digits(v as nat) + digits_reversed(before) =~= base36_digits(
                (v / 36) as nat,
            ) + digits_reversed(digits@));
        }
        v = v / 36;
    }
    let lead = v as u8;
    push_char(&mut s, digit_char(lead));
    let mut i = digits.len();
    while i > 0
        invariant
            i <= digits@.len(),
            forall|j: int| 0 <= j < digits@.len() ==> digits@[j] < 36,
            v < 36,
            lead == v,
            base36_digits(value as nat) == base36_digits(v as nat) + digits_reversed(digits@),
            s@ =~= seq![base36_digit(v as int)] + digits_reversed(digits@).take(
                digits@.len() - i,
            ),
        decreases i,
    {
        i = i - 1;
        let ghost before = s@;
        push_char(&mut s, digit_char(digits[i]));
        assert(digits_reversed(digits@).take(digits@.len() - i) =~= digits_reversed(
            digits@,
        ).take(digits@.len() - i - 1).push(base36_digit(digits@[i as int] as int)));
    }
    assert(digits_reversed(digits@).take(digits@.len() as int) =~= digits_reversed(digits@));
    s
}

/// The character of the base-36 digit `d`.
fn digit_char(d: u8) -> (c: char)
    requires
        d < 36,
    ensures
        c == base36_digit(d as int),
{
    if d < 10 {
        (d + 48) as char
    } else {
        (d + 87) as char
    }
}

/// Hands out memory ids. Each id renders a timestamp in milliseconds that is
/// the current time, or one past the previous timestamp when the clock has not
/// moved on, so the timestamps strictly increase.
#[derive(Debug)]
pub struct IdGenerator {
    last_timestamp: i64,
}

impl View for IdGenerator {
    type V = int;

    /// The last timestamp handed out.
    closed spec fn view(&self) -> int {
        self.last_timestamp as int
    }
}

impl IdGenerator {
    /// A generator that has handed out nothing yet.
    pub fn new() -> (g: Self)
        ensures
            g@ == 0,
    {
        IdGenerator { last_timestamp: 0 }
    }

    /// The next id, given the current time in milliseconds since the Unix epoch.
    pub fn unique_id(&mut self, now_millis: i64) -> (id: String)
        requires
            old(self)@ < i64::MAX,
        ensures
            final(self)@ == if now_millis > old(self)@ + 1 {
                now_millis as int
            } else {
                old(self)@ + 1
            },
            id@ == base36_text(final(self)@),
    {
        let next = if now_millis > self.last_timestamp + 1 {
            now_millis
        } else {
            self.last_timestamp + 1
        };
        self.last_timestamp = next;
        to_base36(next)
    }

    /// Whether another id can be handed out (the timestamp has not reached
    /// its limit).
    pub fn has_next(&self) -> (r: bool)
        ensures
            r == (self@ < i64::MAX),
    {
        self.last_timestamp < i64::MAX
    }
}

/// Two ids handed out one after the other by a generator that started at zero
/// differ: the second renders a strictly larger positive timestamp.
pub proof fn lemma_successive_ids_differ(first: int, second: int)
    requires
        0 < first < second,
    ensures
        base36_text(first) != base36_text(second),
{
    if base36_text(first) == base36_text(second) {
        lemma_base36_injective(first as nat, second as nat);
    }
}

proof fn lemma_digits_not_white_space(n: nat)
    ensures
        forall|i: int| 0 <= i < base36_digits(n).len() ==> !is_white_space(#[trigger] base36_digits(n)[i]),
    decreases n,
{
    if n >= 36 {
        lemma_digits_not_white_space(n / 36);
        let d = base36_digits(n);
        assert forall|i: int| 0 <= i < d.len() implies !is_white_space(#[trigger] d[i]) by {
            if i < d.len() - 1 {
                assert(d[i] == base36_digits(n / 36)[i]);
            }
        }
    }
}

/// A generated id is a valid memory id: not blank, and without surrounding
/// white space.
pub proof fn law_generated_ids_are_valid(n: nat)
    ensures
        !is_blank(base36_digits(n)),
        trim(base36_digits(n)) == base36_digits(n),
{
    lemma_digits_len(n);
    lemma_digits_not_white_space(n);
    let d = base36_digits(n);
    assert(!is_white_space(d[0]) && !is_white_space(d.last()));
    lemma_trim_fixed(d);
}

} // verus!
