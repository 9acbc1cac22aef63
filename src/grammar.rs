//! The character classes and scanning primitives of the spot-line grammar.

use vstd::prelude::*;

verus! {

/// The character classes that the grammar's fields are made of.
#[derive(Clone, Copy, PartialEq, Eq, Structural)]
pub enum Class {
    /// Callsign characters: `A-Z`, `0-9`, `\`, `/`, `-`.
    Call,
    /// Whitespace: space, tab, line feed, vertical tab, form feed, carriage return.
    Space,
    /// Frequency characters: `0-9` and `.`.
    Freq,
    /// Mode characters: `A-Z`, `0-9`.
    Mode,
    /// Signal-to-noise characters: `0-9` and `-`.
    Snr,
    /// Decimal digits.
    Digit,
    /// Letters of a speed unit: `W`, `P`, `M`, `B`, `S`.
    Unit,
    /// Message characters: `A-Z`, `a-z`, `0-9` and space.
    Message,
}

pub open spec fn is_digit(c: u8) -> bool {
    48 <= c <= 57
}

pub open spec fn is_upper(c: u8) -> bool {
    65 <= c <= 90
}

pub open spec fn is_lower(c: u8) -> bool {
    97 <= c <= 122
}

pub open spec fn is_space(c: u8) -> bool {
    c == 32 || (9 <= c <= 13)
}

pub open spec fn in_class(k: Class, c: u8) -> bool {
    match k {
        Class::Call => is_upper(c) || is_digit(c) || c == 92 || c == 47 || c == 45,
        Class::Space => is_space(c),
        Class::Freq => is_digit(c) || c == 46,
        Class::Mode => is_upper(c) || is_digit(c),
        Class::Snr => is_digit(c) || c == 45,
        Class::Digit => is_digit(c),
        Class::Unit => c == 87 || c == 80 || c == 77 || c == 66 || c == 83,
        Class::Message => is_upper(c) || is_lower(c) || is_digit(c) || c == 32,
    }
}

/// Every class holds ASCII characters only.
pub proof fn lemma_class_ascii(k: Class, c: u8)
    requires
        in_class(k, c),
    ensures
        c < 128,
{
}

pub fn class_has(k: Class, c: u8) -> (r: bool)
    ensures
        r == in_class(k, c),
{
    let digit = 48 <= c && c <= 57;
    let upper = 65 <= c && c <= 90;
    match k {
        Class::Call => upper || digit || c == 92 || c == 47 || c == 45,
        Class::Space => c == 32 || (9 <= c && c <= 13),
        Class::Freq => digit || c == 46,
        Class::Mode => upper || digit,
        Class::Snr => digit || c == 45,
        Class::Digit => digit,
        Class::Unit => c == 87 || c == 80 || c == 77 || c == 66 || c == 83,
        Class::Message => upper || (97 <= c && c <= 122) || digit || c == 32,
    }
}

/// The end of the longest run of characters of class `k` that starts at `i`.
pub open spec fn run_end(s: Seq<u8>, i: int, k: Class) -> int
    decreases s.len() - i,
{
    if 0 <= i < s.len() && in_class(k, s[i]) {
        run_end(s, i + 1, k)
    } else {
        i
    }
}

pub proof fn lemma_run_end(s: Seq<u8>, i: int, k: Class)
    requires
        0 <= i <= s.len(),
    ensures
        i <= run_end(s, i, k) <= s.len(),
        forall|j: int| i <= j < run_end(s, i, k) ==> in_class(k, #[trigger] s[j]),
        run_end(s, i, k) < s.len() ==> !in_class(k, s[run_end(s, i, k)]),
    decreases s.len() - i,
{
    if i < s.len() && in_class(k, s[i]) {
        lemma_run_end(s, i + 1, k);
    }
}

/// Finds the end of the run of class `k` that starts at `i`.
pub fn scan(s: &[u8], i: usize, k: Class) -> (r: usize)
    requires
        i <= s@.len(),
    ensures
        r == run_end(s@, i as int, k),
{
    let mut j: usize = i;
    while j < s.len() && class_has(k, s[j])
        invariant
            i <= j <= s@.len(),
            run_end(s@, j as int, k) == run_end(s@, i as int, k),
        decreases s@.len() - j,
    {
        j = j + 1;
    }
    j
}

/// The value of a text of digits and dots, read in base ten with the dots
/// skipped.
pub open spec fn digits_value(t: Seq<u8>) -> nat
    decreases t.len(),
{
    if t.len() == 0 {
        0
    } else if t.last() == 46 {
        digits_value(t.drop_last())
    } else {
        digits_value(t.drop_last()) * 10 + (t.last() - 48) as nat
    }
}

/// The number of dots in a text.
pub open spec fn dot_count(t: Seq<u8>) -> nat
    decreases t.len(),
{
    if t.len() == 0 {
        0
    } else if t.last() == 46 {
        dot_count(t.drop_last()) + 1
    } else {
        dot_count(t.drop_last())
    }
}

/// The number of characters after the last dot of a text.
pub open spec fn after_dot(t: Seq<u8>) -> nat
    decreases t.len(),
{
    if t.len() == 0 || t.last() == 46 {
        0
    } else {
        after_dot(t.drop_last()) + 1
    }
}

pub proof fn lemma_digits_value_grows(t: Seq<u8>, i: int, j: int)
    requires
        0 <= i <= j <= t.len(),
        forall|x: int| 0 <= x < t.len() ==> #[trigger] in_class(Class::Freq, t[x]),
    ensures
        digits_value(t.subrange(0, i)) <= digits_value(t.subrange(0, j)),
    decreases j - i,
{
    if i < j {
        lemma_digits_value_grows(t, i, j - 1);
        let p = t.subrange(0, j);
        assert(p.drop_last() =~= t.subrange(0, j - 1));
        assert(in_class(Class::Freq, t[j - 1]));
    }
}

/// Reads `s[from..to]`, made of digits and dots, as a base-ten number with the
/// dots skipped; `None` where that number exceeds `bound`.
pub fn read_digits(s: &[u8], from: usize, to: usize, bound: u64) -> (r: Option<u64>)
    requires
        from <= to <= s@.len(),
        forall|x: int| from <= x < to ==> #[trigger] in_class(Class::Freq, s@[x]),
    ensures
        ({
            let v = digits_value(s@.subrange(from as int, to as int));
            r == if v <= bound { Some(v as u64) } else { None::<u64> }
        }),
{
    let ghost t = s@.subrange(from as int, to as int);
    let mut acc: u64 = 0;
    let mut i: usize = from;
    assert(t.subrange(0, 0) =~= Seq::<u8>::empty());
    while i < to
        invariant
            from <= i <= to <= s@.len(),
            t == s@.subrange(from as int, to as int),
            forall|x: int| from <= x < to ==> #[trigger] in_class(Class::Freq, s@[x]),
            acc == digits_value(t.subrange(0, i - from)),
            acc <= bound,
        decreases to - i,
    {
        let c = s[i];
        let ghost p = t.subrange(0, i - from + 1);
        assert(p.drop_last() =~= t.subrange(0, i - from));
        assert(p.last() == c);
        assert(in_class(Class::Freq, s@[i as int]));
        if c != 46 {
            let d = (c - 48) as u64;
            if d > bound || acc > (bound - d) / 10 {
                assert(acc * 10 + d > bound) by (nonlinear_arith)
                    requires
                        d > bound || acc > (bound - d) / 10,
                        d <= bound ==> (bound - d) / 10 * 10 + 10 > bound - d,
                ;
                proof {
                    assert forall|x: int| 0 <= x < t.len() implies #[trigger] in_class(
                        Class::Freq,
                        t[x],
                    ) by {
                        assert(t[x] == s@[from + x]);
                    }
                    lemma_digits_value_grows(t, i - from + 1, t.len() as int);
                    assert(t.subrange(0, t.len() as int) =~= t);
                }
                return None;
            }
            acc = acc * 10 + d;
        }
        i = i + 1;
    }
    assert(t.subrange(0, to - from) =~= t);
    Some(acc)
}

} // verus!
