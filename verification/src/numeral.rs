//! Fractional readings, carried as the text that stands for them on the wire.
//!
//! A load average or a processor share is a fraction. The wire wants it as a
//! JSON number, and this library does no arithmetic on it, so it travels as
//! its numeral: the caller renders the value, [`Numeral::parse`] admits the
//! text only if it is a number in JSON's grammar, and the encoder copies it
//! into the line unchanged.
use vstd::prelude::*;

verus! {

pub const MINUS: u8 = 0x2d;

pub const PLUS: u8 = 0x2b;

pub const POINT: u8 = 0x2e;

pub const ZERO: u8 = 0x30;

pub const NINE: u8 = 0x39;

pub const UPPER_E: u8 = 0x45;

pub const LOWER_E: u8 = 0x65;

pub open spec fn is_digit(b: u8) -> bool {
    ZERO <= b <= NINE
}

pub open spec fn is_sign(b: u8) -> bool {
    b == MINUS || b == PLUS
}

pub open spec fn is_exponent_mark(b: u8) -> bool {
    b == UPPER_E || b == LOWER_E
}

pub open spec fn all_digits(s: Seq<u8>) -> bool {
    forall|i: int| 0 <= i < s.len() ==> is_digit(#[trigger] s[i])
}

/// The integer part: one or more digits, with a leading zero only when the
/// zero stands alone.
pub open spec fn is_whole(s: Seq<u8>) -> bool {
    &&& s.len() >= 1
    &&& all_digits(s)
    &&& s[0] == ZERO ==> s.len() == 1
}

/// The fraction: a point and one or more digits.
pub open spec fn is_fraction(s: Seq<u8>) -> bool {
    &&& s.len() >= 2
    &&& s[0] == POINT
    &&& all_digits(s.skip(1))
}

/// The exponent: `e` or `E`, an optional sign, and one or more digits.
pub open spec fn is_exponent(s: Seq<u8>) -> bool {
    &&& s.len() >= 2
    &&& is_exponent_mark(s[0])
    &&& if is_sign(s[1]) {
        s.len() >= 3 && all_digits(s.skip(2))
    } else {
        all_digits(s.skip(1))
    }
}

/// `s` from `start` on is an integer part that ends at `a`, then an optional
/// fraction that ends at `b`, then an optional exponent that ends `s`.
pub open spec fn splits_as_number(s: Seq<u8>, start: int, a: int, b: int) -> bool {
    &&& 0 <= start < a <= b <= s.len()
    &&& is_whole(s.subrange(start, a))
    &&& a == b || is_fraction(s.subrange(a, b))
    &&& b == s.len() || is_exponent(s.subrange(b, s.len() as int))
}

/// Where the number proper begins: after the minus sign, if there is one.
pub open spec fn number_start(s: Seq<u8>) -> int {
    if s.len() > 0 && s[0] == MINUS {
        1
    } else {
        0
    }
}

/// `s` is a number as JSON writes one: an optional minus sign, an integer
/// part, an optional fraction, an optional exponent, and nothing else.
pub open spec fn is_numeral(s: Seq<u8>) -> bool {
    exists|a: int, b: int| splits_as_number(s, number_start(s), a, b)
}

/// The end of the run of digits that begins at `from`.
pub closed spec fn run_end(s: Seq<u8>, from: int) -> int
    decreases s.len() - from,
{
    if 0 <= from < s.len() && is_digit(s[from]) {
        run_end(s, from + 1)
    } else {
        from
    }
}

proof fn lemma_run_end(s: Seq<u8>, from: int, end: int)
    requires
        0 <= from <= end <= s.len(),
        forall|i: int| from <= i < end ==> is_digit(#[trigger] s[i]),
        end == s.len() || !is_digit(s[end]),
    ensures
        run_end(s, from) == end,
    decreases end - from,
{
    if from < end {
        assert(is_digit(s[from]));
        lemma_run_end(s, from + 1, end);
    }
}

/// Where the exponent's digits begin, for an exponent that begins at `b`.
spec fn exponent_digits(s: Seq<u8>, b: int) -> int {
    if b + 1 < s.len() && is_sign(s[b + 1]) {
        b + 2
    } else {
        b + 1
    }
}

/// Where the fraction ends, for an integer part that ends at `a`.
spec fn fraction_end(s: Seq<u8>, a: int) -> int {
    if a < s.len() && s[a] == POINT {
        run_end(s, a + 1)
    } else {
        a
    }
}

/// What each byte of a number is, part by part.
proof fn lemma_split_bytes(s: Seq<u8>, start: int, a: int, b: int)
    requires
        splits_as_number(s, start, a, b),
    ensures
        forall|i: int| start <= i < a ==> is_digit(#[trigger] s[i]),
        a < b ==> s[a] == POINT,
        forall|i: int| a < i < b ==> is_digit(#[trigger] s[i]),
        b < s.len() ==> is_exponent_mark(s[b]) && exponent_digits(s, b) < s.len(),
        forall|i: int| b < s.len() && exponent_digits(s, b) <= i < s.len() ==> is_digit(
            #[trigger] s[i],
        ),
{
    let whole = s.subrange(start, a);
    let fraction = s.subrange(a, b);
    let exponent = s.subrange(b, s.len() as int);
    assert forall|i: int| start <= i < a implies is_digit(#[trigger] s[i]) by {
        assert(s[i] == whole[i - start]);
    }
    if a < b {
        assert(s[a] == fraction[0]);
        assert forall|i: int| a < i < b implies is_digit(#[trigger] s[i]) by {
            assert(s[i] == fraction.skip(1)[i - a - 1]);
        }
    }
    if b < s.len() {
        assert(s[b] == exponent[0]);
        assert(s[b + 1] == exponent[1]);
        let d = exponent_digits(s, b);
        assert forall|i: int| d <= i < s.len() implies is_digit(#[trigger] s[i]) by {
            if is_sign(s[b + 1]) {
                assert(s[i] == exponent.skip(2)[i - b - 2]);
            } else {
                assert(s[i] == exponent.skip(1)[i - b - 1]);
            }
        }
    }
}

/// A number splits in one way only: each part ends where its digits end.
proof fn lemma_split_unique(s: Seq<u8>, start: int, a: int, b: int)
    requires
        splits_as_number(s, start, a, b),
    ensures
        a == run_end(s, start),
        b == fraction_end(s, a),
        b < s.len() ==> is_exponent_mark(s[b]) && exponent_digits(s, b) < s.len() && run_end(
            s,
            exponent_digits(s, b),
        ) == s.len(),
{
    lemma_split_bytes(s, start, a, b);
    lemma_run_end(s, start, a);
    if a < b {
        lemma_run_end(s, a + 1, b);
    }
    if b < s.len() {
        lemma_run_end(s, exponent_digits(s, b), s.len() as int);
    }
}

/// A byte that can stand in a number.
pub open spec fn is_numeral_byte(b: u8) -> bool {
    is_digit(b) || is_sign(b) || b == POINT || is_exponent_mark(b)
}

/// A number holds digits, signs, a point and an exponent mark, and no other
/// byte.
pub proof fn lemma_numeral_bytes(s: Seq<u8>)
    requires
        is_numeral(s),
    ensures
        forall|i: int| 0 <= i < s.len() ==> is_numeral_byte(#[trigger] s[i]),
{
    let start = number_start(s);
    let (a, b) = choose|a: int, b: int| splits_as_number(s, start, a, b);
    lemma_split_bytes(s, start, a, b);
    assert forall|i: int| 0 <= i < s.len() implies is_numeral_byte(#[trigger] s[i]) by {
        if b < s.len() && b < i < exponent_digits(s, b) {
            assert(i == b + 1);
        }
    }
}

/// Scans the digits that begin at `from`.
fn scan_digits(text: &[u8], from: usize) -> (end: usize)
    requires
        from <= text.len(),
    ensures
        from <= end <= text.len(),
        end == run_end(text@, from as int),
        forall|i: int| from <= i < end ==> is_digit(#[trigger] text@[i]),
        end < text.len() ==> !is_digit(text@[end as int]),
{
    let mut end: usize = from;
    while end < text.len() && ZERO <= text[end] && text[end] <= NINE
        invariant
            from <= end <= text.len(),
            forall|i: int| from <= i < end ==> is_digit(#[trigger] text@[i]),
        decreases text.len() - end,
    {
        end += 1;
    }
    proof {
        lemma_run_end(text@, from as int, end as int);
    }
    end
}

/// A number in JSON's grammar, held as its text.
#[derive(Debug, PartialEq, Eq)]
pub struct Numeral {
    text: Vec<u8>,
}

impl View for Numeral {
    type V = Seq<u8>;

    closed spec fn view(&self) -> Seq<u8> {
        self.text@
    }
}

impl Numeral {
    #[verifier::type_invariant]
    spec fn well_formed(self) -> bool {
        is_numeral(self.text@)
    }

    /// Admits `text` if and only if it is a number in JSON's grammar, and
    /// keeps it byte for byte.
    pub fn parse(text: &[u8]) -> (parsed: Option<Numeral>)
        ensures
            parsed is Some <==> is_numeral(text@),
            parsed matches Some(numeral) ==> numeral@ == text@,
    {
        let size: usize = text.len();
        let start: usize = if size > 0 && text[0] == MINUS {
            1
        } else {
            0
        };
        let a: usize = scan_digits(text, start);
        let mut b: usize = a;
        if a < size && text[a] == POINT {
            b = scan_digits(text, a + 1);
        }
        let mut digits: usize = b;
        let mut end: usize = b;
        if b < size && (text[b] == UPPER_E || text[b] == LOWER_E) {
            digits = if b + 1 < size && (text[b + 1] == MINUS || text[b + 1] == PLUS) {
                b + 2
            } else {
                b + 1
            };
            end = scan_digits(text, digits);
        }
        let whole_ok: bool = a > start && (text[start] != ZERO || a == start + 1);
        let fraction_ok: bool = b == a || b > a + 1;
        let exponent_ok: bool = end == size && (b == size || end > digits);
        proof {
            let s = text@;
            assert(start == number_start(s));
            assert(b == fraction_end(s, a as int));
            if whole_ok && fraction_ok && exponent_ok {
                assert(s.subrange(start as int, a as int)[0] == s[start as int]);
                assert(is_whole(s.subrange(start as int, a as int)));
                if a < b {
                    assert(s.subrange(a as int, b as int)[0] == s[a as int]);
                    assert(is_fraction(s.subrange(a as int, b as int)));
                }
                if b < size {
                    let exponent = s.subrange(b as int, size as int);
                    assert(exponent[0] == s[b as int]);
                    assert(exponent[1] == s[b + 1]);
                    assert(digits == exponent_digits(s, b as int));
                    assert(is_exponent(exponent));
                }
                assert(splits_as_number(s, start as int, a as int, b as int));
            } else if is_numeral(s) {
                let (x, y) = choose|x: int, y: int| splits_as_number(s, start as int, x, y);
                lemma_split_unique(s, start as int, x, y);
                assert(x == a && y == b);
                assert(s.subrange(start as int, a as int)[0] == s[start as int]);
                if a < b {
                    assert(s.subrange(a as int, b as int).len() >= 2);
                }
                if b < size {
                    assert(digits == exponent_digits(s, b as int));
                }
                assert(false);
            }
        }
        if whole_ok && fraction_ok && exponent_ok {
            let mut copy: Vec<u8> = Vec::new();
            copy.extend_from_slice(text);
            assert(copy@ =~= text@);
            Some(Numeral { text: copy })
        } else {
            None
        }
    }

    /// The numeral's text, which is a number in JSON's grammar.
    pub fn as_bytes(&self) -> (text: &[u8])
        ensures
            text@ == self@,
            is_numeral(text@),
    {
        proof {
            use_type_invariant(self);
        }
        self.text.as_slice()
    }
}

} // verus!
