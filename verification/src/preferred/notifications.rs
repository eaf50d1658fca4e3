//! The comma-separated payloads of the database notifications a replica
//! listens to.
use vstd::prelude::*;
use vstd::string::*;

use crate::errors::{decimal, digit_char};
use crate::ids::{parse_uuid, uuid_text_value};

verus! {

/// The characters of `s`, in order.
pub fn to_chars(s: &str) -> (r: Vec<char>)
    ensures
        r@ == s@,
{
    let n = s.unicode_len();
    let mut v: Vec<char> = Vec::new();
    let mut i: usize = 0;
    while i < n
        invariant
            n == s@.len(),
            i <= n,
            v@ == s@.take(i as int),
        decreases n - i,
    {
        v.push(s.get_char(i));
        i = i + 1;
        assert(v@ =~= s@.take(i as int));
    }
    assert(v@ =~= s@);
    v
}

/// Whether the characters `a` spell `b`.
pub fn chars_equal(a: &Vec<char>, b: &str) -> (r: bool)
    ensures
        r == (a@ == b@),
{
    let n = b.unicode_len();
    if a.len() != n {
        return false;
    }
    let mut i: usize = 0;
    while i < n
        invariant
            n == b@.len(),
            a@.len() == n,
            i <= n,
            forall|j: int| 0 <= j < i ==> a@[j] == b@[j],
        decreases n - i,
    {
        if a[i] != b.get_char(i) {
            return false;
        }
        i = i + 1;
    }
    assert(a@ =~= b@);
    true
}

/// The fields of `s` separated by commas, as `str::split(',')` yields them:
/// one more field than there are commas, empty fields included.
pub open spec fn split_fields(s: Seq<char>) -> Seq<Seq<char>>
    decreases s.len(),
{
    if s.len() == 0 {
        seq![Seq::<char>::empty()]
    } else {
        let init = split_fields(s.drop_last());
        if s.last() == ',' {
            init.push(Seq::<char>::empty())
        } else {
            init.update(init.len() - 1, init.last().push(s.last()))
        }
    }
}

/// There is always at least one field.
pub proof fn lemma_split_fields_nonempty(s: Seq<char>)
    ensures
        split_fields(s).len() >= 1,
    decreases s.len(),
{
    if s.len() > 0 {
        lemma_split_fields_nonempty(s.drop_last());
    }
}

/// The `k`-th of `ranges` lies within the first `i` characters of `s` and
/// spans the `k`-th comma-separated field of those characters.
pub open spec fn range_matches(s: Seq<char>, ranges: Seq<(usize, usize)>, i: int, k: int) -> bool {
    &&& ranges[k].0 <= ranges[k].1 <= i
    &&& s.subrange(ranges[k].0 as int, ranges[k].1 as int) == split_fields(s.take(i))[k]
}

/// The `k`-th of `ranges` spans the `k`-th comma-separated field of `s`.
pub open spec fn is_field_range(s: Seq<char>, ranges: Seq<(usize, usize)>, k: int) -> bool {
    &&& ranges[k].0 <= ranges[k].1 <= s.len()
    &&& s.subrange(ranges[k].0 as int, ranges[k].1 as int) == split_fields(s)[k]
}

/// The ranges `[start, end)` of the comma-separated fields of `s`.
pub fn field_ranges(s: &Vec<char>) -> (r: Vec<(usize, usize)>)
    ensures
        r@.len() == split_fields(s@).len(),
        forall|k: int| 0 <= k < r@.len() ==> #[trigger] is_field_range(s@, r@, k),
{
    let n = s.len();
    let mut done: Vec<(usize, usize)> = Vec::new();
    let mut start: usize = 0;
    let mut i: usize = 0;
    while i < n
        invariant
            n == s@.len(),
            start <= i <= n,
            done@.len() + 1 == split_fields(s@.take(i as int)).len(),
            forall|k: int| 0 <= k < done@.len() ==> #[trigger] range_matches(s@, done@, i as int, k),
            s@.subrange(start as int, i as int) == split_fields(s@.take(i as int)).last(),
        decreases n - i,
    {
        let ghost prev = split_fields(s@.take(i as int));
        let ghost old_done = done@;
        let ghost old_start = start;
        let ghost old_i = i;
        proof {
            lemma_split_fields_nonempty(s@.take(i as int));
            assert(s@.take(i + 1).drop_last() =~= s@.take(i as int));
            assert(s@.take(i + 1).last() == s@[i as int]);
        }
        if s[i] == ',' {
            done.push((start, i));
            start = i + 1;
            i = i + 1;
            assert(split_fields(s@.take(i as int)) == prev.push(Seq::<char>::empty()));
            assert(s@.subrange(start as int, i as int) =~= Seq::<char>::empty());
            assert forall|k: int| 0 <= k < done@.len() implies #[trigger] range_matches(s@, done@, i as int, k) by {
                if k < done@.len() - 1 {
                    assert(done@[k] == old_done[k]);
                    assert(range_matches(s@, old_done, old_i as int, k));
                } else {
                    assert(k == prev.len() - 1);
                    assert(done@[k] == (old_start, old_i));
                }
            }
        } else {
            i = i + 1;
            assert(split_fields(s@.take(i as int)) == prev.update(
                prev.len() - 1,
                prev.last().push(s@[i - 1]),
            ));
            assert(s@.subrange(start as int, i as int) =~= prev.last().push(s@[i - 1]));
            assert forall|k: int| 0 <= k < done@.len() implies #[trigger] range_matches(s@, done@, i as int, k) by {
                assert(range_matches(s@, old_done, old_i as int, k));
            }
        }
    }
    assert(s@.take(n as int) =~= s@);
    let ghost old_done = done@;
    done.push((start, n));
    assert forall|k: int| 0 <= k < done@.len() implies #[trigger] is_field_range(s@, done@, k) by {
        if k < old_done.len() {
            assert(range_matches(s@, old_done, n as int, k));
        }
    }
    done
}

/// Whether `c` is an ASCII decimal digit.
pub open spec fn is_digit(c: char) -> bool {
    '0' <= c <= '9'
}

/// The number the decimal digits `d` spell; 0 for no digits.
pub open spec fn digits_value(d: Seq<char>) -> nat
    decreases d.len(),
{
    if d.len() == 0 {
        0
    } else {
        digits_value(d.drop_last()) * 10 + ((d.last() as int - '0' as int) as nat)
    }
}

/// What `str::parse::<u64>` gives for `s`: an optional `+`, then one or more
/// decimal digits whose value fits in a `u64`; anything else is refused.
pub open spec fn parse_u64_text(s: Seq<char>) -> Option<u64> {
    if s.len() > 0 && s[0] == '+' {
        unsigned_digits(s.drop_first())
    } else {
        unsigned_digits(s)
    }
}

/// The value of one or more decimal digits `d` when it fits in a `u64`.
pub open spec fn unsigned_digits(d: Seq<char>) -> Option<u64> {
    if d.len() > 0 && (forall|i: int| 0 <= i < d.len() ==> is_digit(#[trigger] d[i]))
        && digits_value(d) <= u64::MAX {
        Some(digits_value(d) as u64)
    } else {
        None
    }
}

/// The value of a prefix of digits is at most that of the whole.
proof fn lemma_digits_value_prefix(d: Seq<char>, j: int)
    requires
        0 <= j <= d.len(),
        forall|i: int| 0 <= i < d.len() ==> is_digit(#[trigger] d[i]),
    ensures
        digits_value(d.take(j)) <= digits_value(d),
    decreases d.len(),
{
    if j < d.len() {
        assert(d.drop_last().take(j) =~= d.take(j));
        lemma_digits_value_prefix(d.drop_last(), j);
    } else {
        assert(d.take(j) =~= d);
    }
}

/// Parses the characters `s[from..to]` as `str::parse::<u64>` does.
pub fn parse_u64_chars(s: &Vec<char>, from: usize, to: usize) -> (r: Option<u64>)
    requires
        from <= to <= s@.len(),
    ensures
        r == parse_u64_text(s@.subrange(from as int, to as int)),
{
    let ghost t = s@.subrange(from as int, to as int);
    let mut i = from;
    if i < to && s[i] == '+' {
        i = i + 1;
    }
    let ghost d = s@.subrange(i as int, to as int);
    proof {
        if t.len() > 0 && t[0] == '+' {
            assert(d =~= t.drop_first());
        } else {
            assert(d =~= t);
        }
    }
    if i == to {
        return None;
    }
    let start = i;
    let mut value: u64 = 0;
    while i < to
        invariant
            start <= i <= to <= s@.len(),
            d == s@.subrange(start as int, to as int),
            parse_u64_text(s@.subrange(from as int, to as int)) == unsigned_digits(d),
            forall|k: int| 0 <= k < i - start ==> is_digit(#[trigger] d[k]),
            value == digits_value(d.take(i - start)),
        decreases to - i,
    {
        let c = s[i];
        if !('0' <= c && c <= '9') {
            assert(!is_digit(d[i - start]));
            return None;
        }
        let digit = (c as u32 - '0' as u32) as u64;
        assert(d.take(i - start + 1).drop_last() =~= d.take(i - start));
        assert(d.take(i - start + 1).last() == c);
        if value > (u64::MAX - digit) / 10 {
            proof {
                assert(digits_value(d.take(i - start + 1)) > u64::MAX);
                if forall|k: int| 0 <= k < d.len() ==> is_digit(#[trigger] d[k]) {
                    lemma_digits_value_prefix(d, i - start + 1);
                }
            }
            return None;
        }
        value = value * 10 + digit;
        i = i + 1;
    }
    assert(d.take(d.len() as int) =~= d);
    Some(value)
}

/// The kind of change a notification on the events channel announces.
#[derive(Clone, Copy, Debug, PartialEq, Eq, Structural)]
pub enum EventType {
    Transaction,
    BatchStart,
    BatchEnd,
    NewProof,
}

/// Why a notification payload was refused.
#[derive(Debug)]
pub enum PayloadParseError {
    /// The payload does not have the number of fields expected.
    FieldCount { expected: usize, got: usize },
    /// The event id field, which is not a `u64`.
    InvalidEventId(String),
    /// The sequence number field, which is not a `u64`.
    InvalidSequenceNumber(String),
    /// The event type field, which names no event type.
    InvalidEventType(String),
    /// The index in batch field, which is neither empty nor a `u64`.
    InvalidIndexInBatch(String),
    /// The node id field, which is not a UUID.
    InvalidNodeId(String),
    /// The timestamp field, which is not a floating-point number.
    InvalidTimestamp(String),
}

/// A refused payload, with the text of the offending field.
pub enum PayloadParseErrorView {
    FieldCount { expected: nat, got: nat },
    InvalidEventId(Seq<char>),
    InvalidSequenceNumber(Seq<char>),
    InvalidEventType(Seq<char>),
    InvalidIndexInBatch(Seq<char>),
    InvalidNodeId(Seq<char>),
    InvalidTimestamp(Seq<char>),
}

impl View for PayloadParseError {
    type V = PayloadParseErrorView;

    open spec fn view(&self) -> PayloadParseErrorView {
        match self {
            PayloadParseError::FieldCount { expected, got } => PayloadParseErrorView::FieldCount {
                expected: *expected as nat,
                got: *got as nat,
            },
            PayloadParseError::InvalidEventId(t) => PayloadParseErrorView::InvalidEventId(t@),
            PayloadParseError::InvalidSequenceNumber(t) => PayloadParseErrorView::InvalidSequenceNumber(t@),
            PayloadParseError::InvalidEventType(t) => PayloadParseErrorView::InvalidEventType(t@),
            PayloadParseError::InvalidIndexInBatch(t) => PayloadParseErrorView::InvalidIndexInBatch(t@),
            PayloadParseError::InvalidNodeId(t) => PayloadParseErrorView::InvalidNodeId(t@),
            PayloadParseError::InvalidTimestamp(t) => PayloadParseErrorView::InvalidTimestamp(t@),
        }
    }
}

/// The event type a field names, in snake case.
pub open spec fn event_type_of(s: Seq<char>) -> Option<EventType> {
    if s == "transaction"@ {
        Some(EventType::Transaction)
    } else if s == "batch_start"@ {
        Some(EventType::BatchStart)
    } else if s == "batch_end"@ {
        Some(EventType::BatchEnd)
    } else if s == "new_proof"@ {
        Some(EventType::NewProof)
    } else {
        None
    }
}

impl EventType {
    /// Reads an event type from its snake-case name.
    pub fn from_str(s: &str) -> (r: Result<EventType, PayloadParseError>)
        ensures
            match event_type_of(s@) {
                Some(t) => r == Ok::<EventType, PayloadParseError>(t),
                None => r matches Err(e) && e@ == PayloadParseErrorView::InvalidEventType(s@),
            },
    {
        let field = to_chars(s);
        if chars_equal(&field, "transaction") {
            Ok(EventType::Transaction)
        } else if chars_equal(&field, "batch_start") {
            Ok(EventType::BatchStart)
        } else if chars_equal(&field, "batch_end") {
            Ok(EventType::BatchEnd)
        } else if chars_equal(&field, "new_proof") {
            Ok(EventType::NewProof)
        } else {
            Err(PayloadParseError::InvalidEventType(s.to_owned()))
        }
    }
}

/// A notification of a new event in the shared database.
#[derive(Clone, Copy, Debug, PartialEq, Eq, Structural)]
pub struct EventsNotificationPayload {
    pub event_id: u64,
    pub sequence_number: u64,
    pub event_type: EventType,
    /// Only present for transaction events.
    pub index_in_batch: Option<u64>,
}

/// What an events payload `s` reads as: four comma-separated fields, the
/// event id, the sequence number, the event type and the index in the batch
/// (empty for none), each checked in that order.
pub open spec fn events_payload_of(s: Seq<char>) -> Result<EventsNotificationPayload, PayloadParseErrorView> {
    let f = split_fields(s);
    if f.len() != 4 {
        Err(PayloadParseErrorView::FieldCount { expected: 4, got: f.len() })
    } else if parse_u64_text(f[0]) is None {
        Err(PayloadParseErrorView::InvalidEventId(f[0]))
    } else if parse_u64_text(f[1]) is None {
        Err(PayloadParseErrorView::InvalidSequenceNumber(f[1]))
    } else if event_type_of(f[2]) is None {
        Err(PayloadParseErrorView::InvalidEventType(f[2]))
    } else if f[3].len() > 0 && parse_u64_text(f[3]) is None {
        Err(PayloadParseErrorView::InvalidIndexInBatch(f[3]))
    } else {
        Ok(
            EventsNotificationPayload {
                event_id: parse_u64_text(f[0])->0,
                sequence_number: parse_u64_text(f[1])->0,
                event_type: event_type_of(f[2])->0,
                index_in_batch: if f[3].len() == 0 {
                    None
                } else {
                    parse_u64_text(f[3])
                },
            },
        )
    }
}

impl EventsNotificationPayload {
    /// Reads an events notification payload.
    pub fn parse_csv(payload: &str) -> (r: Result<EventsNotificationPayload, PayloadParseError>)
        ensures
            match events_payload_of(payload@) {
                Ok(p) => r == Ok::<EventsNotificationPayload, PayloadParseError>(p),
                Err(e) => r matches Err(err) && err@ == e,
            },
    {
        let cs = to_chars(payload);
        let ranges = field_ranges(&cs);
        proof {
            let f = split_fields(payload@);
            assert forall|k: int| 0 <= k < ranges@.len() implies #[trigger] is_field_range(
                payload@,
                ranges@,
                k,
            ) by {
                assert(is_field_range(cs@, ranges@, k));
            }
        }
        if ranges.len() != 4 {
            return Err(PayloadParseError::FieldCount { expected: 4, got: ranges.len() });
        }
        assert(is_field_range(payload@, ranges@, 0));
        assert(is_field_range(payload@, ranges@, 1));
        assert(is_field_range(payload@, ranges@, 2));
        assert(is_field_range(payload@, ranges@, 3));
        let (a0, b0) = ranges[0];
        let (a1, b1) = ranges[1];
        let (a2, b2) = ranges[2];
        let (a3, b3) = ranges[3];
        let event_id = match parse_u64_chars(&cs, a0, b0) {
            Some(v) => v,
            None => {
                return Err(
                    PayloadParseError::InvalidEventId(payload.substring_char(a0, b0).to_owned()),
                )
            },
        };
        let sequence_number = match parse_u64_chars(&cs, a1, b1) {
            Some(v) => v,
            None => {
                return Err(
                    PayloadParseError::InvalidSequenceNumber(
                        payload.substring_char(a1, b1).to_owned(),
                    ),
                )
            },
        };
        let event_type = match EventType::from_str(payload.substring_char(a2, b2)) {
            Ok(t) => t,
            Err(e) => {
                return Err(e);
            },
        };
        let index_in_batch = if a3 == b3 {
            None
        } else {
            match parse_u64_chars(&cs, a3, b3) {
                Some(v) => Some(v),
                None => {
                    return Err(
                        PayloadParseError::InvalidIndexInBatch(
                            payload.substring_char(a3, b3).to_owned(),
                        ),
                    )
                },
            }
        };
        Ok(EventsNotificationPayload { event_id, sequence_number, event_type, index_in_batch })
    }
}

/// A sign.
pub open spec fn is_sign(c: char) -> bool {
    c == '+' || c == '-'
}

/// The letter of an exponent, in either case.
pub open spec fn is_exp_letter(c: char) -> bool {
    c == 'e' || c == 'E'
}

/// The text without its leading sign, if it has one.
pub open spec fn unsigned_part(s: Seq<char>) -> Seq<char> {
    if s.len() > 0 && is_sign(s[0]) {
        s.drop_first()
    } else {
        s
    }
}

/// `c` is the letter `lower` or `upper`.
pub open spec fn letter_is(c: char, lower: char, upper: char) -> bool {
    c == lower || c == upper
}

/// `inf`, `infinity` or `nan`, in any case.
pub open spec fn is_special_float(s: Seq<char>) -> bool {
    ||| s.len() == 3 && letter_is(s[0], 'i', 'I') && letter_is(s[1], 'n', 'N') && letter_is(
        s[2],
        'f',
        'F',
    )
    ||| s.len() == 8 && letter_is(s[0], 'i', 'I') && letter_is(s[1], 'n', 'N') && letter_is(
        s[2],
        'f',
        'F',
    ) && letter_is(s[3], 'i', 'I') && letter_is(s[4], 'n', 'N') && letter_is(s[5], 'i', 'I')
        && letter_is(s[6], 't', 'T') && letter_is(s[7], 'y', 'Y')
    ||| s.len() == 3 && letter_is(s[0], 'n', 'N') && letter_is(s[1], 'a', 'A') && letter_is(
        s[2],
        'n',
        'N',
    )
}

/// Digits with at most one decimal point among them, and at least one digit.
pub open spec fn is_mantissa(m: Seq<char>) -> bool {
    &&& forall|i: int| 0 <= i < m.len() ==> is_digit(#[trigger] m[i]) || m[i] == '.'
    &&& forall|i: int, j: int| 0 <= i < j < m.len() && #[trigger] m[i] == '.' ==> #[trigger] m[j] != '.'
    &&& exists|i: int| 0 <= i < m.len() && is_digit(#[trigger] m[i])
}

/// An exponent after its letter: an optional sign, then one or more digits.
pub open spec fn is_exponent(x: Seq<char>) -> bool {
    &&& unsigned_part(x).len() > 0
    &&& forall|i: int| 0 <= i < unsigned_part(x).len() ==> is_digit(#[trigger] unsigned_part(x)[i])
}

/// A number: a mantissa, optionally followed by an exponent letter and an
/// exponent.
pub open spec fn is_float_number(b: Seq<char>) -> bool {
    ||| is_mantissa(b)
    ||| exists|k: int|
        0 <= k < b.len() && is_exp_letter(#[trigger] b[k]) && is_mantissa(b.take(k)) && is_exponent(
            b.skip(k + 1),
        )
}

/// The text of a floating-point number as Rust's `f64` parser accepts it:
/// an optional sign, then `inf`, `infinity` or `nan` in any case, or digits
/// with at most one decimal point (and at least one digit), optionally
/// followed by `e` or `E`, an optional sign and one or more digits. No
/// whitespace.
pub open spec fn is_float_text(s: Seq<char>) -> bool {
    is_special_float(unsigned_part(s)) || is_float_number(unsigned_part(s))
}

/// Whether `c` is the letter `lower` or `upper`.
fn char_is(c: char, lower: char, upper: char) -> (r: bool)
    ensures
        r == letter_is(c, lower, upper),
{
    c == lower || c == upper
}

/// Whether the characters `cs[a..b]` are `inf`, `infinity` or `nan`, in any case.
fn special_float_ok(cs: &Vec<char>, a: usize, b: usize) -> (r: bool)
    requires
        a <= b <= cs@.len(),
    ensures
        r == is_special_float(cs@.subrange(a as int, b as int)),
{
    let ghost s = cs@.subrange(a as int, b as int);
    let n = b - a;
    if n == 3 {
        assert(s[0] == cs@[a as int] && s[1] == cs@[a + 1] && s[2] == cs@[a + 2]);
        (char_is(cs[a], 'i', 'I') && char_is(cs[a + 1], 'n', 'N') && char_is(cs[a + 2], 'f', 'F'))
            || (char_is(cs[a], 'n', 'N') && char_is(cs[a + 1], 'a', 'A') && char_is(
            cs[a + 2],
            'n',
            'N',
        ))
    } else if n == 8 {
        assert(s[0] == cs@[a as int] && s[1] == cs@[a + 1] && s[2] == cs@[a + 2] && s[3] == cs@[a
            + 3] && s[4] == cs@[a + 4] && s[5] == cs@[a + 5] && s[6] == cs@[a + 6] && s[7] == cs@[a
            + 7]);
        char_is(cs[a], 'i', 'I') && char_is(cs[a + 1], 'n', 'N') && char_is(cs[a + 2], 'f', 'F')
            && char_is(cs[a + 3], 'i', 'I') && char_is(cs[a + 4], 'n', 'N') && char_is(
            cs[a + 5],
            'i',
            'I',
        ) && char_is(cs[a + 6], 't', 'T') && char_is(cs[a + 7], 'y', 'Y')
    } else {
        false
    }
}

/// Whether the characters `cs[a..b]` form a mantissa.
fn mantissa_ok(cs: &Vec<char>, a: usize, b: usize) -> (r: bool)
    requires
        a <= b <= cs@.len(),
    ensures
        r == is_mantissa(cs@.subrange(a as int, b as int)),
{
    let ghost m = cs@.subrange(a as int, b as int);
    let mut i: usize = a;
    let mut seen_dot = false;
    let mut seen_digit = false;
    while i < b
        invariant
            a <= i <= b <= cs@.len(),
            m == cs@.subrange(a as int, b as int),
            forall|k: int| 0 <= k < i - a ==> is_digit(#[trigger] m[k]) || m[k] == '.',
            seen_dot <==> exists|k: int| 0 <= k < i - a && #[trigger] m[k] == '.',
            forall|k: int, j: int| 0 <= k < j < i - a && #[trigger] m[k] == '.' ==> #[trigger] m[j] != '.',
            seen_digit <==> exists|k: int| 0 <= k < i - a && is_digit(#[trigger] m[k]),
        decreases b - i,
    {
        let c = cs[i];
        assert(m[i - a] == c);
        if '0' <= c && c <= '9' {
            seen_digit = true;
        } else if c == '.' {
            if seen_dot {
                let ghost k = choose|k: int| 0 <= k < i - a && #[trigger] m[k] == '.';
                assert(m[k] == '.' && m[i - a] == '.');
                return false;
            }
            seen_dot = true;
        } else {
            assert(!(is_digit(m[i - a]) || m[i - a] == '.'));
            return false;
        }
        i = i + 1;
    }
    seen_digit
}

/// Whether the characters `cs[a..b]` form an exponent.
fn exponent_ok(cs: &Vec<char>, a: usize, b: usize) -> (r: bool)
    requires
        a <= b <= cs@.len(),
    ensures
        r == is_exponent(cs@.subrange(a as int, b as int)),
{
    let ghost x = cs@.subrange(a as int, b as int);
    let start = if a < b && (cs[a] == '+' || cs[a] == '-') {
        a + 1
    } else {
        a
    };
    assert(unsigned_part(x) =~= cs@.subrange(start as int, b as int));
    if start == b {
        return false;
    }
    let mut i: usize = start;
    while i < b
        invariant
            start <= i <= b <= cs@.len(),
            x == cs@.subrange(a as int, b as int),
            unsigned_part(x) == cs@.subrange(start as int, b as int),
            forall|k: int| start <= k < i ==> is_digit(#[trigger] cs@[k]),
        decreases b - i,
    {
        if !('0' <= cs[i] && cs[i] <= '9') {
            assert(unsigned_part(x)[i - start] == cs@[i as int]);
            assert(!is_digit(unsigned_part(x)[i - start]));
            return false;
        }
        i = i + 1;
    }
    assert forall|k: int| 0 <= k < unsigned_part(x).len() implies is_digit(
        #[trigger] unsigned_part(x)[k],
    ) by {
        assert(unsigned_part(x)[k] == cs@[start + k]);
    }
    true
}

/// Whether the characters `cs[a..b]` form a number.
fn float_number_ok(cs: &Vec<char>, a: usize, b: usize) -> (r: bool)
    requires
        a <= b <= cs@.len(),
    ensures
        r == is_float_number(cs@.subrange(a as int, b as int)),
{
    let ghost s = cs@.subrange(a as int, b as int);
    let mut k: usize = a;
    while k < b && !(cs[k] == 'e' || cs[k] == 'E')
        invariant
            a <= k <= b <= cs@.len(),
            forall|j: int| a <= j < k ==> !is_exp_letter(#[trigger] cs@[j]),
        decreases b - k,
    {
        k = k + 1;
    }
    if k == b {
        let r = mantissa_ok(cs, a, b);
        proof {
            if !r && is_float_number(s) {
                let q = choose|q: int|
                    0 <= q < s.len() && is_exp_letter(#[trigger] s[q]) && is_mantissa(s.take(q))
                        && is_exponent(s.skip(q + 1));
                assert(s[q] == cs@[a + q]);
            }
        }
        r
    } else {
        let ghost q = k - a;
        assert(s[q] == cs@[k as int]);
        assert(s.take(q) =~= cs@.subrange(a as int, k as int));
        assert(s.skip(q + 1) =~= cs@.subrange(k + 1, b as int));
        let m = mantissa_ok(cs, a, k);
        let x = exponent_ok(cs, k + 1, b);
        proof {
            if is_mantissa(s) {
                assert(!(is_digit(s[q]) || s[q] == '.'));
            }
            if !(m && x) && is_float_number(s) {
                let p = choose|p: int|
                    0 <= p < s.len() && is_exp_letter(#[trigger] s[p]) && is_mantissa(s.take(p))
                        && is_exponent(s.skip(p + 1));
                if p < q {
                    assert(s[p] == cs@[a + p]);
                } else if p > q {
                    assert(s.take(p)[q] == s[q]);
                    assert(!(is_digit(s.take(p)[q]) || s.take(p)[q] == '.'));
                }
            }
        }
        m && x
    }
}

/// Whether `s` is the text of a floating-point number as Rust's `f64`
/// parser accepts it.
pub fn float_text_ok(s: &str) -> (r: bool)
    ensures
        r == is_float_text(s@),
{
    let cs = to_chars(s);
    let n = cs.len();
    let start: usize = if n > 0 && (cs[0] == '+' || cs[0] == '-') {
        1
    } else {
        0
    };
    assert(unsigned_part(s@) =~= cs@.subrange(start as int, n as int));
    special_float_ok(&cs, start, n) || float_number_ok(&cs, start, n)
}

/// A notification that the leader table changed: who leads, and when it
/// last proved to be alive (seconds since the Unix epoch, as text).
#[derive(Debug)]
pub struct LeaderNotificationPayload {
    pub node_id: u128,
    pub last_updated_timestamp: String,
}

/// Builds a leader notification from the node id read from `node_id_text`
/// (`None` where it is no UUID) and the text of the timestamp, which must be
/// that of a floating-point number.
pub fn leader_payload_from_fields(
    node_id: Option<u128>,
    node_id_text: String,
    timestamp_text: String,
) -> (r: Result<LeaderNotificationPayload, PayloadParseError>)
    ensures
        match node_id {
            Some(id) => if is_float_text(timestamp_text@) {
                r matches Ok(p) && p.node_id == id && p.last_updated_timestamp@ == timestamp_text@
            } else {
                r matches Err(e) && e@ == PayloadParseErrorView::InvalidTimestamp(timestamp_text@)
            },
            None => r matches Err(e) && e@ == PayloadParseErrorView::InvalidNodeId(node_id_text@),
        },
{
    match node_id {
        Some(id) => {
            if float_text_ok(timestamp_text.as_str()) {
                Ok(LeaderNotificationPayload { node_id: id, last_updated_timestamp: timestamp_text })
            } else {
                Err(PayloadParseError::InvalidTimestamp(timestamp_text))
            }
        },
        None => Err(PayloadParseError::InvalidNodeId(node_id_text)),
    }
}

impl LeaderNotificationPayload {
    /// Reads a leader notification payload: two comma-separated fields, the
    /// node id and the timestamp.
    pub fn parse_csv(payload: &str) -> (r: Result<LeaderNotificationPayload, PayloadParseError>)
        ensures
            ({
                let f = split_fields(payload@);
                if f.len() != 2 {
                    r matches Err(e) && e@ == PayloadParseErrorView::FieldCount {
                        expected: 2,
                        got: f.len(),
                    }
                } else {
                    match uuid_text_value(f[0]) {
                        Some(id) => if is_float_text(f[1]) {
                            r matches Ok(p) && p.node_id == id && p.last_updated_timestamp@ == f[1]
                        } else {
                            r matches Err(e) && e@ == PayloadParseErrorView::InvalidTimestamp(f[1])
                        },
                        None => r matches Err(e) && e@ == PayloadParseErrorView::InvalidNodeId(f[0]),
                    }
                }
            }),
    {
        let cs = to_chars(payload);
        let ranges = field_ranges(&cs);
        if ranges.len() != 2 {
            return Err(PayloadParseError::FieldCount { expected: 2, got: ranges.len() });
        }
        assert(is_field_range(cs@, ranges@, 0));
        assert(is_field_range(cs@, ranges@, 1));
        let (a0, b0) = ranges[0];
        let (a1, b1) = ranges[1];
        let node_id_text = payload.substring_char(a0, b0);
        let node_id = parse_uuid(node_id_text);
        leader_payload_from_fields(
            node_id,
            node_id_text.to_owned(),
            payload.substring_char(a1, b1).to_owned(),
        )
    }
}

/// The character of a digit is a digit, of the right value.
proof fn lemma_digit_char(d: nat)
    requires
        d < 10,
    ensures
        is_digit(digit_char(d)),
        digit_char(d) as int - '0' as int == d,
{
}

/// The decimal text of a number is one or more digits that spell it.
pub proof fn lemma_decimal_digits(n: nat)
    ensures
        decimal(n).len() > 0,
        forall|i: int| 0 <= i < decimal(n).len() ==> is_digit(#[trigger] decimal(n)[i]),
        digits_value(decimal(n)) == n,
    decreases n,
{
    if n < 10 {
        lemma_digit_char(n);
        assert(decimal(n) == seq![digit_char(n)]);
        assert(decimal(n).drop_last() =~= Seq::<char>::empty());
        assert(decimal(n).last() == digit_char(n));
        assert(digits_value(decimal(n)) == digits_value(decimal(n).drop_last()) * 10 + ((
        decimal(n).last() as int - '0' as int) as nat));
    } else {
        lemma_decimal_digits(n / 10);
        lemma_digit_char(n % 10);
        let d = decimal(n);
        assert(d == decimal(n / 10).push(digit_char(n % 10)));
        assert(d.drop_last() =~= decimal(n / 10));
        assert forall|i: int| 0 <= i < d.len() implies is_digit(#[trigger] d[i]) by {
            if i < d.len() - 1 {
                assert(d[i] == decimal(n / 10)[i]);
            }
        }
        assert(d.last() == digit_char(n % 10));
        assert(digits_value(d) == digits_value(d.drop_last()) * 10 + ((d.last() as int - '0' as int) as nat));
        assert(digits_value(d.drop_last()) == n / 10);
        assert((n / 10) * 10 + n % 10 == n) by (nonlinear_arith);
    }
}

/// A `u64` printed in decimal reads back as itself.
pub proof fn lemma_parse_u64_of_decimal(n: u64)
    ensures
        parse_u64_text(decimal(n as nat)) == Some(n),
{
    lemma_decimal_digits(n as nat);
    assert(is_digit(decimal(n as nat)[0]));
}

/// No digit is a comma.
proof fn lemma_decimal_has_no_comma(n: nat)
    ensures
        forall|i: int| 0 <= i < decimal(n).len() ==> #[trigger] decimal(n)[i] != ',',
{
    lemma_decimal_digits(n);
    assert forall|i: int| 0 <= i < decimal(n).len() implies #[trigger] decimal(n)[i] != ',' by {
        assert(is_digit(decimal(n)[i]));
    }
}

/// Text without commas is a single field.
pub proof fn lemma_split_without_comma(y: Seq<char>)
    requires
        forall|i: int| 0 <= i < y.len() ==> y[i] != ',',
    ensures
        split_fields(y) == seq![y],
    decreases y.len(),
{
    if y.len() > 0 {
        lemma_split_without_comma(y.drop_last());
        assert(y.drop_last().push(y.last()) =~= y);
        assert(y.last() != ',');
        assert(seq![y.drop_last()].update(0, y.drop_last().push(y.last())) =~= seq![y]);
    } else {
        assert(y =~= Seq::<char>::empty());
    }
}

/// The fields of `x`, a comma, then `y` are those of `x` followed by those
/// of `y`.
pub proof fn lemma_split_concat(x: Seq<char>, y: Seq<char>)
    ensures
        split_fields(x.push(',') + y) == split_fields(x) + split_fields(y),
    decreases y.len(),
{
    lemma_split_fields_nonempty(x);
    if y.len() == 0 {
        assert(x.push(',') + y =~= x.push(','));
        assert(x.push(',').drop_last() =~= x);
        assert(split_fields(x) + split_fields(y) =~= split_fields(x).push(Seq::<char>::empty()));
    } else {
        let y0 = y.drop_last();
        let c = y.last();
        lemma_split_concat(x, y0);
        lemma_split_fields_nonempty(y0);
        let whole = x.push(',') + y;
        assert(whole.drop_last() =~= x.push(',') + y0);
        assert(whole.last() == c);
        let a = split_fields(x);
        let b0 = split_fields(y0);
        if c == ',' {
            assert((a + b0).push(Seq::<char>::empty()) =~= a + b0.push(Seq::<char>::empty()));
        } else {
            assert((a + b0).update((a + b0).len() - 1, (a + b0).last().push(c)) =~= a + b0.update(
                b0.len() - 1,
                b0.last().push(c),
            ));
        }
    }
}

/// The snake-case name of an event type.
pub open spec fn event_type_name(t: EventType) -> Seq<char> {
    match t {
        EventType::Transaction => "transaction"@,
        EventType::BatchStart => "batch_start"@,
        EventType::BatchEnd => "batch_end"@,
        EventType::NewProof => "new_proof"@,
    }
}

/// The text of an events notification: the event id, the sequence number,
/// the event type and the index in the batch (empty for none), in decimal,
/// separated by commas.
pub open spec fn events_payload_text(p: EventsNotificationPayload) -> Seq<char> {
    ((decimal(p.event_id as nat).push(',') + decimal(p.sequence_number as nat)).push(',')
        + event_type_name(p.event_type)).push(',') + match p.index_in_batch {
        Some(i) => decimal(i as nat),
        None => Seq::empty(),
    }
}

/// Each event type's name reads back as that type, and holds no comma.
pub proof fn lemma_event_type_name(t: EventType)
    ensures
        event_type_of(event_type_name(t)) == Some(t),
        forall|i: int| 0 <= i < event_type_name(t).len() ==> #[trigger] event_type_name(t)[i] != ',',
{
    reveal_strlit("transaction");
    reveal_strlit("batch_start");
    reveal_strlit("batch_end");
    reveal_strlit("new_proof");
    assert("transaction"@ != "batch_start"@) by {
        assert("transaction"@[0] != "batch_start"@[0]);
    }
    assert("transaction"@ != "batch_end"@) by {
        assert("transaction"@.len() != "batch_end"@.len());
    }
    assert("transaction"@ != "new_proof"@) by {
        assert("transaction"@.len() != "new_proof"@.len());
    }
    assert("batch_start"@ != "batch_end"@) by {
        assert("batch_start"@.len() != "batch_end"@.len());
    }
    assert("batch_end"@ != "new_proof"@) by {
        assert("batch_end"@[0] != "new_proof"@[0]);
    }
    assert("batch_start"@ != "new_proof"@) by {
        assert("batch_start"@.len() != "new_proof"@.len());
    }
}

/// An events notification written out as text reads back as itself.
pub proof fn lemma_events_payload_round_trip(p: EventsNotificationPayload)
    ensures
        events_payload_of(events_payload_text(p)) == Ok::<
            EventsNotificationPayload,
            PayloadParseErrorView,
        >(p),
{
    let a = decimal(p.event_id as nat);
    let b = decimal(p.sequence_number as nat);
    let c = event_type_name(p.event_type);
    let d = match p.index_in_batch {
        Some(i) => decimal(i as nat),
        None => Seq::<char>::empty(),
    };
    lemma_decimal_has_no_comma(p.event_id as nat);
    lemma_decimal_has_no_comma(p.sequence_number as nat);
    lemma_event_type_name(p.event_type);
    match p.index_in_batch {
        Some(i) => {
            lemma_decimal_has_no_comma(i as nat);
            lemma_parse_u64_of_decimal(i);
            lemma_decimal_digits(i as nat);
        },
        None => {},
    }
    lemma_split_without_comma(a);
    lemma_split_without_comma(b);
    lemma_split_without_comma(c);
    lemma_split_without_comma(d);
    lemma_split_concat(a, b);
    lemma_split_concat(a.push(',') + b, c);
    lemma_split_concat((a.push(',') + b).push(',') + c, d);
    let f = split_fields(events_payload_text(p));
    assert(f =~= seq![a, b, c, d]);
    lemma_parse_u64_of_decimal(p.event_id);
    lemma_parse_u64_of_decimal(p.sequence_number);
}

} // verus!
