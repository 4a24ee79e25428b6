//! Stream entry ids: the position of an entry in a stream, written
//! `millis-seq`.

use crate::model::DeserError;
use vstd::prelude::*;
use vstd::string::*;

verus! {

/// The id that a stream gives to an entry: the time in milliseconds at which
/// it was added, and a sequence number among the entries of that
/// millisecond. Entries are ordered by time, then by sequence number.
#[derive(Debug, Copy, Clone, Eq, Ord, PartialEq, PartialOrd, Hash, Structural)]
pub struct XReadEntryId {
    pub millis_time: u64,
    pub seq_no: u64,
}

impl Default for XReadEntryId {
    fn default() -> (id: Self)
        ensures
            id == (XReadEntryId { millis_time: 0, seq_no: 0 }),
    {
        XReadEntryId { millis_time: 0, seq_no: 0 }
    }
}

/// `c` is one of the ten decimal digits.
pub open spec fn is_digit(c: char) -> bool {
    '0' <= c <= '9'
}

/// The character that stands for the digit `d`.
pub open spec fn digit_char(d: nat) -> char {
    seq!['0', '1', '2', '3', '4', '5', '6', '7', '8', '9'][d as int]
}

/// The number that a string of decimal digits stands for.
pub open spec fn decimal_value(s: Seq<char>) -> nat
    decreases s.len(),
{
    if s.len() == 0 {
        0
    } else {
        decimal_value(s.drop_last()) * 10 + (s.last() as nat - '0' as nat) as nat
    }
}

/// `s` holds nothing but decimal digits.
pub open spec fn all_digits(s: Seq<char>) -> bool {
    forall|i: int| 0 <= i < s.len() ==> is_digit(#[trigger] s[i])
}

/// The number that `s` stands for as an unsigned 64-bit integer: an optional
/// `+`, then at least one decimal digit and nothing else, of a value that
/// fits. `None` for every other string.
pub open spec fn parse_u64_spec(s: Seq<char>) -> Option<u64> {
    let body = if s.len() > 0 && s[0] == '+' {
        s.drop_first()
    } else {
        s
    };
    if body.len() > 0 && all_digits(body) && decimal_value(body) <= u64::MAX {
        Some(decimal_value(body) as u64)
    } else {
        None
    }
}

/// `i` is where the first hyphen of `s` stands.
pub open spec fn is_first_dash(s: Seq<char>, i: int) -> bool {
    &&& 0 <= i < s.len()
    &&& s[i] == '-'
    &&& forall|j: int| 0 <= j < i ==> s[j] != '-'
}

/// The entry id that `s` stands for: two unsigned numbers with one hyphen
/// between them. `None` for every other string.
pub open spec fn parse_entry_id(s: Seq<char>) -> Option<XReadEntryId> {
    if exists|i: int| is_first_dash(s, i) {
        let i = choose|i: int| is_first_dash(s, i);
        match (parse_u64_spec(s.subrange(0, i)), parse_u64_spec(s.subrange(i + 1, s.len() as int))) {
            (Some(millis_time), Some(seq_no)) => Some(XReadEntryId { millis_time, seq_no }),
            _ => None,
        }
    } else {
        None
    }
}

/// The decimal digits of `v`, without leading zeros.
pub open spec fn decimal_text(v: nat) -> Seq<char>
    decreases v,
{
    if v < 10 {
        seq![digit_char(v)]
    } else {
        decimal_text(v / 10).push(digit_char(v % 10))
    }
}

/// The text of an entry id: time and sequence number in decimal, joined by a
/// hyphen.
pub open spec fn entry_id_text(id: XReadEntryId) -> Seq<char> {
    decimal_text(id.millis_time as nat) + seq!['-'] + decimal_text(id.seq_no as nat)
}

/// `a` comes before `b` in a stream.
pub open spec fn before(a: XReadEntryId, b: XReadEntryId) -> bool {
    a.millis_time < b.millis_time || (a.millis_time == b.millis_time && a.seq_no < b.seq_no)
}

/// The first digits of a number stand for no more than all of them.
pub proof fn lemma_value_of_prefix(s: Seq<char>, k: int)
    requires
        0 <= k <= s.len(),
    ensures
        decimal_value(s.subrange(0, k)) <= decimal_value(s),
    decreases s.len() - k,
{
    if k < s.len() {
        lemma_value_of_prefix(s, k + 1);
        assert(s.subrange(0, k + 1).drop_last() =~= s.subrange(0, k));
    } else {
        assert(s.subrange(0, k) =~= s);
    }
}

/// The decimal digits of a number are digits, at least one, and stand for
/// that number.
pub proof fn lemma_decimal_text(v: nat)
    ensures
        decimal_text(v).len() > 0,
        all_digits(decimal_text(v)),
        decimal_value(decimal_text(v)) == v,
    decreases v,
{
    if v < 10 {
        let s = decimal_text(v);
        assert(s.drop_last() =~= Seq::<char>::empty());
        assert(decimal_value(s.drop_last()) == 0);
    } else {
        lemma_decimal_text(v / 10);
        let s = decimal_text(v);
        assert(s.drop_last() =~= decimal_text(v / 10));
    }
}

/// Reading the text of an entry id gives the entry id back.
pub proof fn lemma_text_round_trip(id: XReadEntryId)
    ensures
        parse_entry_id(entry_id_text(id)) == Some(id),
{
    let a = decimal_text(id.millis_time as nat);
    let b = decimal_text(id.seq_no as nat);
    let s = entry_id_text(id);
    lemma_decimal_text(id.millis_time as nat);
    lemma_decimal_text(id.seq_no as nat);
    let i = a.len() as int;
    assert(is_first_dash(s, i)) by {
        assert forall|j: int| 0 <= j < i implies s[j] != '-' by {
            assert(is_digit(a[j]));
        }
    }
    let k = choose|k: int| is_first_dash(s, k);
    assert(k == i);
    assert(s.subrange(0, i) =~= a);
    assert(s.subrange(i + 1, s.len() as int) =~= b);
    assert(is_digit(a[0]));
    assert(is_digit(b[0]));
}

/// The one-character string of the digit `d`.
fn digit_str(d: u8) -> (s: &'static str)
    requires
        d < 10,
    ensures
        s@ == seq![digit_char(d as nat)],
{
    proof {
        reveal_strlit("0");
        reveal_strlit("1");
        reveal_strlit("2");
        reveal_strlit("3");
        reveal_strlit("4");
        reveal_strlit("5");
        reveal_strlit("6");
        reveal_strlit("7");
        reveal_strlit("8");
        reveal_strlit("9");
    }
    let s = match d {
        0 => "0",
        1 => "1",
        2 => "2",
        3 => "3",
        4 => "4",
        5 => "5",
        6 => "6",
        7 => "7",
        8 => "8",
        _ => "9",
    };
    assert(s@ =~= seq![digit_char(d as nat)]);
    s
}

/// The decimal digits of `v`.
pub fn decimal_string(v: u64) -> (s: String)
    ensures
        s@ == decimal_text(v as nat),
    decreases v,
{
    if v < 10 {
        digit_str(v as u8).to_owned()
    } else {
        let head = decimal_string(v / 10);
        let s = head.concat(digit_str((v % 10) as u8));
        assert(s@ =~= decimal_text(v as nat));
        s
    }
}

/// Reads the characters of `text` from `from` up to `to` as an unsigned
/// 64-bit number.
pub fn parse_u64(text: &str, from: usize, to: usize) -> (r: Option<u64>)
    requires
        from <= to <= text@.len(),
    ensures
        r == parse_u64_spec(text@.subrange(from as int, to as int)),
{
    let ghost s = text@.subrange(from as int, to as int);
    let mut i: usize = from;
    if i < to && text.get_char(i) == '+' {
        i += 1;
    }
    let start: usize = i;
    let ghost body = text@.subrange(start as int, to as int);
    proof {
        if start > from {
            assert(s[0] == '+');
            assert(body =~= s.drop_first());
        } else {
            assert(body =~= s);
            if s.len() > 0 {
                assert(s[0] == text@[from as int]);
            }
        }
    }
    if start == to {
        return None;
    }
    let mut acc: u64 = 0;
    while i < to
        invariant
            from <= start <= i <= to <= text@.len(),
            s == text@.subrange(from as int, to as int),
            body == text@.subrange(start as int, to as int),
            body == if s.len() > 0 && s[0] == '+' {
                s.drop_first()
            } else {
                s
            },
            all_digits(body.subrange(0, i - start)),
            acc == decimal_value(body.subrange(0, i - start)),
        decreases to - i,
    {
        let c: char = text.get_char(i);
        let code: u32 = c as u32;
        if code < 48 || code > 57 {
            assert(!is_digit(body[i - start]));
            return None;
        }
        let d: u64 = (code - 48) as u64;
        proof {
            let next = body.subrange(0, i - start + 1);
            assert(next.drop_last() =~= body.subrange(0, i - start));
            assert(next.last() == c);
            assert(decimal_value(next) == acc * 10 + d);
            lemma_value_of_prefix(body, i - start + 1);
            assert forall|j: int| 0 <= j < next.len() implies is_digit(#[trigger] next[j]) by {
                if j < i - start {
                    assert(is_digit(body.subrange(0, i - start)[j]));
                }
            }
        }
        if acc > (u64::MAX - d) / 10 {
            return None;
        }
        acc = acc * 10 + d;
        i += 1;
    }
    assert(body.subrange(0, to - start) =~= body);
    Some(acc)
}

impl XReadEntryId {
    /// Reads an entry id from its text, see [`parse_entry_id`].
    pub fn from_str(s: &str) -> (r: Result<XReadEntryId, DeserError>)
        ensures
            match r {
                Ok(id) => parse_entry_id(s@) == Some(id),
                Err(_) => parse_entry_id(s@) is None,
            },
    {
        let n: usize = s.unicode_len();
        let mut i: usize = 0;
        while i < n
            invariant
                i <= n,
                n == s@.len(),
                forall|j: int| 0 <= j < i ==> s@[j] != '-',
            decreases n - i,
        {
            if s.get_char(i) == '-' {
                proof {
                    assert(is_first_dash(s@, i as int));
                    let k = choose|k: int| is_first_dash(s@, k);
                    assert(k == i);
                }
                let left = parse_u64(s, 0, i);
                let right = parse_u64(s, i + 1, n);
                return match (left, right) {
                    (Some(millis_time), Some(seq_no)) => Ok(XReadEntryId { millis_time, seq_no }),
                    _ => Err(DeserError),
                };
            }
            i += 1;
        }
        Err(DeserError)
    }

    /// The text of this entry id, see [`entry_id_text`].
    pub fn to_string(&self) -> (text: String)
        ensures
            text@ == entry_id_text(*self),
    {
        proof {
            reveal_strlit("-");
        }
        let text = decimal_string(self.millis_time).concat("-").concat(
            decimal_string(self.seq_no).as_str(),
        );
        assert(text@ =~= entry_id_text(*self));
        text
    }

    /// Whether this entry comes before `other` in a stream.
    pub fn precedes(&self, other: &XReadEntryId) -> (r: bool)
        ensures
            r == before(*self, *other),
    {
        self.millis_time < other.millis_time || (self.millis_time == other.millis_time
            && self.seq_no < other.seq_no)
    }
}

} // verus!
