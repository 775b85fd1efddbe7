use vstd::prelude::*;

verus! {

/// One log entry: the sequence number it carries, together with the raw
/// serialized record (a timestamped signed event message) it was decoded
/// from. The resolution engine itself only interprets the sequence number;
/// the rest of the record is carried through for the caller.
#[derive(Debug, PartialEq, Eq)]
pub struct Entry {
    pub sn: u64,
    pub payload: Vec<u8>,
}

/// The ghost shape of an `Entry`.
pub struct EntryView {
    pub sn: u64,
    pub payload: Seq<u8>,
}

impl View for Entry {
    type V = EntryView;

    open spec fn view(&self) -> EntryView {
        EntryView { sn: self.sn, payload: self.payload@ }
    }
}

/// The sequence-number field of a byte payload that parses as a
/// timestamped signed event record: the characters of the record's `s`
/// member, or `None` where the payload is not such a record. The JSON
/// parsing is done by an outside parser, so the function is left
/// uninterpreted; it is a function of the bytes alone.
pub uninterp spec fn entry_s_field_of(bytes: Seq<u8>) -> Option<Seq<char>>;

/// The value of one hexadecimal digit.
pub open spec fn hex_digit(c: char) -> Option<u64> {
    match c {
        '0' => Some(0u64),
        '1' => Some(1u64),
        '2' => Some(2u64),
        '3' => Some(3u64),
        '4' => Some(4u64),
        '5' => Some(5u64),
        '6' => Some(6u64),
        '7' => Some(7u64),
        '8' => Some(8u64),
        '9' => Some(9u64),
        'a' => Some(10u64),
        'b' => Some(11u64),
        'c' => Some(12u64),
        'd' => Some(13u64),
        'e' => Some(14u64),
        'f' => Some(15u64),
        'A' => Some(10u64),
        'B' => Some(11u64),
        'C' => Some(12u64),
        'D' => Some(13u64),
        'E' => Some(14u64),
        'F' => Some(15u64),
        _ => None,
    }
}

/// The value of a hexadecimal numeral read left to right onto an
/// accumulator: `None` on a non-digit or a value beyond `u64`.
pub open spec fn hex_u64_rec(s: Seq<char>, acc: u64) -> Option<u64>
    decreases s.len(),
{
    if s.len() == 0 {
        Some(acc)
    } else {
        match hex_digit(s[0]) {
            Some(d) => if (acc as int) * 16 + (d as int) <= u64::MAX as int {
                hex_u64_rec(s.drop_first(), ((acc as int) * 16 + (d as int)) as u64)
            } else {
                None
            },
            None => None,
        }
    }
}

/// The value of a hexadecimal numeral: `None` on an empty string, a
/// non-digit, or a value beyond `u64`.
pub open spec fn hex_u64_of(s: Seq<char>) -> Option<u64> {
    if s.len() == 0 {
        None
    } else {
        hex_u64_rec(s, 0)
    }
}

/// The sequence number carried by a byte payload that decodes as a
/// timestamped signed event record: the record's `s` member read as a
/// hexadecimal numeral, or `None` where the payload is not such a
/// record.
pub open spec fn entry_sn_of(bytes: Seq<u8>) -> Option<u64> {
    match entry_s_field_of(bytes) {
        Some(s) => hex_u64_of(s),
        None => None,
    }
}

/// Relies on serde_json::from_slice and serde_json::Value: whether the
/// bytes parse as JSON, and what the parsed document holds, depend on
/// the bytes alone, and every call returns normally — the parser is
/// recursion-limited and the accessors are total. An entry record is a
/// JSON object with a `timestamp` string and a `signed_event_message`
/// object that carries `signatures` and an `event_message` whose `v`,
/// `t`, `d`, `i` and `s` members are strings; the result is the
/// characters of `s`.
#[verifier::external_body]
fn entry_s_field(bytes: &Vec<u8>) -> (r: Option<Vec<char>>)
    ensures
        match r {
            Some(s) => entry_s_field_of(bytes@) == Some(s@),
            None => entry_s_field_of(bytes@) is None,
        },
{
    let v: serde_json::Value = serde_json::from_slice(bytes).ok()?;
    v.get("timestamp")?.as_str()?;
    let sem = v.get("signed_event_message")?;
    sem.get("signatures")?.as_array()?;
    let em = sem.get("event_message")?;
    em.get("v")?.as_str()?;
    em.get("t")?.as_str()?;
    em.get("d")?.as_str()?;
    em.get("i")?.as_str()?;
    Some(em.get("s")?.as_str()?.chars().collect())
}

/// Reads one hexadecimal digit.
fn hex_digit_val(c: char) -> (r: Option<u64>)
    ensures
        r == hex_digit(c),
{
    match c {
        '0' => Some(0u64),
        '1' => Some(1u64),
        '2' => Some(2u64),
        '3' => Some(3u64),
        '4' => Some(4u64),
        '5' => Some(5u64),
        '6' => Some(6u64),
        '7' => Some(7u64),
        '8' => Some(8u64),
        '9' => Some(9u64),
        'a' => Some(10u64),
        'b' => Some(11u64),
        'c' => Some(12u64),
        'd' => Some(13u64),
        'e' => Some(14u64),
        'f' => Some(15u64),
        'A' => Some(10u64),
        'B' => Some(11u64),
        'C' => Some(12u64),
        'D' => Some(13u64),
        'E' => Some(14u64),
        'F' => Some(15u64),
        _ => None,
    }
}

/// Reads a hexadecimal numeral.
#[verifier::loop_isolation(false)]
fn hex_u64(s: &Vec<char>) -> (r: Option<u64>)
    ensures
        r == hex_u64_of(s@),
{
    let n = s.len();
    if n == 0 {
        return None;
    }
    let mut acc: u64 = 0;
    let mut i: usize = 0;
    assert(s@.skip(0) =~= s@);
    while i < n
        invariant
            i <= n,
            n == s@.len(),
            hex_u64_of(s@) == hex_u64_rec(s@.skip(i as int), acc),
        decreases n - i,
    {
        assert(s@.skip(i as int)[0] == s@[i as int]);
        assert(s@.skip(i as int).drop_first() =~= s@.skip(i as int + 1));
        let d = match hex_digit_val(s[i]) {
            Some(d) => d,
            None => {
                return None;
            },
        };
        let wide: u128 = (acc as u128) * 16 + (d as u128);
        if wide > u64::MAX as u128 {
            return None;
        }
        acc = wide as u64;
        i += 1;
    }
    assert(s@.skip(n as int).len() == 0);
    Some(acc)
}

/// Decodes a blob payload: the sequence number of the entry record it
/// holds, or `None` where the payload is not such a record. Total on
/// every input: a malformed payload is a miss, never a failure.
pub(crate) fn decode_entry_sn(bytes: &Vec<u8>) -> (r: Option<u64>)
    ensures
        r == entry_sn_of(bytes@),
{
    match entry_s_field(bytes) {
        Some(s) => hex_u64(&s),
        None => None,
    }
}

} // verus!
