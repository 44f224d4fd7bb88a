//! The device's line protocol: `SENSOR:` followed by nine comma-separated
//! fields (four primary channels, three auxiliary channels, a state code and
//! a level).

use vstd::prelude::*;
use crate::text::{has_at, occurs_at, split_commas, split_fields, starts_with, trim, trimmed, views};

verus! {

/// The number of fields a sensor line must carry.
pub const FIELD_COUNT: usize = 9;

/// The number of entries in the state table.
pub const STATE_COUNT: i32 = 7;

/// The tag that opens every data line.
pub open spec fn sensor_tag() -> Seq<char> {
    "SENSOR:"@
}

/// The names of the device's operating states, indexed by state code.
pub open spec fn state_table() -> Seq<Seq<char>> {
    seq!["IDLE"@, "PRE-COND"@, "RAMP_UP"@, "HOLD"@, "PURGE"@, "RECOVERY"@, "DONE"@]
}

/// The label of a state code: its table entry, or `UNKNOWN` out of range.
pub open spec fn state_label(code: int) -> Seq<char> {
    if 0 <= code < state_table().len() {
        state_table()[code]
    } else {
        "UNKNOWN"@
    }
}

/// The label for a state code.
pub fn state_name(code: i32) -> (r: String)
    ensures
        r@ == state_label(code as int),
{
    let s = if code == 0 {
        "IDLE"
    } else if code == 1 {
        "PRE-COND"
    } else if code == 2 {
        "RAMP_UP"
    } else if code == 3 {
        "HOLD"
    } else if code == 4 {
        "PURGE"
    } else if code == 5 {
        "RECOVERY"
    } else if code == 6 {
        "DONE"
    } else {
        "UNKNOWN"
    };
    String::from_str(s)
}

/// The value of a string of decimal digits.
pub open spec fn digits_value(s: Seq<char>) -> int
    decreases s.len(),
{
    if s.len() == 0 {
        0
    } else {
        digits_value(s.drop_last()) * 10 + (s.last() as int - '0' as int)
    }
}

/// Every character of `s` is an ASCII digit.
pub open spec fn all_digits(s: Seq<char>) -> bool {
    forall|i: int| 0 <= i < s.len() ==> '0' <= #[trigger] s[i] <= '9'
}

/// The integer that `s` writes as an optional sign and one or more digits.
pub open spec fn int_literal(s: Seq<char>) -> Option<int> {
    if s.len() > 0 && (s[0] == '+' || s[0] == '-') {
        let d = s.drop_first();
        if d.len() > 0 && all_digits(d) {
            Some(if s[0] == '-' { -digits_value(d) } else { digits_value(d) })
        } else {
            None
        }
    } else if s.len() > 0 && all_digits(s) {
        Some(digits_value(s))
    } else {
        None
    }
}

/// The value of an integer field: the `i32` that `s` writes, else zero.
pub open spec fn int_field(s: Seq<char>) -> i32 {
    match int_literal(s) {
        Some(v) => if i32::MIN <= v <= i32::MAX {
            v as i32
        } else {
            0
        },
        None => 0,
    }
}

proof fn lemma_digits_value_grows(s: Seq<char>, i: int, j: int)
    requires
        all_digits(s),
        0 <= i <= j <= s.len(),
    ensures
        0 <= digits_value(s.subrange(0, i)) <= digits_value(s.subrange(0, j)),
    decreases j,
{
    if j > 0 {
        assert(s.subrange(0, j).drop_last() =~= s.subrange(0, j - 1));
        lemma_digits_value_grows(s, 0, j - 1);
        if i < j {
            lemma_digits_value_grows(s, i, j - 1);
        }
    } else {
        assert(s.subrange(0, 0) =~= Seq::<char>::empty());
    }
}

/// Reads an already trimmed integer field: the `i32` it writes, or zero
/// where it writes none (no digits, a stray character, out of range).
pub fn parse_int_field(s: &str) -> (r: i32)
    ensures
        r == int_field(s@),
{
    let n = s.unicode_len();
    if n == 0 {
        return 0;
    }
    let c0 = s.get_char(0);
    let neg = c0 == '-';
    let start: usize = if c0 == '+' || c0 == '-' { 1 } else { 0 };
    if start == n {
        return 0;
    }
    let ghost d = s@.subrange(start as int, n as int);
    proof {
        if start == 1 {
            assert(d =~= s@.drop_first());
        } else {
            assert(d =~= s@);
        }
    }
    let mut mag: i64 = 0;
    let mut i: usize = start;
    let mut over = false;
    while i < n
        invariant
            n == s@.len(),
            start <= i <= n,
            d == s@.subrange(start as int, n as int),
            n > 0,
            neg == (s@[0] == '-'),
            start == 1 ==> d == s@.drop_first() && (s@[0] == '+' || s@[0] == '-'),
            start == 0 ==> d == s@ && !(s@[0] == '+' || s@[0] == '-'),
            start < n,
            start <= 1,
            forall|k: int| 0 <= k < i - start ==> '0' <= #[trigger] d[k] <= '9',
            !over ==> mag == digits_value(d.subrange(0, i - start)),
            !over ==> 0 <= mag,
            !over ==> mag <= 2147483648,
            over ==> digits_value(d.subrange(0, i - start)) > 2147483648,
        decreases n - i,
    {
        let c = s.get_char(i);
        if c < '0' || c > '9' {
            proof {
                assert(d[i - start] == c);
                assert(!all_digits(d));
                if start == 1 {
                    assert(s@.drop_first() == d);
                    assert(int_literal(s@) is None);
                } else {
                    assert(s@ == d);
                    assert(int_literal(s@) is None);
                }
            }
            return 0;
        }
        proof {
            let p = d.subrange(0, i + 1 - start);
            assert(p.drop_last() =~= d.subrange(0, i - start));
            assert(p.last() == c);
            assert(all_digits(p));
            lemma_digits_value_grows(p, i - start, i + 1 - start);
            assert(p.subrange(0, i - start) =~= d.subrange(0, i - start));
            assert(p.subrange(0, i + 1 - start) =~= p);
        }
        if !over {
            assert(mag * 10 <= 21474836480) by (nonlinear_arith)
                requires
                    mag <= 2147483648,
            ;
            mag = mag * 10 + (c as u32 - '0' as u32) as i64;
            if mag > 2147483648 {
                over = true;
            }
        }
        i = i + 1;
    }
    proof {
        assert(d.subrange(0, n - start) =~= d);
        assert(all_digits(d));
    }
    if over {
        return 0;
    }
    if neg {
        (-mag) as i32
    } else if mag > 2147483647 {
        0
    } else {
        mag as i32
    }
}

/// Reads one integer field of a line: trimmed, then as `parse_int_field`.
pub fn int_token(s: &str) -> (r: i32)
    ensures
        r == int_field(trimmed(s@)),
{
    let t = trim(s);
    parse_int_field(t.as_str())
}

/// One parsed measurement sample. Each channel holds the trimmed text of its
/// field; its numeric value is that text read as a decimal number, or zero
/// where the text is no number.
pub struct Reading {
    /// Milliseconds since the Unix epoch at which the line was received.
    pub timestamp: u64,
    pub no2: String,
    pub eth: String,
    pub voc: String,
    pub co: String,
    pub co_mics: String,
    pub eth_mics: String,
    pub voc_mics: String,
    pub state: i32,
    pub level: i32,
    pub state_name: String,
}

/// `s` with every leading repetition of the sensor tag removed.
pub open spec fn strip_tags(s: Seq<char>) -> Seq<char>
    decreases s.len(),
{
    if sensor_tag().len() > 0 && starts_with(s, sensor_tag()) {
        strip_tags(s.subrange(sensor_tag().len() as int, s.len() as int))
    } else {
        s
    }
}

/// The fields of a line: what follows the tags, split at commas.
pub open spec fn line_fields(line: Seq<char>) -> Seq<Seq<char>> {
    split_fields(strip_tags(line))
}

/// A line that yields a reading: it opens with the tag and carries at least
/// nine fields.
pub open spec fn is_sensor_line(line: Seq<char>) -> bool {
    starts_with(line, sensor_tag()) && line_fields(line).len() >= FIELD_COUNT
}

/// `r` is the reading that the fields `f` give at time `ts`.
pub open spec fn reading_of_fields(r: Reading, f: Seq<Seq<char>>, ts: u64) -> bool {
    &&& r.timestamp == ts
    &&& r.no2@ == trimmed(f[0])
    &&& r.eth@ == trimmed(f[1])
    &&& r.voc@ == trimmed(f[2])
    &&& r.co@ == trimmed(f[3])
    &&& r.co_mics@ == trimmed(f[4])
    &&& r.eth_mics@ == trimmed(f[5])
    &&& r.voc_mics@ == trimmed(f[6])
    &&& r.state == int_field(trimmed(f[7]))
    &&& r.level == int_field(trimmed(f[8]))
    &&& r.state_name@ == state_label(r.state as int)
}

/// Parses a device line received at time `timestamp`: `Some` exactly for a
/// tagged line of at least nine fields; a field that is no number degrades
/// to zero without discarding the record.
pub fn parse_sensor_line_at(line: &str, timestamp: u64) -> (r: Option<Reading>)
    ensures
        r is Some <==> is_sensor_line(line@),
        r matches Some(rd) ==> reading_of_fields(rd, line_fields(line@), timestamp),
{
    proof {
        reveal_strlit("SENSOR:");
    }
    let n = line.unicode_len();
    if !has_at(line, 0, "SENSOR:") {
        return None;
    }
    let mut start: usize = 0;
    assert(line@.subrange(0, n as int) =~= line@);
    while has_at(line, start, "SENSOR:")
        invariant
            n == line@.len(),
            start <= n,
            sensor_tag().len() == 7,
            strip_tags(line@) == strip_tags(line@.subrange(start as int, n as int)),
        decreases n - start,
    {
        let ghost rest = line@.subrange(start as int, n as int);
        proof {
            assert(rest.subrange(0, 7) =~= line@.subrange(start as int, start + 7));
            assert(rest.subrange(7, rest.len() as int) =~= line@.subrange(start + 7, n as int));
        }
        start = start + 7;
    }
    proof {
        let rest = line@.subrange(start as int, n as int);
        if rest.len() >= 7 {
            assert(rest.subrange(0, 7) =~= line@.subrange(start as int, start + 7));
        }
    }
    let body = line.substring_char(start, n);
    let parts = split_commas(body);
    if parts.len() < FIELD_COUNT {
        return None;
    }
    proof {
        assert(views(parts@) == line_fields(line@));
        assert forall|k: int| 0 <= k < parts@.len() implies parts@[k]@ == line_fields(line@)[k] by {
            assert(views(parts@)[k] == parts@[k]@);
        }
    }
    let state = int_token(parts[7].as_str());
    let level = int_token(parts[8].as_str());
    let state_name = state_name(state);
    Some(Reading {
        timestamp,
        no2: trim(parts[0].as_str()),
        eth: trim(parts[1].as_str()),
        voc: trim(parts[2].as_str()),
        co: trim(parts[3].as_str()),
        co_mics: trim(parts[4].as_str()),
        eth_mics: trim(parts[5].as_str()),
        voc_mics: trim(parts[6].as_str()),
        state,
        level,
        state_name,
    })
}

/// Relies on `SystemTime::now`: the wall clock, in milliseconds since the
/// Unix epoch (zero for a clock set before it). Nothing is known of the value.
#[verifier::external_body]
fn now_millis() -> (r: u64) {
    match std::time::SystemTime::now().duration_since(std::time::UNIX_EPOCH) {
        Ok(d) => d.as_millis() as u64,
        Err(_) => 0,
    }
}

/// Parses a device line, stamping it with the time of receipt.
pub fn parse_sensor_line(line: &str) -> (r: Option<Reading>)
    ensures
        r is Some <==> is_sensor_line(line@),
        r matches Some(rd) ==> reading_of_fields(rd, line_fields(line@), rd.timestamp),
{
    let ts = now_millis();
    parse_sensor_line_at(line, ts)
}

} // verus!
