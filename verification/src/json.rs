//! The metadata snapshot serialized for WebSocket clients, built and
//! specified character by character.
use vstd::prelude::*;
use crate::player::{ActiveFileMetadata, TimeData};
use crate::BUFFER_SIZE_MS;

verus! {

/// The character for one decimal digit.
pub open spec fn digit_char(d: int) -> char {
    if d == 0 {
        '0'
    } else if d == 1 {
        '1'
    } else if d == 2 {
        '2'
    } else if d == 3 {
        '3'
    } else if d == 4 {
        '4'
    } else if d == 5 {
        '5'
    } else if d == 6 {
        '6'
    } else if d == 7 {
        '7'
    } else if d == 8 {
        '8'
    } else {
        '9'
    }
}

/// The decimal digits of `n`, most significant first; empty for 0.
pub open spec fn spec_dec(n: int) -> Seq<char>
    decreases n,
{
    if n <= 0 {
        Seq::empty()
    } else {
        spec_dec(n / 10).push(digit_char(n % 10))
    }
}

/// `n` written in decimal.
pub open spec fn spec_u64_dec(n: u64) -> Seq<char> {
    if n == 0 {
        "0"@
    } else {
        spec_dec(n as int)
    }
}

/// The one-character string for a digit.
fn digit_str(d: u64) -> (r: &'static str)
    requires
        d < 10,
    ensures
        r@ == seq![digit_char(d as int)],
{
    proof {
        reveal_strlit("0");
        reveal_strlit("1");
        reveal_strlit("2");
        reveal_strlit("3");
        reveal_strlit("4");
        reveal_strlit("5");
        reveal_strlit("6");
        reveal_strlit("7");
        reveal_strlit("8");
        reveal_strlit("9");
    }
    if d == 0 {
        "0"
    } else if d == 1 {
        "1"
    } else if d == 2 {
        "2"
    } else if d == 3 {
        "3"
    } else if d == 4 {
        "4"
    } else if d == 5 {
        "5"
    } else if d == 6 {
        "6"
    } else if d == 7 {
        "7"
    } else if d == 8 {
        "8"
    } else {
        "9"
    }
}

/// Append the decimal digits of `n` to `out`.
fn push_dec(n: u64, out: &mut String)
    ensures
        final(out)@ == old(out)@ + spec_dec(n as int),
    decreases n,
{
    if n == 0 {
        proof {
            assert(old(out)@ + spec_dec(0) =~= old(out)@);
        }
        return ;
    }
    push_dec(n / 10, out);
    let d = digit_str(n % 10);
    out.append(d);
    proof {
        assert(old(out)@ + spec_dec(n as int) =~= (old(out)@ + spec_dec(n as int / 10)) + seq![
            digit_char(n as int % 10),
        ]);
    }
}

/// `n` written in decimal, as `spec_u64_dec` spells it.
pub fn u64_to_dec(n: u64) -> (r: String)
    ensures
        r@ == spec_u64_dec(n),
{
    if n == 0 {
        return "0".to_owned();
    }
    let mut s = String::new();
    push_dec(n, &mut s);
    proof {
        assert(Seq::<char>::empty() + spec_dec(n as int) =~= spec_dec(n as int));
    }
    s
}

/// The JSON object sent for one metadata snapshot: the track's id as a
/// string, its title and author verbatim, the duration and clock fields in
/// decimal, the engine's buffer span, and the image URL or `null`.
pub open spec fn spec_metadata_json(m: ActiveFileMetadata, t: TimeData) -> Seq<char> {
    "{\"id\":\""@ + spec_u64_dec(m.id) + "\",\"title\":\""@ + m.title@ + "\",\"author\":\""@
        + m.author@ + "\",\"active_file_duration_ms\":"@ + spec_u64_dec(m.duration_ms)
        + ",\"active_file_start_time_ms\":"@ + spec_u64_dec(t.start_time_ms)
        + ",\"active_file_current_time_ms\":"@ + spec_u64_dec(t.current_time_ms)
        + ",\"buffer_size_ms\":"@ + spec_u64_dec(BUFFER_SIZE_MS as u64) + ",\"image\":"@ + (
    match m.image {
        Some(u) => "\""@ + u@ + "\""@,
        None => "null"@,
    }) + "}"@
}

/// Serialize one metadata snapshot for the WebSocket endpoint.
pub fn get_metadata_json(m: &ActiveFileMetadata, t: &TimeData) -> (r: String)
    ensures
        r@ == spec_metadata_json(*m, *t),
{
    let mut s = String::new();
    s.append("{\"id\":\"");
    let id = u64_to_dec(m.id);
    s.append(id.as_str());
    s.append("\",\"title\":\"");
    s.append(m.title.as_str());
    s.append("\",\"author\":\"");
    s.append(m.author.as_str());
    s.append("\",\"active_file_duration_ms\":");
    let duration = u64_to_dec(m.duration_ms);
    s.append(duration.as_str());
    s.append(",\"active_file_start_time_ms\":");
    let start = u64_to_dec(t.start_time_ms);
    s.append(start.as_str());
    s.append(",\"active_file_current_time_ms\":");
    let current = u64_to_dec(t.current_time_ms);
    s.append(current.as_str());
    s.append(",\"buffer_size_ms\":");
    let buffer = u64_to_dec(BUFFER_SIZE_MS as u64);
    s.append(buffer.as_str());
    s.append(",\"image\":");
    match &m.image {
        Some(u) => {
            s.append("\"");
            s.append(u.as_str());
            s.append("\"");
        },
        None => {
            s.append("null");
        },
    }
    s.append("}");
    proof {
        assert(s@ =~= spec_metadata_json(*m, *t));
    }
    s
}

} // verus!
