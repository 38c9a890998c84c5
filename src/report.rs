//! The JSON report of a run, rendered as bytes.

use vstd::prelude::*;
use vstd::string::{is_ascii_spec_bytes, StringSliceAdditionalSpecFns};
use vstd::utf8::encode_utf8;

use crate::board::views;
use crate::status::{StatusView, Timestamp, WebsiteStatus};

verus! {

/// The bytes of an ASCII text.
pub open spec fn ascii(s: Seq<char>) -> Seq<u8> {
    s.map_values(|c: char| c as u8)
}

/// The byte of a decimal digit.
pub open spec fn digit_byte(d: nat) -> u8 {
    (48 + d) as u8
}

/// The byte of a lower-case hexadecimal digit.
pub open spec fn hex_byte(d: nat) -> u8 {
    if d < 10 {
        (48 + d) as u8
    } else {
        (87 + d) as u8
    }
}

/// How one byte stands inside a JSON string: the quote and the backslash are
/// escaped with a backslash, control bytes are written `\u00XX`, the rest as they are.
pub open spec fn escape_byte(b: u8) -> Seq<u8> {
    if b == 34 {
        seq![92u8, 34u8]
    } else if b == 92 {
        seq![92u8, 92u8]
    } else if b < 32 {
        seq![92u8, 117u8, 48u8, 48u8, hex_byte((b / 16) as nat), hex_byte((b % 16) as nat)]
    } else {
        seq![b]
    }
}

/// The JSON string body of a byte sequence, each byte escaped in turn.
pub open spec fn json_escape(s: Seq<u8>) -> Seq<u8>
    decreases s.len(),
{
    if s.len() == 0 {
        Seq::empty()
    } else {
        json_escape(s.drop_last()) + escape_byte(s.last())
    }
}

/// The decimal notation of `n` as bytes.
pub open spec fn dec_bytes(n: nat) -> Seq<u8>
    decreases n,
{
    if n < 10 {
        seq![digit_byte(n)]
    } else {
        dec_bytes(n / 10) + seq![digit_byte(n % 10)]
    }
}

/// The last `width` decimal digits of `n`, with leading zeros.
pub open spec fn padded_bytes(n: nat, width: nat) -> Seq<u8>
    decreases width,
{
    if width == 0 {
        Seq::empty()
    } else {
        padded_bytes(n / 10, (width - 1) as nat) + seq![digit_byte(n % 10)]
    }
}

/// A timestamp as seconds, a dot, and nine digits of nanoseconds.
pub open spec fn timestamp_bytes(t: Timestamp) -> Seq<u8> {
    dec_bytes(t.secs as nat) + seq![46u8] + padded_bytes(t.nanos as nat, 9)
}

/// The value of the `action_status` field: the code as a number, or the message as a string.
pub open spec fn action_status_bytes(a: Result<u16, Seq<char>>) -> Seq<u8> {
    match a {
        Ok(code) => dec_bytes(code as nat),
        Err(msg) => seq![34u8] + json_escape(encode_utf8(msg)) + seq![34u8],
    }
}

/// One record of the report, a JSON object on one line.
pub open spec fn record_bytes(r: StatusView) -> Seq<u8> {
    ascii("{\"url\": \""@) + json_escape(encode_utf8(r.url)) + ascii("\", \"action_status\": "@)
        + action_status_bytes(r.action_status) + ascii(", \"response_time\": "@) + dec_bytes(
        r.response_time_ms as nat,
    ) + ascii(", \"timestamp\": \""@) + timestamp_bytes(r.timestamp) + ascii("\"}"@)
}

/// The records one after another, separated by a comma and a line break.
pub open spec fn records_bytes(rs: Seq<StatusView>) -> Seq<u8>
    decreases rs.len(),
{
    if rs.len() == 0 {
        Seq::empty()
    } else if rs.len() == 1 {
        record_bytes(rs[0])
    } else {
        records_bytes(rs.drop_last()) + ascii(",\n"@) + record_bytes(rs.last())
    }
}

/// The whole report: a JSON array holding one record per line.
pub open spec fn report_bytes(rs: Seq<StatusView>) -> Seq<u8> {
    if rs.len() == 0 {
        ascii("[\n]\n"@)
    } else {
        ascii("[\n"@) + records_bytes(rs) + ascii("\n]\n"@)
    }
}

fn push_bytes(out: &mut Vec<u8>, b: &[u8])
    ensures
        final(out)@ == old(out)@ + b@,
{
    let mut i: usize = 0;
    while i < b.len()
        invariant
            i <= b@.len(),
            out@ == old(out)@ + b@.take(i as int),
        decreases b@.len() - i,
    {
        out.push(b[i]);
        i += 1;
        assert(out@ =~= old(out)@ + b@.take(i as int));
    }
    assert(b@.take(b@.len() as int) =~= b@);
}

fn push_text(out: &mut Vec<u8>, s: &str)
    requires
        s.is_ascii(),
    ensures
        final(out)@ == old(out)@ + ascii(s@),
{
    proof {
        broadcast use is_ascii_spec_bytes;
        assert(s.spec_bytes() =~= ascii(s@));
    }
    push_bytes(out, s.as_bytes());
}

fn push_dec(out: &mut Vec<u8>, n: u64)
    ensures
        final(out)@ == old(out)@ + dec_bytes(n as nat),
    decreases n,
{
    if n < 10 {
        out.push(48 + n as u8);
    } else {
        push_dec(out, n / 10);
        out.push(48 + (n % 10) as u8);
    }
    assert(out@ =~= old(out)@ + dec_bytes(n as nat));
}

fn push_padded(out: &mut Vec<u8>, n: u64, width: u64)
    ensures
        final(out)@ == old(out)@ + padded_bytes(n as nat, width as nat),
    decreases width,
{
    if width > 0 {
        push_padded(out, n / 10, width - 1);
        out.push(48 + (n % 10) as u8);
    }
    assert(out@ =~= old(out)@ + padded_bytes(n as nat, width as nat));
}

fn hex_digit(d: u8) -> (r: u8)
    requires
        d < 16,
    ensures
        r == hex_byte(d as nat),
{
    if d < 10 {
        48 + d
    } else {
        87 + d
    }
}

fn push_escaped(out: &mut Vec<u8>, b: &[u8])
    ensures
        final(out)@ == old(out)@ + json_escape(b@),
{
    let mut i: usize = 0;
    while i < b.len()
        invariant
            i <= b@.len(),
            out@ == old(out)@ + json_escape(b@.take(i as int)),
        decreases b@.len() - i,
    {
        let c = b[i];
        if c == 34 {
            out.push(92);
            out.push(34);
        } else if c == 92 {
            out.push(92);
            out.push(92);
        } else if c < 32 {
            out.push(92);
            out.push(117);
            out.push(48);
            out.push(48);
            out.push(hex_digit(c / 16));
            out.push(hex_digit(c % 16));
        } else {
            out.push(c);
        }
        assert(b@.take(i + 1).drop_last() =~= b@.take(i as int));
        i += 1;
        assert(out@ =~= old(out)@ + json_escape(b@.take(i as int)));
    }
    assert(b@.take(b@.len() as int) =~= b@);
}

fn push_action_status(out: &mut Vec<u8>, a: &Result<u16, String>)
    ensures
        final(out)@ == old(out)@ + action_status_bytes(crate::status::outcome_view(*a)),
{
    match a {
        Ok(code) => push_dec(out, *code as u64),
        Err(msg) => {
            out.push(34);
            push_escaped(out, msg.as_str().as_bytes());
            out.push(34);
        },
    }
    assert(out@ =~= old(out)@ + action_status_bytes(crate::status::outcome_view(*a)));
}

fn push_timestamp(out: &mut Vec<u8>, t: Timestamp)
    ensures
        final(out)@ == old(out)@ + timestamp_bytes(t),
{
    push_dec(out, t.secs);
    out.push(46);
    push_padded(out, t.nanos as u64, 9);
    assert(out@ =~= old(out)@ + timestamp_bytes(t));
}

fn push_record(out: &mut Vec<u8>, r: &WebsiteStatus)
    ensures
        final(out)@ == old(out)@ + record_bytes(r@),
{
    proof {
        reveal_strlit("{\"url\": \"");
        reveal_strlit("\", \"action_status\": ");
        reveal_strlit(", \"response_time\": ");
        reveal_strlit(", \"timestamp\": \"");
        reveal_strlit("\"}");
    }
    let ghost o = old(out)@;
    push_text(out, "{\"url\": \"");
    push_escaped(out, r.url.as_str().as_bytes());
    push_text(out, "\", \"action_status\": ");
    push_action_status(out, &r.action_status);
    push_text(out, ", \"response_time\": ");
    push_dec(out, r.response_time_ms);
    push_text(out, ", \"timestamp\": \"");
    push_timestamp(out, r.timestamp);
    push_text(out, "\"}");
    assert(out@ =~= o + record_bytes(r@));
}

/// The report of a run: a JSON array with one record per result, in the order given.
/// Each record holds the URL, the status code or failure message, the response time in
/// whole milliseconds and the completion timestamp.
pub fn status_report_bytes(results: &Vec<WebsiteStatus>) -> (r: Vec<u8>)
    ensures
        r@ == report_bytes(views(results@)),
{
    proof {
        reveal_strlit("[\n");
        reveal_strlit(",\n");
        reveal_strlit("\n]\n");
        reveal_strlit("[\n]\n");
    }
    let ghost vs = views(results@);
    let mut out: Vec<u8> = Vec::new();
    if results.len() == 0 {
        push_text(&mut out, "[\n]\n");
        return out;
    }
    push_text(&mut out, "[\n");
    let mut i: usize = 0;
    while i < results.len()
        invariant
            vs == views(results@),
            i <= results.len(),
            out@ == ascii("[\n"@) + records_bytes(vs.take(i as int)),
        decreases results.len() - i,
    {
        if i > 0 {
            proof {
                reveal_strlit(",\n");
            }
            push_text(&mut out, ",\n");
        }
        push_record(&mut out, &results[i]);
        proof {
            let t = vs.take(i + 1);
            assert(t.drop_last() =~= vs.take(i as int));
            assert(t.last() == results@[i as int]@);
            if i == 0 {
                assert(vs.take(0) =~= Seq::<StatusView>::empty());
            }
        }
        i += 1;
        assert(out@ =~= ascii("[\n"@) + records_bytes(vs.take(i as int)));
    }
    push_text(&mut out, "\n]\n");
    assert(vs.take(results.len() as int) =~= vs);
    assert(out@ =~= report_bytes(vs));
    out
}

} // verus!
