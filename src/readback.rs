//! Reading a report back into its records, and the proof that a written report
//! reads back into exactly the records it was written from.

use vstd::prelude::*;
use vstd::utf8::encode_utf8;

use crate::report::{
    action_status_bytes, ascii, dec_bytes, digit_byte, escape_byte, hex_byte, json_escape,
    padded_bytes, record_bytes, records_bytes, report_bytes, timestamp_bytes,
};
use crate::status::StatusView;

verus! {

/// `s` without the prefix `lit`, if it starts with it.
pub open spec fn take_lit(s: Seq<u8>, lit: Seq<u8>) -> Option<Seq<u8>> {
    if lit.len() <= s.len() && s.take(lit.len() as int) == lit {
        Some(s.skip(lit.len() as int))
    } else {
        None
    }
}

/// Whether `b` is an ASCII hexadecimal digit.
pub open spec fn is_hex_byte(b: u8) -> bool {
    (48 <= b <= 57) || (97 <= b <= 102) || (65 <= b <= 70)
}

/// The value of an ASCII hexadecimal digit.
pub open spec fn hex_value(b: u8) -> nat {
    if 48 <= b <= 57 {
        (b - 48) as nat
    } else if 97 <= b <= 102 {
        (b - 87) as nat
    } else {
        (b - 55) as nat
    }
}

/// Puts `b` in front of the text of a successful read.
pub open spec fn prepend(b: u8, r: Option<(Seq<u8>, Seq<u8>)>) -> Option<(Seq<u8>, Seq<u8>)> {
    match r {
        Some((v, rest)) => Some((seq![b] + v, rest)),
        None => None,
    }
}

/// Reads the body of a JSON string up to and including its closing quote: the bytes it
/// stands for, and what follows. Understands the escapes `\"`, `\\` and `\u00XX`.
pub open spec fn read_string(s: Seq<u8>) -> Option<(Seq<u8>, Seq<u8>)>
    decreases s.len(),
{
    if s.len() == 0 {
        None
    } else if s[0] == 34 {
        Some((Seq::empty(), s.skip(1)))
    } else if s[0] == 92 {
        if s.len() >= 2 && (s[1] == 34 || s[1] == 92) {
            prepend(s[1], read_string(s.skip(2)))
        } else if s.len() >= 6 && s[1] == 117 && s[2] == 48 && s[3] == 48 && is_hex_byte(s[4])
            && is_hex_byte(s[5]) {
            prepend((hex_value(s[4]) * 16 + hex_value(s[5])) as u8, read_string(s.skip(6)))
        } else {
            None
        }
    } else {
        prepend(s[0], read_string(s.skip(1)))
    }
}

/// Whether `b` is an ASCII decimal digit.
pub open spec fn is_digit_byte(b: u8) -> bool {
    48 <= b <= 57
}

/// The number of decimal digits `s` starts with.
pub open spec fn leading_digits(s: Seq<u8>) -> nat
    decreases s.len(),
{
    if s.len() > 0 && is_digit_byte(s[0]) {
        1 + leading_digits(s.drop_first())
    } else {
        0
    }
}

/// The value of a sequence of decimal digit bytes, most significant first.
pub open spec fn digit_bytes_value(s: Seq<u8>) -> nat
    decreases s.len(),
{
    if s.len() == 0 {
        0
    } else {
        digit_bytes_value(s.drop_last()) * 10 + (s.last() - 48) as nat
    }
}

/// Reads an unsigned decimal number: all the digits `s` starts with, at least one.
pub open spec fn read_number(s: Seq<u8>) -> Option<(nat, Seq<u8>)> {
    let k = leading_digits(s);
    if k == 0 {
        None
    } else {
        Some((digit_bytes_value(s.take(k as int)), s.skip(k as int)))
    }
}

/// Reads the value of `action_status`: a string is a failure message, a number a status code.
pub open spec fn read_status(s: Seq<u8>) -> Option<(Result<nat, Seq<u8>>, Seq<u8>)> {
    if s.len() > 0 && s[0] == 34 {
        match read_string(s.skip(1)) {
            Some((m, rest)) => Some((Err(m), rest)),
            None => None,
        }
    } else {
        match read_number(s) {
            Some((n, rest)) => Some((Ok(n), rest)),
            None => None,
        }
    }
}

/// The fields of one record as read back from a report, strings as UTF-8 bytes.
pub struct ReadRecord {
    pub url: Seq<u8>,
    pub action_status: Result<nat, Seq<u8>>,
    pub response_time: nat,
    pub timestamp: Seq<u8>,
}

/// Reads one record and returns it with what follows it.
pub open spec fn read_record(s: Seq<u8>) -> Option<(ReadRecord, Seq<u8>)> {
    match take_lit(s, ascii("{\"url\": \""@)) {
        None => None,
        Some(s1) => match read_string(s1) {
            None => None,
            Some((url, s2)) => match take_lit(s2, ascii(", \"action_status\": "@)) {
                None => None,
                Some(s3) => match read_status(s3) {
                    None => None,
                    Some((st, s4)) => match take_lit(s4, ascii(", \"response_time\": "@)) {
                        None => None,
                        Some(s5) => match read_number(s5) {
                            None => None,
                            Some((ms, s6)) => match take_lit(s6, ascii(", \"timestamp\": \""@)) {
                                None => None,
                                Some(s7) => match read_string(s7) {
                                    None => None,
                                    Some((ts, s8)) => match take_lit(s8, ascii("}"@)) {
                                        None => None,
                                        Some(s9) => Some(
                                            (
                                                ReadRecord {
                                                    url,
                                                    action_status: st,
                                                    response_time: ms,
                                                    timestamp: ts,
                                                },
                                                s9,
                                            ),
                                        ),
                                    },
                                },
                            },
                        },
                    },
                },
            },
        },
    }
}

/// Reads records separated by a comma and a line break, up to the closing line `]`;
/// `fuel` bounds the number of records.
pub open spec fn read_records(s: Seq<u8>, fuel: nat) -> Option<Seq<ReadRecord>>
    decreases fuel,
{
    if fuel == 0 {
        None
    } else {
        match read_record(s) {
            None => None,
            Some((r, rest)) => if rest == ascii("\n]\n"@) {
                Some(seq![r])
            } else {
                match take_lit(rest, ascii(",\n"@)) {
                    None => None,
                    Some(more) => match read_records(more, (fuel - 1) as nat) {
                        None => None,
                        Some(rs) => Some(seq![r] + rs),
                    },
                }
            },
        }
    }
}

/// Reads a whole report back into its records; `None` if it is not a report.
pub open spec fn read_report(s: Seq<u8>) -> Option<Seq<ReadRecord>> {
    if s == ascii("[\n]\n"@) {
        Some(Seq::empty())
    } else {
        match take_lit(s, ascii("[\n"@)) {
            None => None,
            Some(body) => read_records(body, s.len()),
        }
    }
}

/// What reading back the record of `r` should give.
pub open spec fn expected_record(r: StatusView) -> ReadRecord {
    ReadRecord {
        url: encode_utf8(r.url),
        action_status: match r.action_status {
            Ok(code) => Ok(code as nat),
            Err(m) => Err(encode_utf8(m)),
        },
        response_time: r.response_time_ms as nat,
        timestamp: timestamp_bytes(r.timestamp),
    }
}

proof fn lemma_escape_concat(a: Seq<u8>, b: Seq<u8>)
    ensures
        json_escape(a + b) == json_escape(a) + json_escape(b),
    decreases b.len(),
{
    if b.len() == 0 {
        assert(a + b =~= a);
        assert(json_escape(a) + json_escape(b) =~= json_escape(a));
    } else {
        assert((a + b).drop_last() =~= a + b.drop_last());
        lemma_escape_concat(a, b.drop_last());
        assert(json_escape(a + b) =~= json_escape(a) + json_escape(b));
    }
}

proof fn lemma_escape_front(b: Seq<u8>)
    requires
        b.len() > 0,
    ensures
        json_escape(b) == escape_byte(b[0]) + json_escape(b.drop_first()),
{
    assert(b =~= seq![b[0]] + b.drop_first());
    lemma_escape_concat(seq![b[0]], b.drop_first());
    let one = seq![b[0]];
    assert(one.drop_last() =~= Seq::<u8>::empty());
    assert(json_escape(Seq::<u8>::empty()) == Seq::<u8>::empty());
    assert(one.last() == b[0]);
    assert(json_escape(one) =~= escape_byte(b[0]));
}

proof fn lemma_hex_round_trip(d: nat)
    requires
        d < 16,
    ensures
        is_hex_byte(hex_byte(d)),
        hex_value(hex_byte(d)) == d,
{
}

/// Reading the escaped form of `b`, closed by a quote, gives back `b` and what follows.
proof fn lemma_read_escaped(b: Seq<u8>, rest: Seq<u8>)
    ensures
        read_string(json_escape(b) + seq![34u8] + rest) == Some((b, rest)),
    decreases b.len(),
{
    let s = json_escape(b) + seq![34u8] + rest;
    if b.len() == 0 {
        assert(s =~= seq![34u8] + rest);
        assert(s.skip(1) =~= rest);
    } else {
        let x = b[0];
        let t = b.drop_first();
        lemma_escape_front(b);
        let tail = json_escape(t) + seq![34u8] + rest;
        assert(s =~= escape_byte(x) + tail);
        lemma_read_escaped(t, rest);
        let k = escape_byte(x).len() as int;
        assert(s.skip(k) =~= tail);
        if x < 32 && x != 34 && x != 92 {
            lemma_hex_round_trip((x / 16) as nat);
            lemma_hex_round_trip((x % 16) as nat);
            assert(s[4] == hex_byte((x / 16) as nat));
            assert(s[5] == hex_byte((x % 16) as nat));
            assert((hex_value(s[4]) * 16 + hex_value(s[5])) as u8 == x);
        }
        assert(seq![x] + t =~= b);
    }
}

/// The bytes that stand for themselves inside a JSON string.
pub open spec fn is_plain_byte(b: u8) -> bool {
    b >= 32 && b != 34 && b != 92
}

proof fn lemma_escape_plain(b: Seq<u8>)
    requires
        forall|i: int| 0 <= i < b.len() ==> is_plain_byte(#[trigger] b[i]),
    ensures
        json_escape(b) == b,
    decreases b.len(),
{
    if b.len() > 0 {
        lemma_escape_plain(b.drop_last());
        assert(is_plain_byte(b[b.len() - 1]));
        assert(json_escape(b) =~= b);
    }
}

proof fn lemma_dec_digits(n: nat)
    ensures
        dec_bytes(n).len() >= 1,
        forall|i: int| 0 <= i < dec_bytes(n).len() ==> is_digit_byte(#[trigger] dec_bytes(n)[i]),
        digit_bytes_value(dec_bytes(n)) == n,
    decreases n,
{
    let d = dec_bytes(n);
    if n >= 10 {
        lemma_dec_digits(n / 10);
        assert(d.drop_last() =~= dec_bytes(n / 10));
        assert(d.last() == digit_byte(n % 10));
        assert(digit_bytes_value(d) == (n / 10) * 10 + n % 10);
    } else {
        assert(d.drop_last() =~= Seq::<u8>::empty());
        assert(digit_bytes_value(Seq::<u8>::empty()) == 0);
        assert(digit_bytes_value(d) == n);
    }
}

proof fn lemma_padded_digits(n: nat, width: nat)
    ensures
        forall|i: int| 0 <= i < padded_bytes(n, width).len() ==> is_digit_byte(#[trigger] padded_bytes(n, width)[i]),
    decreases width,
{
    if width > 0 {
        lemma_padded_digits(n / 10, (width - 1) as nat);
        let p = padded_bytes(n, width);
        let q = padded_bytes(n / 10, (width - 1) as nat);
        assert(p == q + seq![digit_byte(n % 10)]);
        assert forall|i: int| 0 <= i < p.len() implies is_digit_byte(#[trigger] p[i]) by {
            if i < q.len() {
                assert(p[i] == q[i]);
            }
        }
    }
}

proof fn lemma_leading_digits(d: Seq<u8>, rest: Seq<u8>)
    requires
        forall|i: int| 0 <= i < d.len() ==> is_digit_byte(#[trigger] d[i]),
        rest.len() == 0 || !is_digit_byte(rest[0]),
    ensures
        leading_digits(d + rest) == d.len(),
    decreases d.len(),
{
    if d.len() > 0 {
        assert((d + rest).drop_first() =~= d.drop_first() + rest);
        assert(is_digit_byte(d[0]));
        lemma_leading_digits(d.drop_first(), rest);
    } else {
        assert(d + rest =~= rest);
    }
}

/// Reading a number written by the report, followed by a byte that is no digit, gives it back.
proof fn lemma_read_dec(n: nat, rest: Seq<u8>)
    requires
        rest.len() == 0 || !is_digit_byte(rest[0]),
    ensures
        read_number(dec_bytes(n) + rest) == Some((n, rest)),
{
    lemma_dec_digits(n);
    lemma_leading_digits(dec_bytes(n), rest);
    let s = dec_bytes(n) + rest;
    assert(s.take(dec_bytes(n).len() as int) =~= dec_bytes(n));
    assert(s.skip(dec_bytes(n).len() as int) =~= rest);
}

proof fn lemma_take_lit(lit: Seq<u8>, rest: Seq<u8>)
    ensures
        take_lit(lit + rest, lit) == Some(rest),
{
    assert((lit + rest).take(lit.len() as int) =~= lit);
    assert((lit + rest).skip(lit.len() as int) =~= rest);
}

proof fn lemma_timestamp_plain(t: crate::status::Timestamp)
    ensures
        json_escape(timestamp_bytes(t)) == timestamp_bytes(t),
{
    let a = dec_bytes(t.secs as nat);
    let c = padded_bytes(t.nanos as nat, 9);
    lemma_dec_digits(t.secs as nat);
    lemma_padded_digits(t.nanos as nat, 9);
    let ts = timestamp_bytes(t);
    assert forall|i: int| 0 <= i < ts.len() implies is_plain_byte(#[trigger] ts[i]) by {
        if i < a.len() {
            assert(ts[i] == a[i]);
            assert(is_digit_byte(a[i]));
        } else if i > a.len() {
            assert(ts[i] == c[i - a.len() - 1]);
            assert(is_digit_byte(c[i - a.len() - 1]));
        }
    }
    lemma_escape_plain(ts);
}

/// Reading the record of `r`, whatever follows it, gives back its fields and what follows.
proof fn lemma_read_record(r: StatusView, rest: Seq<u8>)
    ensures
        read_record(record_bytes(r) + rest) == Some((expected_record(r), rest)),
{
    reveal_strlit("{\"url\": \"");
    reveal_strlit("\", \"action_status\": ");
    reveal_strlit(", \"action_status\": ");
    reveal_strlit(", \"response_time\": ");
    reveal_strlit(", \"timestamp\": \"");
    reveal_strlit("\"}");
    reveal_strlit("}");
    let l1 = ascii("{\"url\": \""@);
    let l2 = ascii(", \"action_status\": "@);
    let l3 = ascii(", \"response_time\": "@);
    let l4 = ascii(", \"timestamp\": \""@);
    let l5 = ascii("}"@);
    assert(ascii("\", \"action_status\": "@) =~= seq![34u8] + l2);
    assert(ascii("\"}"@) =~= seq![34u8] + l5);
    let url = encode_utf8(r.url);
    let st = action_status_bytes(r.action_status);
    let ms = r.response_time_ms as nat;
    let ts = timestamp_bytes(r.timestamp);
    let s = record_bytes(r) + rest;
    let s8 = l5 + rest;
    let s7 = ts + seq![34u8] + s8;
    let s6 = l4 + s7;
    let s5 = dec_bytes(ms) + s6;
    let s4 = l3 + s5;
    let s3 = st + s4;
    let s2 = l2 + s3;
    let s1 = json_escape(url) + seq![34u8] + s2;
    assert(s =~= l1 + s1);
    lemma_take_lit(l1, s1);
    lemma_read_escaped(url, s2);
    lemma_take_lit(l2, s3);
    match r.action_status {
        Ok(code) => {
            lemma_dec_digits(code as nat);
            assert(s3[0] == st[0]);
            assert(is_digit_byte(st[0]));
            assert(l3[0] == 44);
            lemma_read_dec(code as nat, s4);
        },
        Err(m) => {
            let em = encode_utf8(m);
            assert(s3 =~= seq![34u8] + (json_escape(em) + seq![34u8] + s4));
            assert(s3.skip(1) =~= json_escape(em) + seq![34u8] + s4);
            lemma_read_escaped(em, s4);
        },
    }
    lemma_take_lit(l3, s5);
    assert(l4[0] == 44);
    lemma_read_dec(ms, s6);
    lemma_take_lit(l4, s7);
    lemma_timestamp_plain(r.timestamp);
    lemma_read_escaped(ts, s8);
    lemma_take_lit(l5, rest);
}

proof fn lemma_records_front(rs: Seq<StatusView>)
    requires
        rs.len() >= 2,
    ensures
        records_bytes(rs) == record_bytes(rs[0]) + ascii(",\n"@) + records_bytes(rs.drop_first()),
    decreases rs.len(),
{
    let sep = ascii(",\n"@);
    let t = rs.drop_first();
    if rs.len() == 2 {
        assert(rs.drop_last().len() == 1);
        assert(t.len() == 1);
        assert(records_bytes(rs.drop_last()) == record_bytes(rs[0]));
        assert(records_bytes(t) == record_bytes(rs[1]));
    } else {
        lemma_records_front(rs.drop_last());
        assert(rs.drop_last().drop_first() =~= t.drop_last());
        assert(rs.drop_last()[0] == rs[0]);
        assert(t.last() == rs.last());
        assert(records_bytes(t) == records_bytes(t.drop_last()) + sep + record_bytes(t.last()));
        assert(records_bytes(rs) =~= record_bytes(rs[0]) + sep + records_bytes(t));
    }
}

proof fn lemma_read_records(rs: Seq<StatusView>, fuel: nat)
    requires
        rs.len() >= 1,
        fuel >= rs.len(),
    ensures
        read_records(records_bytes(rs) + ascii("\n]\n"@), fuel) == Some(rs.map_values(|r: StatusView| expected_record(r))),
    decreases rs.len(),
{
    reveal_strlit("\n]\n");
    reveal_strlit(",\n");
    let end = ascii("\n]\n"@);
    let sep = ascii(",\n"@);
    let want = rs.map_values(|r: StatusView| expected_record(r));
    if rs.len() == 1 {
        assert(records_bytes(rs) == record_bytes(rs[0]));
        lemma_read_record(rs[0], end);
        assert(want =~= seq![expected_record(rs[0])]);
    } else {
        let t = rs.drop_first();
        lemma_records_front(rs);
        let more = records_bytes(t) + end;
        let rest = sep + more;
        assert(records_bytes(rs) + end =~= record_bytes(rs[0]) + rest);
        lemma_read_record(rs[0], rest);
        assert(rest[0] == 44);
        assert(end[0] == 10);
        assert(rest != end);
        lemma_take_lit(sep, more);
        lemma_read_records(t, (fuel - 1) as nat);
        assert(want =~= seq![expected_record(rs[0])] + t.map_values(|r: StatusView| expected_record(r)));
    }
}

proof fn lemma_records_len(rs: Seq<StatusView>)
    ensures
        records_bytes(rs).len() >= rs.len(),
    decreases rs.len(),
{
    reveal_strlit("{\"url\": \"");
    if rs.len() == 1 {
        assert(record_bytes(rs[0]).len() >= 1);
    } else if rs.len() > 1 {
        lemma_records_len(rs.drop_last());
        assert(record_bytes(rs.last()).len() >= 1);
    }
}

/// A report reads back into exactly its records, in order: as many as there were
/// results, each with the URL, the status code or failure message, the response time
/// in milliseconds and the timestamp that were written.
pub proof fn lemma_report_reads_back(rs: Seq<StatusView>)
    ensures
        read_report(report_bytes(rs)) == Some(rs.map_values(|r: StatusView| expected_record(r))),
{
    reveal_strlit("[\n]\n");
    reveal_strlit("[\n");
    reveal_strlit("\n]\n");
    let want = rs.map_values(|r: StatusView| expected_record(r));
    if rs.len() == 0 {
        assert(want =~= Seq::<ReadRecord>::empty());
    } else {
        let open = ascii("[\n"@);
        let body = records_bytes(rs) + ascii("\n]\n"@);
        let s = report_bytes(rs);
        assert(s =~= open + body);
        if rs.len() == 1 {
            lemma_read_record(rs[0], Seq::empty());
        } else {
            lemma_records_front(rs);
        }
        lemma_records_len(rs);
        assert(s.len() > 4);
        assert(s != ascii("[\n]\n"@));
        lemma_take_lit(open, body);
        lemma_read_records(rs, s.len());
    }
}

} // verus!
