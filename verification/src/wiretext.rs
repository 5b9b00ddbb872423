//! The textual scalar forms of the wire format: timestamps, socket
//! addresses, quoted strings and booleans.
//!
//! A timestamp is the fixed format
//! `[year]-[month]-[day]T[hour]:[minute]:[second].[millisecond][offset_hour]:[offset_minute]`
//! with zero-padded fields and a sign on a negative offset hour; an
//! address is the `host:port` form of an IPv4 endpoint.  Each form has
//! a spec writer, a spec reader, the round-trip lemma between them, and
//! the executable pair.

use vstd::prelude::*;
use vstd::utf8::{decode_utf8, encode_utf8, valid_utf8};
use crate::jsonstr::{parse_jstring, ser_jstring, sp_jstring, write_jstring, lemma_sp_jstring_of_ser};
use crate::numtext::{
    dec_digits, dec_fixed, is_digit, lemma_sp_fixed_of_ser, lemma_sp_u32_of_ser, parse_fixed,
    parse_u32, pow10, sp_fixed, sp_u32, write_fixed, write_u32,
};
use crate::proto::NetAddr;
use crate::strutf8::{bytes_to_string, str_to_bytes};
use crate::timestamp::Timestamp;

verus! {

broadcast use vstd::utf8::encode_utf8_valid_utf8, vstd::utf8::encode_utf8_decode_utf8;

/// The offset-hour field: two digits, with a leading minus when the
/// offset is negative.
pub open spec fn ser_off_hour(oh: i8) -> Seq<u8> {
    if oh < 0 {
        seq![0x2Du8] + dec_fixed((-oh) as nat, 2)
    } else {
        dec_fixed(oh as nat, 2)
    }
}

/// The text of a timestamp.
#[verifier::opaque]
pub open spec fn ser_ts(t: Timestamp) -> Seq<u8> {
    dec_fixed(t.year as nat, 4) + seq![0x2Du8] + dec_fixed(t.month as nat, 2) + seq![0x2Du8]
        + dec_fixed(t.day as nat, 2) + seq![0x54u8] + dec_fixed(t.hour as nat, 2) + seq![0x3Au8]
        + dec_fixed(t.minute as nat, 2) + seq![0x3Au8] + dec_fixed(t.second as nat, 2)
        + seq![0x2Eu8] + dec_fixed(t.millisecond as nat, 3) + ser_off_hour(t.offset_hour)
        + seq![0x3Au8] + dec_fixed(t.offset_minute as nat, 2)
}

/// Reads a timestamp, fields at their fixed places, every field within
/// its calendar range; the result is always well-formed.
#[verifier::opaque]
pub open spec fn sp_ts(s: Seq<u8>, i: int) -> Option<(Timestamp, int)> {
    match (sp_fixed(s, i, 4), sp_fixed(s, i + 5, 2), sp_fixed(s, i + 8, 2)) {
        (Some(y), Some(mo), Some(d)) => {
            if i + 23 < s.len() && s[i + 4] == 0x2D && s[i + 7] == 0x2D && s[i + 10] == 0x54 && s[i
                + 13] == 0x3A && s[i + 16] == 0x3A && s[i + 19] == 0x2E {
                match (sp_fixed(s, i + 11, 2), sp_fixed(s, i + 14, 2), sp_fixed(s, i + 17, 2),
                sp_fixed(s, i + 20, 3)) {
                    (Some(h), Some(mi), Some(sec), Some(ms)) => {
                        let neg = s[i + 23] == 0x2D;
                        let ohpos = if neg {
                            i + 24
                        } else {
                            i + 23
                        };
                        match (sp_fixed(s, ohpos, 2), sp_fixed(s, ohpos + 3, 2)) {
                            (Some(oh), Some(om)) => {
                                if ohpos + 2 < s.len() && s[ohpos + 2] == 0x3A && 1 <= mo <= 12 && 1
                                    <= d <= 31 && h <= 23 && mi <= 59 && sec <= 59 && oh <= 23 && om
                                    <= 59 && (!neg || oh > 0) {
                                    Some(
                                        (
                                            Timestamp {
                                                year: y as u16,
                                                month: mo as u8,
                                                day: d as u8,
                                                hour: h as u8,
                                                minute: mi as u8,
                                                second: sec as u8,
                                                millisecond: ms as u16,
                                                offset_hour: if neg {
                                                    (0 - oh) as i8
                                                } else {
                                                    oh as i8
                                                },
                                                offset_minute: om as u8,
                                            },
                                            ohpos + 5,
                                        ),
                                    )
                                } else {
                                    None
                                }
                            },
                            _ => None,
                        }
                    },
                    _ => None,
                }
            } else {
                None
            }
        },
        _ => None,
    }
}

/// Parsing a timestamp right after writing it.  A negative offset hour
/// of zero cannot be written, so the sign always survives the trip.
pub proof fn lemma_sp_ts_of_ser(s: Seq<u8>, i: int, t: Timestamp)
    requires
        0 <= i,
        t.wf(),
        i + ser_ts(t).len() <= s.len(),
        s.subrange(i, i + ser_ts(t).len()) == ser_ts(t),
    ensures
        ser_ts(t).len() == if t.offset_hour < 0 {
            29int
        } else {
            28int
        },
        sp_ts(s, i) == Some((t, i + ser_ts(t).len())),
{
    reveal(ser_ts);
    reveal(sp_ts);
    let ser = ser_ts(t);
    crate::numtext::lemma_dec_fixed_props(t.year as nat, 4);
    crate::numtext::lemma_dec_fixed_props(t.month as nat, 2);
    crate::numtext::lemma_dec_fixed_props(t.day as nat, 2);
    crate::numtext::lemma_dec_fixed_props(t.hour as nat, 2);
    crate::numtext::lemma_dec_fixed_props(t.minute as nat, 2);
    crate::numtext::lemma_dec_fixed_props(t.second as nat, 2);
    crate::numtext::lemma_dec_fixed_props(t.millisecond as nat, 3);
    crate::numtext::lemma_dec_fixed_props(t.offset_minute as nat, 2);
    let ohn: nat = if t.offset_hour < 0 {
        (-t.offset_hour) as nat
    } else {
        t.offset_hour as nat
    };
    crate::numtext::lemma_dec_fixed_props(ohn, 2);
    assert(ser_off_hour(t.offset_hour).len() == if t.offset_hour < 0 {
        3int
    } else {
        2int
    });
    assert(ser.len() == if t.offset_hour < 0 {
        29int
    } else {
        28int
    });
    assert forall|k: int| 0 <= k < ser.len() implies s[i + k] == #[trigger] ser[k] by {
        assert(s.subrange(i, i + ser.len())[k] == s[i + k]);
    }
    assert(pow10(2) == 100 && pow10(3) == 1000 && pow10(4) == 10000) by {
        reveal_with_fuel(pow10, 5);
    }
    assert(s.subrange(i + 0, i + 4) =~= dec_fixed(t.year as nat, 4)) by {
        assert forall|m: int| 0 <= m < 4 implies s.subrange(i + 0, i + 4)[m]
            == dec_fixed(t.year as nat, 4)[m] by {
            assert(ser[0 + m] == dec_fixed(t.year as nat, 4)[m]);
            assert(s[i + (0 + m)] == ser[0 + m]);
        }
    }
    lemma_sp_fixed_of_ser(s, i + 0, t.year as nat, 4);
    assert(s.subrange(i + 5, i + 7) =~= dec_fixed(t.month as nat, 2)) by {
        assert forall|m: int| 0 <= m < 2 implies s.subrange(i + 5, i + 7)[m]
            == dec_fixed(t.month as nat, 2)[m] by {
            assert(ser[5 + m] == dec_fixed(t.month as nat, 2)[m]);
            assert(s[i + (5 + m)] == ser[5 + m]);
        }
    }
    lemma_sp_fixed_of_ser(s, i + 5, t.month as nat, 2);
    assert(s.subrange(i + 8, i + 10) =~= dec_fixed(t.day as nat, 2)) by {
        assert forall|m: int| 0 <= m < 2 implies s.subrange(i + 8, i + 10)[m]
            == dec_fixed(t.day as nat, 2)[m] by {
            assert(ser[8 + m] == dec_fixed(t.day as nat, 2)[m]);
            assert(s[i + (8 + m)] == ser[8 + m]);
        }
    }
    lemma_sp_fixed_of_ser(s, i + 8, t.day as nat, 2);
    assert(s.subrange(i + 11, i + 13) =~= dec_fixed(t.hour as nat, 2)) by {
        assert forall|m: int| 0 <= m < 2 implies s.subrange(i + 11, i + 13)[m]
            == dec_fixed(t.hour as nat, 2)[m] by {
            assert(ser[11 + m] == dec_fixed(t.hour as nat, 2)[m]);
            assert(s[i + (11 + m)] == ser[11 + m]);
        }
    }
    lemma_sp_fixed_of_ser(s, i + 11, t.hour as nat, 2);
    assert(s.subrange(i + 14, i + 16) =~= dec_fixed(t.minute as nat, 2)) by {
        assert forall|m: int| 0 <= m < 2 implies s.subrange(i + 14, i + 16)[m]
            == dec_fixed(t.minute as nat, 2)[m] by {
            assert(ser[14 + m] == dec_fixed(t.minute as nat, 2)[m]);
            assert(s[i + (14 + m)] == ser[14 + m]);
        }
    }
    lemma_sp_fixed_of_ser(s, i + 14, t.minute as nat, 2);
    assert(s.subrange(i + 17, i + 19) =~= dec_fixed(t.second as nat, 2)) by {
        assert forall|m: int| 0 <= m < 2 implies s.subrange(i + 17, i + 19)[m]
            == dec_fixed(t.second as nat, 2)[m] by {
            assert(ser[17 + m] == dec_fixed(t.second as nat, 2)[m]);
            assert(s[i + (17 + m)] == ser[17 + m]);
        }
    }
    lemma_sp_fixed_of_ser(s, i + 17, t.second as nat, 2);
    assert(s.subrange(i + 20, i + 23) =~= dec_fixed(t.millisecond as nat, 3)) by {
        assert forall|m: int| 0 <= m < 3 implies s.subrange(i + 20, i + 23)[m]
            == dec_fixed(t.millisecond as nat, 3)[m] by {
            assert(ser[20 + m] == dec_fixed(t.millisecond as nat, 3)[m]);
            assert(s[i + (20 + m)] == ser[20 + m]);
        }
    }
    lemma_sp_fixed_of_ser(s, i + 20, t.millisecond as nat, 3);
    assert(s[i + 4] == ser[4]);
    assert(ser[4] == 0x2D);
    assert(s[i + 7] == ser[7]);
    assert(ser[7] == 0x2D);
    assert(s[i + 10] == ser[10]);
    assert(ser[10] == 0x54);
    assert(s[i + 13] == ser[13]);
    assert(ser[13] == 0x3A);
    assert(s[i + 16] == ser[16]);
    assert(ser[16] == 0x3A);
    assert(s[i + 19] == ser[19]);
    assert(ser[19] == 0x2E);
    if t.offset_hour < 0 {
        assert(s[i + 23] == ser[23]);
        assert(ser[23] == 0x2D);
        assert(s.subrange(i + 24, i + 26) =~= dec_fixed(ohn, 2)) by {
            assert forall|m: int| 0 <= m < 2 implies s.subrange(i + 24, i + 26)[m] == dec_fixed(
                ohn,
                2,
            )[m] by {
                assert(ser[24 + m] == dec_fixed(ohn, 2)[m]);
                assert(s[i + (24 + m)] == ser[24 + m]);
            }
        }
        lemma_sp_fixed_of_ser(s, i + 24, ohn, 2);
        assert(s[i + 26] == ser[26]);
        assert(ser[26] == 0x3A);
        assert(s.subrange(i + 27, i + 29) =~= dec_fixed(t.offset_minute as nat, 2)) by {
            assert forall|m: int| 0 <= m < 2 implies s.subrange(i + 27, i + 29)[m] == dec_fixed(
                t.offset_minute as nat,
                2,
            )[m] by {
                assert(ser[27 + m] == dec_fixed(t.offset_minute as nat, 2)[m]);
                assert(s[i + (27 + m)] == ser[27 + m]);
            }
        }
        lemma_sp_fixed_of_ser(s, i + 27, t.offset_minute as nat, 2);
    } else {
        assert(s[i + 23] == ser[23]);
        assert(ser[23] == dec_fixed(ohn, 2)[0]);
        assert(is_digit(dec_fixed(ohn, 2)[0]));
        assert(s[i + 23] != 0x2D);
        assert(s.subrange(i + 23, i + 25) =~= dec_fixed(ohn, 2)) by {
            assert forall|m: int| 0 <= m < 2 implies s.subrange(i + 23, i + 25)[m] == dec_fixed(
                ohn,
                2,
            )[m] by {
                assert(ser[23 + m] == dec_fixed(ohn, 2)[m]);
                assert(s[i + (23 + m)] == ser[23 + m]);
            }
        }
        lemma_sp_fixed_of_ser(s, i + 23, ohn, 2);
        assert(s[i + 25] == ser[25]);
        assert(ser[25] == 0x3A);
        assert(s.subrange(i + 26, i + 28) =~= dec_fixed(t.offset_minute as nat, 2)) by {
            assert forall|m: int| 0 <= m < 2 implies s.subrange(i + 26, i + 28)[m] == dec_fixed(
                t.offset_minute as nat,
                2,
            )[m] by {
                assert(ser[26 + m] == dec_fixed(t.offset_minute as nat, 2)[m]);
                assert(s[i + (26 + m)] == ser[26 + m]);
            }
        }
        lemma_sp_fixed_of_ser(s, i + 26, t.offset_minute as nat, 2);
    }
}

/// Appends the text of a timestamp.
pub fn write_ts(out: &mut Vec<u8>, t: &Timestamp)
    requires
        t.wf(),
    ensures
        final(out)@ == old(out)@ + ser_ts(*t),
{
    proof {
        reveal(ser_ts);
    }
    proof {
        assert(pow10(2) == 100 && pow10(3) == 1000 && pow10(4) == 10000) by {
            reveal_with_fuel(pow10, 5);
        }
    }
    write_fixed(out, t.year as u32, 4);
    out.push(0x2D);
    write_fixed(out, t.month as u32, 2);
    out.push(0x2D);
    write_fixed(out, t.day as u32, 2);
    out.push(0x54);
    write_fixed(out, t.hour as u32, 2);
    out.push(0x3A);
    write_fixed(out, t.minute as u32, 2);
    out.push(0x3A);
    write_fixed(out, t.second as u32, 2);
    out.push(0x2E);
    write_fixed(out, t.millisecond as u32, 3);
    if t.offset_hour < 0 {
        out.push(0x2D);
        write_fixed(out, (0 - t.offset_hour as i32) as u32, 2);
    } else {
        write_fixed(out, t.offset_hour as u32, 2);
    }
    out.push(0x3A);
    write_fixed(out, t.offset_minute as u32, 2);
    proof {
        assert(final(out)@ =~= old(out)@ + ser_ts(*t));
    }
}

/// Reads a timestamp, as `sp_ts` says.
pub fn parse_ts(s: &Vec<u8>, i: usize) -> (r: Option<(Timestamp, usize)>)
    requires
        i <= s@.len(),
    ensures
        match r {
            Some((t, j)) => i < j <= s@.len() && sp_ts(s@, i as int) == Some((t, j as int))
                && t.wf(),
            None => sp_ts(s@, i as int) is None,
        },
{
    proof {
        reveal(sp_ts);
    }
    let y = match parse_fixed(s, i, 4) {
        Some(v) => v,
        None => {
            return None;
        },
    };
    if s.len() - i < 24 {
        return None;
    }
    let mo = match parse_fixed(s, i + 5, 2) {
        Some(v) => v,
        None => {
            return None;
        },
    };
    let d = match parse_fixed(s, i + 8, 2) {
        Some(v) => v,
        None => {
            return None;
        },
    };
    if !(s[i + 4] == 0x2D && s[i + 7] == 0x2D && s[i + 10] == 0x54 && s[i + 13] == 0x3A && s[i + 16]
        == 0x3A && s[i + 19] == 0x2E) {
        return None;
    }
    let h = match parse_fixed(s, i + 11, 2) {
        Some(v) => v,
        None => {
            return None;
        },
    };
    let mi = match parse_fixed(s, i + 14, 2) {
        Some(v) => v,
        None => {
            return None;
        },
    };
    let sec = match parse_fixed(s, i + 17, 2) {
        Some(v) => v,
        None => {
            return None;
        },
    };
    let ms = match parse_fixed(s, i + 20, 3) {
        Some(v) => v,
        None => {
            return None;
        },
    };
    let neg = s[i + 23] == 0x2D;
    let ohpos: usize = if neg {
        i + 24
    } else {
        i + 23
    };
    if s.len() - ohpos < 5 {
        return None;
    }
    let oh = match parse_fixed(s, ohpos, 2) {
        Some(v) => v,
        None => {
            return None;
        },
    };
    let om = match parse_fixed(s, ohpos + 3, 2) {
        Some(v) => v,
        None => {
            return None;
        },
    };
    if s[ohpos + 2] != 0x3A {
        return None;
    }
    if !(1 <= mo && mo <= 12 && 1 <= d && d <= 31 && h <= 23 && mi <= 59 && sec <= 59 && oh <= 23
        && om <= 59 && (!neg || oh > 0)) {
        return None;
    }
    proof {
        assert(pow10(2) == 100 && pow10(3) == 1000 && pow10(4) == 10000) by {
            reveal_with_fuel(pow10, 5);
        }
        crate::numtext::lemma_dec_val_bound(s@.subrange(i as int, i as int + 4));
        crate::numtext::lemma_dec_val_bound(s@.subrange(i as int + 20, i as int + 23));
    }
    let t = Timestamp {
        year: y as u16,
        month: mo as u8,
        day: d as u8,
        hour: h as u8,
        minute: mi as u8,
        second: sec as u8,
        millisecond: ms as u16,
        offset_hour: if neg {
            0 - oh as i8
        } else {
            oh as i8
        },
        offset_minute: om as u8,
    };
    Some((t, ohpos + 5))
}

/// The text of an IPv4 `host:port` address.
pub open spec fn ser_addr(a: NetAddr) -> Seq<u8> {
    dec_digits(a.ip0 as nat) + seq![0x2Eu8] + dec_digits(a.ip1 as nat) + seq![0x2Eu8] + dec_digits(
        a.ip2 as nat,
    ) + seq![0x2Eu8] + dec_digits(a.ip3 as nat) + seq![0x3Au8] + dec_digits(a.port as nat)
}

/// Reads an address: four dotted octets, a colon, a port.
pub open spec fn sp_addr(s: Seq<u8>, i: int) -> Option<(NetAddr, int)> {
    match sp_u32(s, i) {
        Some((o0, p0)) => if o0 <= 255 && p0 < s.len() && s[p0] == 0x2E {
            match sp_u32(s, p0 + 1) {
                Some((o1, p1)) => if o1 <= 255 && p1 < s.len() && s[p1] == 0x2E {
                    match sp_u32(s, p1 + 1) {
                        Some((o2, p2)) => if o2 <= 255 && p2 < s.len() && s[p2] == 0x2E {
                            match sp_u32(s, p2 + 1) {
                                Some((o3, p3)) => if o3 <= 255 && p3 < s.len() && s[p3] == 0x3A {
                                    match sp_u32(s, p3 + 1) {
                                        Some((port, p4)) => if port <= 65535 {
                                            Some(
                                                (
                                                    NetAddr {
                                                        ip0: o0 as u8,
                                                        ip1: o1 as u8,
                                                        ip2: o2 as u8,
                                                        ip3: o3 as u8,
                                                        port: port as u16,
                                                    },
                                                    p4,
                                                ),
                                            )
                                        } else {
                                            None
                                        },
                                        None => None,
                                    }
                                } else {
                                    None
                                },
                                None => None,
                            }
                        } else {
                            None
                        },
                        None => None,
                    }
                } else {
                    None
                },
                None => None,
            }
        } else {
            None
        },
        None => None,
    }
}

/// Parsing an address right after writing it, with something other
/// than a digit right after the port.
#[verifier::rlimit(100)]
pub proof fn lemma_sp_addr_of_ser(s: Seq<u8>, i: int, a: NetAddr)
    requires
        0 <= i,
        i + ser_addr(a).len() <= s.len(),
        s.subrange(i, i + ser_addr(a).len()) == ser_addr(a),
        i + ser_addr(a).len() == s.len() || !is_digit(s[i + ser_addr(a).len()]),
    ensures
        sp_addr(s, i) == Some((a, i + ser_addr(a).len())),
{
    let ser = ser_addr(a);
    assert forall|k: int| 0 <= k < ser.len() implies s[i + k] == #[trigger] ser[k] by {
        assert(s.subrange(i, i + ser.len())[k] == s[i + k]);
    }
    let d0 = dec_digits(a.ip0 as nat);
    let d1 = dec_digits(a.ip1 as nat);
    let d2 = dec_digits(a.ip2 as nat);
    let d3 = dec_digits(a.ip3 as nat);
    let dp = dec_digits(a.port as nat);
    let n0 = d0.len() as int;
    let n1 = d1.len() as int;
    let n2 = d2.len() as int;
    let n3 = d3.len() as int;
    let np = dp.len() as int;
    let p0 = i + n0;
    let p1 = p0 + 1 + n1;
    let p2 = p1 + 1 + n2;
    let p3 = p2 + 1 + n3;
    let p4 = p3 + 1 + np;
    assert(s.subrange(i, p0) =~= d0) by {
        assert forall|m: int| 0 <= m < n0 implies s.subrange(i, p0)[m] == d0[m] by {
            assert(ser[m] == d0[m]);
            assert(s[i + m] == ser[m]);
        }
    }
    assert(s[i + n0] == ser[n0]);
    assert(ser[n0] == 0x2E);
    lemma_sp_u32_of_ser(s, i, a.ip0 as u32);
    assert(s.subrange(p0 + 1, p1) =~= d1) by {
        assert forall|m: int| 0 <= m < n1 implies s.subrange(p0 + 1, p1)[m] == d1[m] by {
            assert(ser[n0 + 1 + m] == d1[m]);
            assert(s[i + (n0 + 1 + m)] == ser[n0 + 1 + m]);
        }
    }
    assert(s[i + (n0 + 1 + n1)] == ser[n0 + 1 + n1]);
    assert(ser[n0 + 1 + n1] == 0x2E);
    assert(s[p1] == 0x2E);
    lemma_sp_u32_of_ser(s, p0 + 1, a.ip1 as u32);
    assert(s.subrange(p1 + 1, p2) =~= d2) by {
        assert forall|m: int| 0 <= m < n2 implies s.subrange(p1 + 1, p2)[m] == d2[m] by {
            assert(ser[n0 + 1 + n1 + 1 + m] == d2[m]);
            assert(s[i + (n0 + 1 + n1 + 1 + m)] == ser[n0 + 1 + n1 + 1 + m]);
        }
    }
    assert(s[i + (n0 + 1 + n1 + 1 + n2)] == ser[n0 + 1 + n1 + 1 + n2]);
    assert(ser[n0 + 1 + n1 + 1 + n2] == 0x2E);
    assert(s[p2] == 0x2E);
    lemma_sp_u32_of_ser(s, p1 + 1, a.ip2 as u32);
    assert(s.subrange(p2 + 1, p3) =~= d3) by {
        assert forall|m: int| 0 <= m < n3 implies s.subrange(p2 + 1, p3)[m] == d3[m] by {
            assert(ser[n0 + 1 + n1 + 1 + n2 + 1 + m] == d3[m]);
            assert(s[i + (n0 + 1 + n1 + 1 + n2 + 1 + m)] == ser[n0 + 1 + n1 + 1 + n2 + 1 + m]);
        }
    }
    assert(s[i + (n0 + 1 + n1 + 1 + n2 + 1 + n3)] == ser[n0 + 1 + n1 + 1 + n2 + 1 + n3]);
    assert(ser[n0 + 1 + n1 + 1 + n2 + 1 + n3] == 0x3A);
    assert(s[p3] == 0x3A);
    lemma_sp_u32_of_ser(s, p2 + 1, a.ip3 as u32);
    assert(s.subrange(p3 + 1, p4) =~= dp) by {
        assert forall|m: int| 0 <= m < np implies s.subrange(p3 + 1, p4)[m] == dp[m] by {
            assert(ser[n0 + 1 + n1 + 1 + n2 + 1 + n3 + 1 + m] == dp[m]);
            assert(s[i + (n0 + 1 + n1 + 1 + n2 + 1 + n3 + 1 + m)] == ser[n0 + 1 + n1 + 1 + n2 + 1
                + n3 + 1 + m]);
        }
    }
    lemma_sp_u32_of_ser(s, p3 + 1, a.port as u32);
}

/// Appends the text of an address.
pub fn write_addr(out: &mut Vec<u8>, a: &NetAddr)
    ensures
        final(out)@ == old(out)@ + ser_addr(*a),
{
    write_u32(out, a.ip0 as u32);
    out.push(0x2E);
    write_u32(out, a.ip1 as u32);
    out.push(0x2E);
    write_u32(out, a.ip2 as u32);
    out.push(0x2E);
    write_u32(out, a.ip3 as u32);
    out.push(0x3A);
    write_u32(out, a.port as u32);
    proof {
        assert(final(out)@ =~= old(out)@ + ser_addr(*a));
    }
}

/// Reads an address, as `sp_addr` says.
pub fn parse_addr(s: &Vec<u8>, i: usize) -> (r: Option<(NetAddr, usize)>)
    requires
        i <= s@.len(),
    ensures
        match r {
            Some((a, j)) => i < j <= s@.len() && sp_addr(s@, i as int) == Some((a, j as int)),
            None => sp_addr(s@, i as int) is None,
        },
{
    let (o0, p0) = match parse_u32(s, i) {
        Some(v) => v,
        None => {
            return None;
        },
    };
    if !(o0 <= 255 && p0 < s.len() && s[p0] == 0x2E) {
        return None;
    }
    let (o1, p1) = match parse_u32(s, p0 + 1) {
        Some(v) => v,
        None => {
            return None;
        },
    };
    if !(o1 <= 255 && p1 < s.len() && s[p1] == 0x2E) {
        return None;
    }
    let (o2, p2) = match parse_u32(s, p1 + 1) {
        Some(v) => v,
        None => {
            return None;
        },
    };
    if !(o2 <= 255 && p2 < s.len() && s[p2] == 0x2E) {
        return None;
    }
    let (o3, p3) = match parse_u32(s, p2 + 1) {
        Some(v) => v,
        None => {
            return None;
        },
    };
    if !(o3 <= 255 && p3 < s.len() && s[p3] == 0x3A) {
        return None;
    }
    let (port, p4) = match parse_u32(s, p3 + 1) {
        Some(v) => v,
        None => {
            return None;
        },
    };
    if port > 65535 {
        return None;
    }
    Some(
        (
            NetAddr { ip0: o0 as u8, ip1: o1 as u8, ip2: o2 as u8, ip3: o3 as u8, port: port as u16 },
            p4,
        ),
    )
}

/// The JSON string token of a character string: its UTF-8 bytes,
/// escaped and quoted.
pub open spec fn ser_qstr(q: Seq<char>) -> Seq<u8> {
    ser_jstring(encode_utf8(q))
}

/// Reads a JSON string token and decodes its bytes as UTF-8.
pub open spec fn sp_qstr(s: Seq<u8>, i: int) -> Option<(Seq<char>, int)> {
    match sp_jstring(s, i) {
        Some((b, j)) => if valid_utf8(b) {
            Some((decode_utf8(b), j))
        } else {
            None
        },
        None => None,
    }
}

/// Parsing a quoted string right after writing it.
pub proof fn lemma_sp_qstr_of_ser(s: Seq<u8>, i: int, q: Seq<char>)
    requires
        0 <= i,
        i + ser_qstr(q).len() <= s.len(),
        s.subrange(i, i + ser_qstr(q).len()) == ser_qstr(q),
    ensures
        sp_qstr(s, i) == Some((q, i + ser_qstr(q).len())),
{
    lemma_sp_jstring_of_ser(s, i, encode_utf8(q));
}

/// Appends the JSON string token of a character string.
pub fn write_qstr(out: &mut Vec<u8>, st: &str)
    ensures
        final(out)@ == old(out)@ + ser_qstr(st@),
{
    let bytes = str_to_bytes(st);
    write_jstring(out, &bytes);
}

/// Reads a quoted string, as `sp_qstr` says.
pub fn parse_qstr(s: &Vec<u8>, i: usize) -> (r: Option<(String, usize)>)
    requires
        i <= s@.len(),
    ensures
        match r {
            Some((v, j)) => i < j <= s@.len() && sp_qstr(s@, i as int) == Some((v@, j as int)),
            None => sp_qstr(s@, i as int) is None,
        },
{
    match parse_jstring(s, i) {
        Some((b, j)) => {
            match bytes_to_string(b) {
                Some(v) => Some((v, j)),
                None => None,
            }
        },
        None => None,
    }
}

/// Reads a boolean literal.
pub open spec fn sp_bool(s: Seq<u8>, i: int) -> Option<(bool, int)> {
    match crate::wiretok::sp_lit(s, i, crate::wiretok::t_true()) {
        Some(j) => Some((true, j)),
        None => match crate::wiretok::sp_lit(s, i, crate::wiretok::t_false()) {
            Some(j) => Some((false, j)),
            None => None,
        },
    }
}

/// Appends a boolean literal.
pub fn write_bool(out: &mut Vec<u8>, b: bool)
    ensures
        final(out)@ == old(out)@ + if b {
            crate::wiretok::t_true()
        } else {
            crate::wiretok::t_false()
        },
{
    if b {
        out.push(0x74);
        out.push(0x72);
        out.push(0x75);
        out.push(0x65);
    } else {
        out.push(0x66);
        out.push(0x61);
        out.push(0x6C);
        out.push(0x73);
        out.push(0x65);
    }
    proof {
        if b {
            assert(final(out)@ =~= old(out)@ + crate::wiretok::t_true());
        } else {
            assert(final(out)@ =~= old(out)@ + crate::wiretok::t_false());
        }
    }
}

/// Parsing a boolean literal right after writing it.
pub proof fn lemma_sp_bool_of_ser(s: Seq<u8>, i: int, b: bool)
    requires
        0 <= i,
        ({
            let lit = if b {
                crate::wiretok::t_true()
            } else {
                crate::wiretok::t_false()
            };
            i + lit.len() <= s.len() && s.subrange(i, i + lit.len()) == lit
        }),
    ensures
        ({
            let lit = if b {
                crate::wiretok::t_true()
            } else {
                crate::wiretok::t_false()
            };
            sp_bool(s, i) == Some((b, i + lit.len()))
        }),
{
    let lit = if b {
        crate::wiretok::t_true()
    } else {
        crate::wiretok::t_false()
    };
    assert forall|k: int| 0 <= k < lit.len() implies s[i + k] == lit[k] by {
        assert(s.subrange(i, i + lit.len())[k] == s[i + k]);
    }
    if !b {
        crate::wiretok::lemma_lit_differs(s, i, lit, crate::wiretok::t_true(), 0);
    }
}

/// Reads a boolean, as `sp_bool` says.
pub fn parse_bool(s: &Vec<u8>, i: usize) -> (r: Option<(bool, usize)>)
    requires
        i <= s@.len(),
    ensures
        match r {
            Some((b, j)) => i < j <= s@.len() && sp_bool(s@, i as int) == Some((b, j as int)),
            None => sp_bool(s@, i as int) is None,
        },
{
    let tt = crate::wiretok::tv_true();
    match crate::wiretok::expect(s, i, &tt) {
        Some(j) => Some((true, j)),
        None => {
            let ff = crate::wiretok::tv_false();
            match crate::wiretok::expect(s, i, &ff) {
                Some(j) => Some((false, j)),
                None => None,
            }
        },
    }
}

} // verus!
