//! The tagged JSON frames of the peer and front-end protocols.
//!
//! Every frame is the JSON encoding of one protocol value: variant
//! names tag the unions, payload fields follow in one fixed order, and
//! the scalar forms come from [`crate::wiretext`].  Each shape has a
//! spec writer `ser_*`, a spec reader `sp_*`, a round-trip lemma
//! `lemma_sp_*_of_ser` saying the reader reads back exactly what the
//! writer wrote, and an executable pair that refines the two.

use vstd::prelude::*;
use crate::numtext::{dec_digits, is_digit, parse_u32, sp_u32, write_u32, lemma_sp_u32_of_ser};
use crate::proto::{
    B2FRequestView, B2FResponseView, BackendToFrontendRequest, BackendToFrontendResponse,
    Connection, ConnectionView, ContentView, InitialRequest, InitialRequestView, Message,
    MessageContent, MessageView, NetAddr, P2PRequestView, P2PResponseView, PeerToPeerRequest,
    PeerToPeerResponse, RefreshRequest,
};
use crate::timestamp::Timestamp;
use crate::wiretext::{
    parse_addr, parse_bool, parse_qstr, parse_ts, ser_addr, ser_qstr, ser_ts, sp_addr, sp_bool,
    sp_qstr, sp_ts, write_addr, write_bool, write_qstr, write_ts, lemma_sp_addr_of_ser,
    lemma_sp_bool_of_ser, lemma_sp_qstr_of_ser, lemma_sp_ts_of_ser,
};
use crate::wiretok::{
    expect, sp_lit, lemma_lit_differs, t_acceptconnection, t_bulkmessage, t_bulkrecieved,
    t_establish, t_frontend, t_invalidrequest, t_killrefresher, t_linkingrequest,
    t_linkingresult_err, t_linkingresult_ok, t_listmessages, t_listpeerconnections,
    t_message_variant, t_messagepeer, t_messageslisted, t_connectionslisted, t_peer, t_pingpeer,
    t_proposeconnection, t_recieved, t_refresh_connection, t_refresh_kill, t_refresh_message,
    t_retryunrecieved, tv_acceptconnection, tv_bulkmessage, tv_bulkrecieved, tv_establish,
    tv_frontend, tv_invalidrequest, tv_killrefresher, tv_linkingrequest, tv_linkingresult_err,
    tv_linkingresult_ok, tv_listmessages, tv_listpeerconnections, tv_message_variant,
    tv_messagepeer, tv_messageslisted, tv_connectionslisted, tv_peer, tv_pingpeer,
    tv_proposeconnection, tv_recieved, tv_refresh_connection, tv_refresh_kill, tv_refresh_message,
    tv_retryunrecieved, t_close_bracket_brace, t_close_qt_brace, t_conn_addr,
    t_conn_name, t_conn_online, t_conn_open, t_conn_self, t_conn_test, t_false, t_file,
    t_msg_content, t_msg_open, t_msg_peer, t_msg_self, t_msg_trecv, t_msg_tsent, t_null, t_text,
    t_true, tv_close_bracket_brace, tv_close_qt_brace, tv_conn_addr, tv_conn_name, tv_conn_online,
    tv_conn_open, tv_conn_self, tv_conn_test, tv_file, tv_msg_content, tv_msg_open, tv_msg_peer,
    tv_msg_self, tv_msg_trecv, tv_msg_tsent, tv_null, tv_text,
};

verus! {

/// A piece of a larger write, cut back out of the byte string it lies
/// in.
pub proof fn lemma_piece(s: Seq<u8>, i: int, ser: Seq<u8>, off: int, part: Seq<u8>)
    requires
        0 <= i,
        i + ser.len() <= s.len(),
        forall|k: int| 0 <= k < ser.len() ==> s[i + k] == #[trigger] ser[k],
        0 <= off,
        off + part.len() <= ser.len(),
        forall|m: int| 0 <= m < part.len() ==> ser[off + m] == #[trigger] part[m],
    ensures
        s.subrange(i + off, i + off + part.len()) == part,
{
    assert forall|m: int| 0 <= m < part.len() implies s.subrange(i + off, i + off + part.len())[m]
        == part[m] by {
        assert(ser[off + m] == part[m]);
        assert(s[i + (off + m)] == ser[off + m]);
    }
    assert(s.subrange(i + off, i + off + part.len()) =~= part);
}


/// A write of two parts, cut back into the two parts.
pub proof fn lemma_split2(s: Seq<u8>, i: int, x: Seq<u8>, y: Seq<u8>)
    requires
        0 <= i,
        i + x.len() + y.len() <= s.len(),
        s.subrange(i, i + x.len() + y.len()) == x + y,
    ensures
        s.subrange(i, i + x.len()) == x,
        s.subrange(i + x.len(), i + x.len() + y.len()) == y,
{
    assert forall|m: int| 0 <= m < x.len() implies s.subrange(i, i + x.len())[m] == x[m] by {
        assert(s.subrange(i, i + x.len() + y.len())[m] == (x + y)[m]);
    }
    assert(s.subrange(i, i + x.len()) =~= x);
    assert forall|m: int| 0 <= m < y.len() implies s.subrange(
        i + x.len(),
        i + x.len() + y.len(),
    )[m] == y[m] by {
        assert((x + y)[x.len() + m] == y[m]);
        assert(s.subrange(i, i + x.len() + y.len())[x.len() + m] == (x + y)[x.len() + m]);
        assert(s.subrange(i, i + x.len() + y.len())[x.len() + m] == s[i + (x.len() + m)]);
        assert(s.subrange(i + x.len(), i + x.len() + y.len())[m] == s[i + x.len() + m]);
    }
    assert(s.subrange(i + x.len(), i + x.len() + y.len()) =~= y);
}

/// The comma-separated items of a non-empty number list.
pub open spec fn ser_numitems(vals: Seq<u32>) -> Seq<u8>
    decreases vals.len(),
{
    if vals.len() <= 1 {
        dec_digits(vals[0] as nat)
    } else {
        ser_numitems(vals.drop_last()) + seq![0x2Cu8] + dec_digits(vals.last() as nat)
    }
}

/// A JSON array of numbers.
pub open spec fn ser_numarr(vals: Seq<u32>) -> Seq<u8> {
    if vals.len() == 0 {
        seq![0x5Bu8, 0x5Du8]
    } else {
        seq![0x5Bu8] + ser_numitems(vals) + seq![0x5Du8]
    }
}

/// The items of a number list, unfolded at the front.
pub proof fn lemma_ser_numitems_front(vals: Seq<u32>)
    requires
        vals.len() >= 1,
    ensures
        ser_numitems(vals) == if vals.len() == 1 {
            dec_digits(vals[0] as nat)
        } else {
            dec_digits(vals[0] as nat) + seq![0x2Cu8] + ser_numitems(vals.drop_first())
        },
    decreases vals.len(),
{
    if vals.len() > 1 {
        lemma_ser_numitems_front(vals.drop_last());
        if vals.len() == 2 {
            assert(vals.drop_last().len() == 1);
            assert(vals.drop_first().len() == 1);
            assert(vals.drop_first()[0] == vals.last());
            assert(ser_numitems(vals) =~= dec_digits(vals[0] as nat) + seq![0x2Cu8]
                + ser_numitems(vals.drop_first()));
        } else {
            assert(vals.drop_last()[0] == vals[0]);
            assert(vals.drop_last().drop_first() =~= vals.drop_first().drop_last());
            assert(vals.drop_first().last() == vals.last());
            assert(ser_numitems(vals.drop_first()) == ser_numitems(vals.drop_first().drop_last())
                + seq![0x2Cu8] + dec_digits(vals.drop_first().last() as nat));
            assert(ser_numitems(vals) =~= dec_digits(vals[0] as nat) + seq![0x2Cu8]
                + ser_numitems(vals.drop_first()));
        }
    }
}

/// Reads comma-separated numbers up to and through the closing
/// bracket.
pub open spec fn sp_numitems(s: Seq<u8>, i: int) -> Option<(Seq<u32>, int)>
    decreases s.len() - i,
{
    match sp_u32(s, i) {
        Some((v, j)) => {
            if j < s.len() && s[j] == 0x2C {
                let next = if j + 1 > i + 1 {
                    j + 1
                } else {
                    i + 1
                };
                if next <= s.len() {
                    match sp_numitems(s, next) {
                        Some((rest, e)) => Some((seq![v] + rest, e)),
                        None => None,
                    }
                } else {
                    None
                }
            } else if j < s.len() && s[j] == 0x5D {
                Some((seq![v], j + 1))
            } else {
                None
            }
        },
        None => None,
    }
}

/// Reads a JSON array of numbers.
pub open spec fn sp_numarr(s: Seq<u8>, i: int) -> Option<(Seq<u32>, int)> {
    if 0 <= i < s.len() && s[i] == 0x5B {
        if i + 1 < s.len() && s[i + 1] == 0x5D {
            Some((Seq::empty(), i + 2))
        } else {
            sp_numitems(s, i + 1)
        }
    } else {
        None
    }
}

/// Reading the items of a non-empty list right after writing them,
/// with the closing bracket right after.
pub proof fn lemma_sp_numitems_of_ser(s: Seq<u8>, i: int, vals: Seq<u32>)
    requires
        vals.len() >= 1,
        0 <= i,
        i + ser_numitems(vals).len() + 1 <= s.len(),
        s.subrange(i, i + ser_numitems(vals).len()) == ser_numitems(vals),
        s[i + ser_numitems(vals).len()] == 0x5D,
    ensures
        sp_numitems(s, i) == Some((vals, i + ser_numitems(vals).len() + 1)),
    decreases vals.len(),
{
    let ser = ser_numitems(vals);
    lemma_ser_numitems_front(vals);
    crate::numtext::lemma_dec_digits_props(vals[0] as nat);
    let d0 = dec_digits(vals[0] as nat);
    assert forall|k: int| 0 <= k < ser.len() implies s[i + k] == #[trigger] ser[k] by {
        assert(s.subrange(i, i + ser.len())[k] == s[i + k]);
    }
    assert(forall|m: int| 0 <= m < d0.len() ==> ser[0 + m] == #[trigger] d0[m]);
    lemma_piece(s, i, ser, 0, d0);
    assert(s.subrange(i + 0, i + d0.len() as int) == d0);
    let j = i + d0.len() as int;
    if vals.len() == 1 {
        assert(s[j] == 0x5D);
        lemma_sp_u32_of_ser(s, i, vals[0]);
        assert(seq![vals[0]] =~= vals);
    } else {
        let rest = ser_numitems(vals.drop_first());
        assert(ser[d0.len() as int] == 0x2C);
        assert(s[i + d0.len() as int] == ser[d0.len() as int]);
        assert(s[j] == 0x2C);
        lemma_sp_u32_of_ser(s, i, vals[0]);
        assert(forall|m: int| 0 <= m < rest.len() ==> ser[d0.len() + 1 + m] == #[trigger] rest[m]);
        lemma_piece(s, i, ser, d0.len() as int + 1, rest);
        assert(s[i + ser.len()] == 0x5D);
        assert(i + (d0.len() + 1) + rest.len() == i + ser.len());
        lemma_sp_numitems_of_ser(s, j + 1, vals.drop_first());
        assert(seq![vals[0]] + vals.drop_first() =~= vals);
    }
}

/// Parsing a number array right after writing it.
pub proof fn lemma_sp_numarr_of_ser(s: Seq<u8>, i: int, vals: Seq<u32>)
    requires
        0 <= i,
        i + ser_numarr(vals).len() <= s.len(),
        s.subrange(i, i + ser_numarr(vals).len()) == ser_numarr(vals),
    ensures
        sp_numarr(s, i) == Some((vals, i + ser_numarr(vals).len())),
{
    let ser = ser_numarr(vals);
    assert forall|k: int| 0 <= k < ser.len() implies s[i + k] == #[trigger] ser[k] by {
        assert(s.subrange(i, i + ser.len())[k] == s[i + k]);
    }
    assert(s[i + 0] == ser[0]);
    assert(ser[0] == 0x5B);
    if vals.len() == 0 {
        assert(s[i + 1] == ser[1]);
        assert(ser[1] == 0x5D);
        assert(sp_numarr(s, i) == Some((Seq::<u32>::empty(), i + 2)));
        assert(vals =~= Seq::<u32>::empty());
    } else {
        let items = ser_numitems(vals);
        lemma_ser_numitems_front(vals);
        crate::numtext::lemma_dec_digits_props(vals[0] as nat);
        assert(ser[1] == items[0]);
        assert(items[0] == dec_digits(vals[0] as nat)[0]);
        assert(is_digit(ser[1]));
        assert(s[i + 1] == ser[1]);
        assert(s[i + 1] != 0x5D);
        assert(forall|m: int| 0 <= m < items.len() ==> ser[1 + m] == #[trigger] items[m]);
        lemma_piece(s, i, ser, 1, items);
        assert(ser[1 + items.len() as int] == 0x5D);
        assert(s[i + (1 + items.len() as int)] == ser[1 + items.len() as int]);
        lemma_sp_numitems_of_ser(s, i + 1, vals);
    }
}

/// Appends a JSON array of numbers.
pub fn write_numarr(out: &mut Vec<u8>, vals: &Vec<u32>)
    ensures
        final(out)@ == old(out)@ + ser_numarr(vals@),
{
    out.push(0x5B);
    if vals.len() == 0 {
        out.push(0x5D);
        proof {
            assert(final(out)@ =~= old(out)@ + ser_numarr(vals@));
        }
        return ;
    }
    let mut k: usize = 0;
    while k < vals.len()
        invariant
            vals@.len() >= 1,
            k <= vals@.len(),
            k == 0 ==> out@ == old(out)@ + seq![0x5Bu8],
            k >= 1 ==> out@ == old(out)@ + seq![0x5Bu8] + ser_numitems(vals@.take(k as int)),
        decreases vals@.len() - k,
    {
        if k > 0 {
            out.push(0x2C);
        }
        write_u32(out, vals[k]);
        proof {
            let tk1 = vals@.take(k as int + 1);
            assert(tk1.drop_last() =~= vals@.take(k as int));
            assert(tk1.last() == vals@[k as int]);
            if k == 0 {
                assert(tk1.len() == 1);
                assert(tk1[0] == vals@[0]);
                assert(out@ =~= old(out)@ + seq![0x5Bu8] + ser_numitems(tk1));
            } else {
                assert(out@ =~= old(out)@ + seq![0x5Bu8] + ser_numitems(tk1));
            }
        }
        k += 1;
    }
    out.push(0x5D);
    proof {
        assert(vals@.take(vals@.len() as int) =~= vals@);
        assert(final(out)@ =~= old(out)@ + ser_numarr(vals@));
    }
}

/// Reads a JSON array of numbers, as `sp_numarr` says.
pub fn parse_numarr(s: &Vec<u8>, i: usize) -> (r: Option<(Vec<u32>, usize)>)
    requires
        i <= s@.len(),
    ensures
        match r {
            Some((v, j)) => i < j <= s@.len() && sp_numarr(s@, i as int) == Some((v@, j as int)),
            None => sp_numarr(s@, i as int) is None,
        },
{
    if i >= s.len() || s[i] != 0x5B {
        return None;
    }
    if i + 1 < s.len() && s[i + 1] == 0x5D {
        let empty: Vec<u32> = Vec::new();
        proof {
            assert(empty@ =~= Seq::<u32>::empty());
        }
        return Some((empty, i + 2));
    }
    let mut acc: Vec<u32> = Vec::new();
    let mut p: usize = i + 1;
    proof {
        let r0 = sp_numitems(s@, i as int + 1);
        match r0 {
            Some((rest, e)) => {
                assert(acc@ + rest =~= rest);
            },
            None => {},
        }
    }
    loop
        invariant
            i + 1 <= p <= s@.len(),
            i < s@.len(),
            s@[i as int] == 0x5B,
            !(i as int + 1 < s@.len() && s@[i as int + 1] == 0x5D),
            sp_numitems(s@, i as int + 1) == match sp_numitems(s@, p as int) {
                Some((rest, e)) => Some((acc@ + rest, e)),
                None => None::<(Seq<u32>, int)>,
            },
        decreases s@.len() - p,
    {
        let (v, j) = match parse_u32(s, p) {
            Some(x) => x,
            None => {
                return None;
            },
        };
        if j < s.len() && s[j] == 0x2C {
            let ghost prev = acc@;
            acc.push(v);
            proof {
                let rn = sp_numitems(s@, j as int + 1);
                match rn {
                    Some((rest, e)) => {
                        assert(prev + (seq![v] + rest) =~= acc@ + rest);
                    },
                    None => {},
                }
            }
            p = j + 1;
        } else if j < s.len() && s[j] == 0x5D {
            let ghost prev = acc@;
            acc.push(v);
            proof {
                assert(sp_numitems(s@, p as int) == Some((seq![v], j as int + 1)));
                assert(prev + seq![v] =~= acc@);
                assert(sp_numitems(s@, i as int + 1) == Some((acc@, j as int + 1)));
                assert(sp_numarr(s@, i as int) == Some((acc@, j as int + 1)));
            }
            return Some((acc, j + 1));
        } else {
            return None;
        }
    }
}

/// A JSON array of byte values.
pub open spec fn ser_bytearr(b: Seq<u8>) -> Seq<u8> {
    ser_numarr(b.map_values(|x: u8| x as u32))
}

/// Reads a JSON array of byte values: numbers, each below 256.
pub open spec fn sp_bytearr(s: Seq<u8>, i: int) -> Option<(Seq<u8>, int)> {
    match sp_numarr(s, i) {
        Some((vals, j)) => if forall|k: int| 0 <= k < vals.len() ==> (#[trigger] vals[k]) <= 255 {
            Some((vals.map_values(|v: u32| v as u8), j))
        } else {
            None
        },
        None => None,
    }
}

/// Parsing a byte array right after writing it.
pub proof fn lemma_sp_bytearr_of_ser(s: Seq<u8>, i: int, b: Seq<u8>)
    requires
        0 <= i,
        i + ser_bytearr(b).len() <= s.len(),
        s.subrange(i, i + ser_bytearr(b).len()) == ser_bytearr(b),
    ensures
        sp_bytearr(s, i) == Some((b, i + ser_bytearr(b).len())),
{
    let vals = b.map_values(|x: u8| x as u32);
    lemma_sp_numarr_of_ser(s, i, vals);
    assert(vals.map_values(|v: u32| v as u8) =~= b);
}

/// Appends a JSON array of byte values.
pub fn write_bytearr(out: &mut Vec<u8>, b: &Vec<u8>)
    ensures
        final(out)@ == old(out)@ + ser_bytearr(b@),
{
    let mut vals: Vec<u32> = Vec::new();
    let mut k: usize = 0;
    while k < b.len()
        invariant
            k <= b@.len(),
            vals@ == b@.take(k as int).map_values(|x: u8| x as u32),
        decreases b@.len() - k,
    {
        vals.push(b[k] as u32);
        proof {
            assert(vals@ =~= b@.take(k as int + 1).map_values(|x: u8| x as u32));
        }
        k += 1;
    }
    proof {
        assert(b@.take(b@.len() as int) =~= b@);
    }
    write_numarr(out, &vals);
}

/// Reads a JSON array of byte values, as `sp_bytearr` says.
pub fn parse_bytearr(s: &Vec<u8>, i: usize) -> (r: Option<(Vec<u8>, usize)>)
    requires
        i <= s@.len(),
    ensures
        match r {
            Some((v, j)) => i < j <= s@.len() && sp_bytearr(s@, i as int) == Some((v@, j as int)),
            None => sp_bytearr(s@, i as int) is None,
        },
{
    let (vals, j) = match parse_numarr(s, i) {
        Some(x) => x,
        None => {
            return None;
        },
    };
    let mut out: Vec<u8> = Vec::new();
    let mut k: usize = 0;
    while k < vals.len()
        invariant
            i < j <= s@.len(),
            sp_numarr(s@, i as int) == Some((vals@, j as int)),
            k <= vals@.len(),
            forall|l: int| 0 <= l < k ==> (#[trigger] vals@[l]) <= 255,
            out@ == vals@.take(k as int).map_values(|v: u32| v as u8),
        decreases vals@.len() - k,
    {
        if vals[k] > 255 {
            proof {
                assert(vals@[k as int] > 255);
                assert(!(forall|l: int|
                    0 <= l < vals@.len() ==> (#[trigger] vals@[l]) <= 255));
            }
            return None;
        }
        out.push(vals[k] as u8);
        proof {
            assert(out@ =~= vals@.take(k as int + 1).map_values(|v: u32| v as u8));
        }
        k += 1;
    }
    proof {
        assert(vals@.take(vals@.len() as int) =~= vals@);
    }
    Some((out, j))
}

/// `null`, or a quoted timestamp.
pub open spec fn ser_opt_ts(o: Option<Timestamp>) -> Seq<u8> {
    match o {
        None => t_null(),
        Some(t) => seq![0x22u8] + ser_ts(t) + seq![0x22u8],
    }
}

/// Reads `null` or a quoted timestamp.
pub open spec fn sp_opt_ts(s: Seq<u8>, i: int) -> Option<(Option<Timestamp>, int)> {
    match sp_lit(s, i, t_null()) {
        Some(j) => Some((None, j)),
        None => if 0 <= i < s.len() && s[i] == 0x22 {
            match sp_ts(s, i + 1) {
                Some((t, e)) => if e < s.len() && s[e] == 0x22 {
                    Some((Some(t), e + 1))
                } else {
                    None
                },
                None => None,
            }
        } else {
            None
        },
    }
}

/// Parsing an optional timestamp right after writing it.
pub proof fn lemma_sp_opt_ts_of_ser(s: Seq<u8>, i: int, o: Option<Timestamp>)
    requires
        0 <= i,
        (o matches Some(t) ==> t.wf()),
        i + ser_opt_ts(o).len() <= s.len(),
        s.subrange(i, i + ser_opt_ts(o).len()) == ser_opt_ts(o),
    ensures
        sp_opt_ts(s, i) == Some((o, i + ser_opt_ts(o).len())),
{
    let ser = ser_opt_ts(o);
    assert forall|k: int| 0 <= k < ser.len() implies s[i + k] == #[trigger] ser[k] by {
        assert(s.subrange(i, i + ser.len())[k] == s[i + k]);
    }
    match o {
        None => {
            assert(s.subrange(i, i + 4) =~= t_null());
        },
        Some(t) => {
            assert(ser[0] == 0x22);
            assert(s[i + 0] == ser[0]);
            lemma_lit_differs(s, i, ser, t_null(), 0);
            assert(forall|m: int| 0 <= m < ser_ts(t).len() ==> ser[1 + m] == #[trigger] ser_ts(
                t,
            )[m]);
            lemma_piece(s, i, ser, 1, ser_ts(t));
            lemma_sp_ts_of_ser(s, i + 1, t);
            assert(ser[1 + ser_ts(t).len() as int] == 0x22);
            assert(s[i + (1 + ser_ts(t).len() as int)] == ser[1 + ser_ts(t).len() as int]);
        },
    }
}

/// Appends `null` or a quoted timestamp.
pub fn write_opt_ts(out: &mut Vec<u8>, o: &Option<Timestamp>)
    requires
        (*o matches Some(t) ==> t.wf()),
    ensures
        final(out)@ == old(out)@ + ser_opt_ts(*o),
{
    match o {
        None => {
            out.push(0x6E);
            out.push(0x75);
            out.push(0x6C);
            out.push(0x6C);
            proof {
                assert(final(out)@ =~= old(out)@ + ser_opt_ts(*o));
            }
        },
        Some(t) => {
            out.push(0x22);
            write_ts(out, t);
            out.push(0x22);
            proof {
                assert(final(out)@ =~= old(out)@ + ser_opt_ts(*o));
            }
        },
    }
}

/// Reads an optional timestamp, as `sp_opt_ts` says.
pub fn parse_opt_ts(s: &Vec<u8>, i: usize) -> (r: Option<(Option<Timestamp>, usize)>)
    requires
        i <= s@.len(),
    ensures
        match r {
            Some((o, j)) => i < j <= s@.len() && sp_opt_ts(s@, i as int) == Some((o, j as int)) && (
            o matches Some(t) ==> t.wf()),
            None => sp_opt_ts(s@, i as int) is None,
        },
{
    let nl = tv_null();
    match expect(s, i, &nl) {
        Some(j) => Some((None, j)),
        None => {
            if i >= s.len() || s[i] != 0x22 {
                return None;
            }
            let (t, e) = match parse_ts(s, i + 1) {
                Some(x) => x,
                None => {
                    return None;
                },
            };
            if e < s.len() && s[e] == 0x22 {
                Some((Some(t), e + 1))
            } else {
                None
            }
        },
    }
}

/// Pushes a prepared token.
fn push_tok(out: &mut Vec<u8>, tok: &Vec<u8>)
    ensures
        final(out)@ == old(out)@ + tok@,
{
    let mut k: usize = 0;
    while k < tok.len()
        invariant
            k <= tok@.len(),
            out@ == old(out)@ + tok@.take(k as int),
        decreases tok@.len() - k,
    {
        out.push(tok[k]);
        proof {
            assert(out@ =~= old(out)@ + tok@.take(k as int + 1));
        }
        k += 1;
    }
    proof {
        assert(tok@.take(tok@.len() as int) =~= tok@);
    }
}

/// The tagged form of a message content value.
pub open spec fn ser_mcontent(c: ContentView) -> Seq<u8> {
    match c {
        ContentView::Text(txt) => t_text() + ser_qstr(txt) + seq![0x7Du8],
        ContentView::File(n, b) => t_file() + ser_qstr(n) + seq![0x2Cu8] + ser_bytearr(b)
            + t_close_bracket_brace(),
    }
}

/// Reads a tagged message content value.
pub open spec fn sp_mcontent(s: Seq<u8>, i: int) -> Option<(ContentView, int)> {
    match sp_lit(s, i, t_text()) {
        Some(p) => match sp_qstr(s, p) {
            Some((txt, q)) => if q < s.len() && s[q] == 0x7D {
                Some((ContentView::Text(txt), q + 1))
            } else {
                None
            },
            None => None,
        },
        None => match sp_lit(s, i, t_file()) {
            Some(p) => match sp_qstr(s, p) {
                Some((n, q)) => if q < s.len() && s[q] == 0x2C {
                    match sp_bytearr(s, q + 1) {
                        Some((b, e1)) => match sp_lit(s, e1, t_close_bracket_brace()) {
                            Some(e) => Some((ContentView::File(n, b), e)),
                            None => None,
                        },
                        None => None,
                    }
                } else {
                    None
                },
                None => None,
            },
            None => None,
        },
    }
}

/// Parsing a content value right after writing it.
pub proof fn lemma_sp_mcontent_of_ser(s: Seq<u8>, i: int, c: ContentView)
    requires
        0 <= i,
        i + ser_mcontent(c).len() <= s.len(),
        s.subrange(i, i + ser_mcontent(c).len()) == ser_mcontent(c),
    ensures
        sp_mcontent(s, i) == Some((c, i + ser_mcontent(c).len())),
{
    let ser = ser_mcontent(c);
    assert forall|k: int| 0 <= k < ser.len() implies s[i + k] == #[trigger] ser[k] by {
        assert(s.subrange(i, i + ser.len())[k] == s[i + k]);
    }
    match c {
        ContentView::Text(txt) => {
            assert(forall|m: int| 0 <= m < t_text().len() ==> ser[0 + m] == #[trigger] t_text()[m]);
            lemma_piece(s, i, ser, 0, t_text());
            assert(sp_lit(s, i, t_text()) == Some(i + t_text().len()));
            let o1 = t_text().len() as int;
            assert(forall|m: int| 0 <= m < ser_qstr(txt).len() ==> ser[o1 + m]
                == #[trigger] ser_qstr(txt)[m]);
            lemma_piece(s, i, ser, o1, ser_qstr(txt));
            lemma_sp_qstr_of_ser(s, i + o1, txt);
            let o2 = o1 + ser_qstr(txt).len() as int;
            assert(ser[o2] == 0x7D);
            assert(s[i + o2] == ser[o2]);
        },
        ContentView::File(n, b) => {
            assert(forall|m: int| 0 <= m < t_file().len() ==> ser[0 + m] == #[trigger] t_file()[m]);
            lemma_piece(s, i, ser, 0, t_file());
            assert(sp_lit(s, i, t_file()) == Some(i + t_file().len()));
            assert(ser[2] == t_file()[2]);
            assert(s[i + 2] == ser[2]);
            lemma_lit_differs(s, i, t_file(), t_text(), 2);
            let o1 = t_file().len() as int;
            assert(forall|m: int| 0 <= m < ser_qstr(n).len() ==> ser[o1 + m]
                == #[trigger] ser_qstr(n)[m]);
            lemma_piece(s, i, ser, o1, ser_qstr(n));
            lemma_sp_qstr_of_ser(s, i + o1, n);
            let o2 = o1 + ser_qstr(n).len() as int;
            assert(ser[o2] == 0x2C);
            assert(s[i + o2] == ser[o2]);
            let o3 = o2 + 1;
            assert(forall|m: int| 0 <= m < ser_bytearr(b).len() ==> ser[o3 + m]
                == #[trigger] ser_bytearr(b)[m]);
            lemma_piece(s, i, ser, o3, ser_bytearr(b));
            lemma_sp_bytearr_of_ser(s, i + o3, b);
            let o4 = o3 + ser_bytearr(b).len() as int;
            assert(forall|m: int| 0 <= m < t_close_bracket_brace().len() ==> ser[o4 + m]
                == #[trigger] t_close_bracket_brace()[m]);
            lemma_piece(s, i, ser, o4, t_close_bracket_brace());
        },
    }
}

/// Appends the tagged form of a content value.
pub fn write_mcontent(out: &mut Vec<u8>, c: &MessageContent)
    ensures
        final(out)@ == old(out)@ + ser_mcontent(c@),
{
    match c {
        MessageContent::Text(txt) => {
            let tok = tv_text();
            push_tok(out, &tok);
            write_qstr(out, txt.as_str());
            out.push(0x7D);
            proof {
                assert(final(out)@ =~= old(out)@ + ser_mcontent(c@));
            }
        },
        MessageContent::File((n, b)) => {
            let tok = tv_file();
            push_tok(out, &tok);
            write_qstr(out, n.as_str());
            out.push(0x2C);
            write_bytearr(out, b);
            let tok2 = tv_close_bracket_brace();
            push_tok(out, &tok2);
            proof {
                assert(final(out)@ =~= old(out)@ + ser_mcontent(c@));
            }
        },
    }
}

/// Reads a content value, as `sp_mcontent` says.
pub fn parse_mcontent(s: &Vec<u8>, i: usize) -> (r: Option<(MessageContent, usize)>)
    requires
        i <= s@.len(),
    ensures
        match r {
            Some((c, j)) => i < j <= s@.len() && sp_mcontent(s@, i as int) == Some((c@, j as int)),
            None => sp_mcontent(s@, i as int) is None,
        },
{
    let ttext = tv_text();
    match expect(s, i, &ttext) {
        Some(p) => {
            let (txt, q) = match parse_qstr(s, p) {
                Some(x) => x,
                None => {
                    return None;
                },
            };
            if q < s.len() && s[q] == 0x7D {
                Some((MessageContent::Text(txt), q + 1))
            } else {
                None
            }
        },
        None => {
            let tfile = tv_file();
            match expect(s, i, &tfile) {
                Some(p) => {
                    let (n, q) = match parse_qstr(s, p) {
                        Some(x) => x,
                        None => {
                            return None;
                        },
                    };
                    if !(q < s.len() && s[q] == 0x2C) {
                        return None;
                    }
                    let (b, e1) = match parse_bytearr(s, q + 1) {
                        Some(x) => x,
                        None => {
                            return None;
                        },
                    };
                    let tclose = tv_close_bracket_brace();
                    match expect(s, e1, &tclose) {
                        Some(e) => Some((MessageContent::File((n, b)), e)),
                        None => None,
                    }
                },
                None => None,
            }
        },
    }
}

/// A message whose timestamps are in range, as the wire can carry them.
pub open spec fn msg_wire_wf(m: MessageView) -> bool {
    &&& m.time_sent.wf()
    &&& (m.time_recieved matches Some(t) ==> t.wf())
}

/// The object form of a message.
#[verifier::opaque]
pub open spec fn ser_message(m: MessageView) -> Seq<u8> {
    t_msg_open() + dec_digits(m.message_id as nat) + t_msg_self() + dec_digits(m.self_id as nat)
        + t_msg_peer() + dec_digits(m.peer_id as nat) + t_msg_tsent() + ser_ts(m.time_sent)
        + t_msg_trecv() + ser_opt_ts(m.time_recieved) + t_msg_content() + ser_mcontent(m.content)
        + seq![0x7Du8]
}

/// Reads the three leading identifier fields of a message object.
pub open spec fn sp_msg_ids(s: Seq<u8>, i: int) -> Option<((u32, u32, u32), int)> {
    match sp_lit(s, i, t_msg_open()) {
        Some(p1) => match sp_u32(s, p1) {
            Some((mid, p2)) => match sp_lit(s, p2, t_msg_self()) {
                Some(p3) => match sp_u32(s, p3) {
                    Some((sid, p4)) => match sp_lit(s, p4, t_msg_peer()) {
                        Some(p5) => match sp_u32(s, p5) {
                            Some((pid, p6)) => Some(((mid, sid, pid), p6)),
                            None => None,
                        },
                        None => None,
                    },
                    None => None,
                },
                None => None,
            },
            None => None,
        },
        None => None,
    }
}

/// Reads the object form of a message.
#[verifier::opaque]
pub open spec fn sp_message(s: Seq<u8>, i: int) -> Option<(MessageView, int)> {
    match sp_msg_ids(s, i) {
        Some(((mid, sid, pid), p6)) => match sp_lit(s, p6, t_msg_tsent()) {
            Some(p7) => match sp_ts(s, p7) {
                Some((ts, p8)) => match sp_lit(s, p8, t_msg_trecv()) {
                    Some(p9) => match sp_opt_ts(s, p9) {
                        Some((tr, p10)) => match sp_lit(s, p10, t_msg_content()) {
                            Some(p11) => match sp_mcontent(s, p11) {
                                Some((c, p12)) => if p12 < s.len() && s[p12] == 0x7D {
                                    Some(
                                        (
                                            MessageView {
                                                message_id: mid,
                                                self_id: sid,
                                                peer_id: pid,
                                                time_sent: ts,
                                                time_recieved: tr,
                                                content: c,
                                            },
                                            p12 + 1,
                                        ),
                                    )
                                } else {
                                    None
                                },
                                None => None,
                            },
                            None => None,
                        },
                        None => None,
                    },
                    None => None,
                },
                None => None,
            },
            None => None,
        },
        None => None,
    }
}

/// The tail fields of a written message: everything from `time_sent`
/// on, plus the untouched head prefix.
#[verifier::rlimit(100)]
#[verifier::spinoff_prover]
proof fn lemma_message_tail(s: Seq<u8>, i: int, m: MessageView)
    requires
        0 <= i,
        msg_wire_wf(m),
        i + ser_message(m).len() <= s.len(),
        s.subrange(i, i + ser_message(m).len()) == ser_message(m),
    ensures
        ({
            let d1 = dec_digits(m.message_id as nat);
            let d2 = dec_digits(m.self_id as nat);
            let d3 = dec_digits(m.peer_id as nat);
            let x6 = t_msg_open() + d1 + t_msg_self() + d2 + t_msg_peer() + d3;
            let o6 = x6.len() as int;
            let o7 = o6 + t_msg_tsent().len() as int;
            let o8 = o7 + ser_ts(m.time_sent).len() as int;
            let o9 = o8 + t_msg_trecv().len() as int;
            let o10 = o9 + ser_opt_ts(m.time_recieved).len() as int;
            let o11 = o10 + t_msg_content().len() as int;
            let o12 = o11 + ser_mcontent(m.content).len() as int;
            &&& s.subrange(i, i + o6) == x6
            &&& sp_lit(s, i + o6, t_msg_tsent()) == Some(i + o7)
            &&& sp_ts(s, i + o7) == Some((m.time_sent, i + o8))
            &&& sp_lit(s, i + o8, t_msg_trecv()) == Some(i + o9)
            &&& sp_opt_ts(s, i + o9) == Some((m.time_recieved, i + o10))
            &&& sp_lit(s, i + o10, t_msg_content()) == Some(i + o11)
            &&& sp_mcontent(s, i + o11) == Some((m.content, i + o12))
            &&& i + o12 < s.len()
            &&& s[i + o12] == 0x7D
            &&& o12 + 1 == ser_message(m).len()
            &&& i + o6 < s.len()
            &&& !is_digit(s[i + o6])
        }),
{
    reveal(ser_message);
    let d1 = dec_digits(m.message_id as nat);
    let d2 = dec_digits(m.self_id as nat);
    let d3 = dec_digits(m.peer_id as nat);
    let w1 = ser_ts(m.time_sent);
    let w2 = ser_opt_ts(m.time_recieved);
    let w3 = ser_mcontent(m.content);
    let x6 = t_msg_open() + d1 + t_msg_self() + d2 + t_msg_peer() + d3;
    let x7 = x6 + t_msg_tsent();
    let x8 = x7 + w1;
    let x9 = x8 + t_msg_trecv();
    let x10 = x9 + w2;
    let x11 = x10 + t_msg_content();
    let o6 = x6.len() as int;
    let o7 = o6 + t_msg_tsent().len() as int;
    let o8 = o7 + w1.len() as int;
    let o9 = o8 + t_msg_trecv().len() as int;
    let o10 = o9 + w2.len() as int;
    let o11 = o10 + t_msg_content().len() as int;
    let o12 = o11 + w3.len() as int;
    assert(ser_message(m) =~= x11 + w3 + seq![0x7Du8]);
    lemma_split2(s, i, x11 + w3, seq![0x7Du8]);
    assert(s[i + o12] == s.subrange(i + o12, i + o12 + 1)[0]);
    lemma_split2(s, i, x11, w3);
    lemma_sp_mcontent_of_ser(s, i + o11, m.content);
    lemma_split2(s, i, x10, t_msg_content());
    lemma_split2(s, i, x9, w2);
    lemma_sp_opt_ts_of_ser(s, i + o9, m.time_recieved);
    lemma_split2(s, i, x8, t_msg_trecv());
    lemma_split2(s, i, x7, w1);
    lemma_sp_ts_of_ser(s, i + o7, m.time_sent);
    lemma_split2(s, i, x6, t_msg_tsent());
    assert(s[i + o6] == s.subrange(i + o6, i + o7)[0]);
    assert(!is_digit(s[i + o6]));
}

/// The head fields of a written message: the three identifiers.
#[verifier::rlimit(100)]
#[verifier::spinoff_prover]
proof fn lemma_message_head(s: Seq<u8>, i: int, m: MessageView)
    requires
        0 <= i,
        ({
            let d1 = dec_digits(m.message_id as nat);
            let d2 = dec_digits(m.self_id as nat);
            let d3 = dec_digits(m.peer_id as nat);
            let x6 = t_msg_open() + d1 + t_msg_self() + d2 + t_msg_peer() + d3;
            &&& i + x6.len() < s.len()
            &&& s.subrange(i, i + x6.len()) == x6
            &&& !is_digit(s[i + x6.len()])
        }),
    ensures
        ({
            let d1 = dec_digits(m.message_id as nat);
            let d2 = dec_digits(m.self_id as nat);
            let d3 = dec_digits(m.peer_id as nat);
            let o1 = t_msg_open().len() as int;
            let o2 = o1 + d1.len() as int;
            let o3 = o2 + t_msg_self().len() as int;
            let o4 = o3 + d2.len() as int;
            let o5 = o4 + t_msg_peer().len() as int;
            let o6 = o5 + d3.len() as int;
            &&& sp_msg_ids(s, i) == Some(((m.message_id, m.self_id, m.peer_id), i + o6))
        }),
{
    let d1 = dec_digits(m.message_id as nat);
    let d2 = dec_digits(m.self_id as nat);
    let d3 = dec_digits(m.peer_id as nat);
    let x5 = t_msg_open() + d1 + t_msg_self() + d2 + t_msg_peer();
    let x4 = t_msg_open() + d1 + t_msg_self() + d2;
    let x3 = t_msg_open() + d1 + t_msg_self();
    let x2 = t_msg_open() + d1;
    let o1 = t_msg_open().len() as int;
    let o2 = o1 + d1.len() as int;
    let o3 = o2 + t_msg_self().len() as int;
    let o4 = o3 + d2.len() as int;
    let o5 = o4 + t_msg_peer().len() as int;
    let o6 = o5 + d3.len() as int;
    lemma_split2(s, i, x5, d3);
    lemma_sp_u32_of_ser(s, i + o5, m.peer_id);
    lemma_split2(s, i, x4, t_msg_peer());
    assert(s[i + o4] == s.subrange(i + o4, i + o5)[0]);
    assert(!is_digit(s[i + o4]));
    lemma_split2(s, i, x3, d2);
    lemma_sp_u32_of_ser(s, i + o3, m.self_id);
    lemma_split2(s, i, x2, t_msg_self());
    assert(s[i + o2] == s.subrange(i + o2, i + o3)[0]);
    assert(!is_digit(s[i + o2]));
    lemma_split2(s, i, t_msg_open(), d1);
    lemma_sp_u32_of_ser(s, i + o1, m.message_id);
}

/// Parsing a message right after writing it.
#[verifier::rlimit(100)]
#[verifier::spinoff_prover]
pub proof fn lemma_sp_message_of_ser(s: Seq<u8>, i: int, m: MessageView)
    requires
        0 <= i,
        msg_wire_wf(m),
        i + ser_message(m).len() <= s.len(),
        s.subrange(i, i + ser_message(m).len()) == ser_message(m),
    ensures
        sp_message(s, i) == Some((m, i + ser_message(m).len())),
{
    reveal(ser_message);
    reveal(sp_message);
    lemma_message_tail(s, i, m);
    lemma_message_head(s, i, m);
    let d1 = dec_digits(m.message_id as nat);
    let d2 = dec_digits(m.self_id as nat);
    let d3 = dec_digits(m.peer_id as nat);
    let x6 = t_msg_open() + d1 + t_msg_self() + d2 + t_msg_peer() + d3;
    let o6 = x6.len() as int;
    let o7 = o6 + t_msg_tsent().len() as int;
    let o8 = o7 + ser_ts(m.time_sent).len() as int;
    let o9 = o8 + t_msg_trecv().len() as int;
    let o10 = o9 + ser_opt_ts(m.time_recieved).len() as int;
    let o11 = o10 + t_msg_content().len() as int;
    let o12 = o11 + ser_mcontent(m.content).len() as int;
    assert(t_msg_open().len() + d1.len() + t_msg_self().len() + d2.len() + t_msg_peer().len()
        + d3.len() == o6);
    assert(sp_msg_ids(s, i) == Some(((m.message_id, m.self_id, m.peer_id), i + o6)));
    assert(sp_message(s, i) == Some(
        (
            MessageView {
                message_id: m.message_id,
                self_id: m.self_id,
                peer_id: m.peer_id,
                time_sent: m.time_sent,
                time_recieved: m.time_recieved,
                content: m.content,
            },
            i + o12 + 1,
        ),
    ));
    assert((MessageView {
        message_id: m.message_id,
        self_id: m.self_id,
        peer_id: m.peer_id,
        time_sent: m.time_sent,
        time_recieved: m.time_recieved,
        content: m.content,
    }) == m);
}

/// Appends the object form of a message.
#[verifier::rlimit(100)]
pub fn write_message(out: &mut Vec<u8>, m: &Message)
    requires
        msg_wire_wf(m@),
    ensures
        final(out)@ == old(out)@ + ser_message(m@),
{
    let tok = tv_msg_open();
    push_tok(out, &tok);
    write_u32(out, m.message_id);
    let tok = tv_msg_self();
    push_tok(out, &tok);
    write_u32(out, m.self_id);
    let tok = tv_msg_peer();
    push_tok(out, &tok);
    write_u32(out, m.peer_id);
    let tok = tv_msg_tsent();
    push_tok(out, &tok);
    write_ts(out, &m.time_sent);
    let tok = tv_msg_trecv();
    push_tok(out, &tok);
    write_opt_ts(out, &m.time_recieved);
    let tok = tv_msg_content();
    push_tok(out, &tok);
    write_mcontent(out, &m.content);
    out.push(0x7D);
    proof {
        reveal(ser_message);
        assert(final(out)@ =~= old(out)@ + ser_message(m@));
    }
}

/// Reads a message, as `sp_message` says.
pub fn parse_message(s: &Vec<u8>, i: usize) -> (r: Option<(Message, usize)>)
    requires
        i <= s@.len(),
    ensures
        match r {
            Some((m, j)) => i < j <= s@.len() && sp_message(s@, i as int) == Some((m@, j as int))
                && msg_wire_wf(m@),
            None => sp_message(s@, i as int) is None,
        },
{
    proof {
        reveal(sp_message);
    }
    let tok = tv_msg_open();
    let p1 = match expect(s, i, &tok) {
        Some(p) => p,
        None => {
            return None;
        },
    };
    let (mid, p2) = match parse_u32(s, p1) {
        Some(x) => x,
        None => {
            return None;
        },
    };
    let tok = tv_msg_self();
    let p3 = match expect(s, p2, &tok) {
        Some(p) => p,
        None => {
            return None;
        },
    };
    let (sid, p4) = match parse_u32(s, p3) {
        Some(x) => x,
        None => {
            return None;
        },
    };
    let tok = tv_msg_peer();
    let p5 = match expect(s, p4, &tok) {
        Some(p) => p,
        None => {
            return None;
        },
    };
    let (pid, p6) = match parse_u32(s, p5) {
        Some(x) => x,
        None => {
            return None;
        },
    };
    let tok = tv_msg_tsent();
    let p7 = match expect(s, p6, &tok) {
        Some(p) => p,
        None => {
            return None;
        },
    };
    let (ts, p8) = match parse_ts(s, p7) {
        Some(x) => x,
        None => {
            return None;
        },
    };
    let tok = tv_msg_trecv();
    let p9 = match expect(s, p8, &tok) {
        Some(p) => p,
        None => {
            return None;
        },
    };
    let (tr, p10) = match parse_opt_ts(s, p9) {
        Some(x) => x,
        None => {
            return None;
        },
    };
    let tok = tv_msg_content();
    let p11 = match expect(s, p10, &tok) {
        Some(p) => p,
        None => {
            return None;
        },
    };
    let (c, p12) = match parse_mcontent(s, p11) {
        Some(x) => x,
        None => {
            return None;
        },
    };
    if p12 < s.len() && s[p12] == 0x7D {
        Some(
            (
                Message {
                    message_id: mid,
                    self_id: sid,
                    peer_id: pid,
                    time_sent: ts,
                    time_recieved: tr,
                    content: c,
                },
                p12 + 1,
            ),
        )
    } else {
        None
    }
}

/// A connection whose timestamp is in range, as the wire can carry it.
pub open spec fn conn_wire_wf(c: ConnectionView) -> bool {
    c.time_established.wf()
}

/// The object form of a connection.
#[verifier::opaque]
pub open spec fn ser_connection(c: ConnectionView) -> Seq<u8> {
    t_conn_open() + dec_digits(c.peer_id as nat) + t_conn_self() + dec_digits(c.self_id as nat)
        + t_conn_name() + ser_qstr(c.peer_name) + t_conn_addr() + ser_addr(c.peer_addr)
        + t_conn_online() + (if c.online {
        t_true()
    } else {
        t_false()
    }) + t_conn_test() + ser_ts(c.time_established) + t_close_qt_brace()
}

/// Reads the object form of a connection.
#[verifier::opaque]
pub open spec fn sp_connection(s: Seq<u8>, i: int) -> Option<(ConnectionView, int)> {
    match sp_lit(s, i, t_conn_open()) {
        Some(p1) => match sp_u32(s, p1) {
            Some((pid, p2)) => match sp_lit(s, p2, t_conn_self()) {
                Some(p3) => match sp_u32(s, p3) {
                    Some((sid, p4)) => match sp_lit(s, p4, t_conn_name()) {
                        Some(p5) => match sp_qstr(s, p5) {
                            Some((name, p6)) => match sp_lit(s, p6, t_conn_addr()) {
                                Some(p7) => match sp_addr(s, p7) {
                                    Some((addr, p8)) => match sp_lit(s, p8, t_conn_online()) {
                                        Some(p9) => match sp_bool(s, p9) {
                                            Some((online, p10)) => match sp_lit(
                                                s,
                                                p10,
                                                t_conn_test(),
                                            ) {
                                                Some(p11) => match sp_ts(s, p11) {
                                                    Some((te, p12)) => match sp_lit(
                                                        s,
                                                        p12,
                                                        t_close_qt_brace(),
                                                    ) {
                                                        Some(e) => Some(
                                                            (
                                                                ConnectionView {
                                                                    peer_id: pid,
                                                                    self_id: sid,
                                                                    peer_name: name,
                                                                    peer_addr: addr,
                                                                    online: online,
                                                                    time_established: te,
                                                                },
                                                                e,
                                                            ),
                                                        ),
                                                        None => None,
                                                    },
                                                    None => None,
                                                },
                                                None => None,
                                            },
                                            None => None,
                                        },
                                        None => None,
                                    },
                                    None => None,
                                },
                                None => None,
                            },
                            None => None,
                        },
                        None => None,
                    },
                    None => None,
                },
                None => None,
            },
            None => None,
        },
        None => None,
    }
}

/// Parsing a connection right after writing it.
/// The tail fields of a written connection: everything from
/// `peer_name` on, plus the untouched head prefix.
#[verifier::rlimit(100)]
#[verifier::spinoff_prover]
proof fn lemma_connection_tail(s: Seq<u8>, i: int, c: ConnectionView)
    requires
        0 <= i,
        conn_wire_wf(c),
        i + ser_connection(c).len() <= s.len(),
        s.subrange(i, i + ser_connection(c).len()) == ser_connection(c),
    ensures
        ({
            let d1 = dec_digits(c.peer_id as nat);
            let d2 = dec_digits(c.self_id as nat);
            let w1 = ser_qstr(c.peer_name);
            let w2 = ser_addr(c.peer_addr);
            let w3 = if c.online {
                t_true()
            } else {
                t_false()
            };
            let w4 = ser_ts(c.time_established);
            let x4 = t_conn_open() + d1 + t_conn_self() + d2;
            let o4 = x4.len() as int;
            let o5 = o4 + t_conn_name().len() as int;
            let o6 = o5 + w1.len() as int;
            let o7 = o6 + t_conn_addr().len() as int;
            let o8 = o7 + w2.len() as int;
            let o9 = o8 + t_conn_online().len() as int;
            let o10 = o9 + w3.len() as int;
            let o11 = o10 + t_conn_test().len() as int;
            let o12 = o11 + w4.len() as int;
            &&& s.subrange(i, i + o4) == x4
            &&& sp_lit(s, i + o4, t_conn_name()) == Some(i + o5)
            &&& sp_qstr(s, i + o5) == Some((c.peer_name, i + o6))
            &&& sp_lit(s, i + o6, t_conn_addr()) == Some(i + o7)
            &&& sp_addr(s, i + o7) == Some((c.peer_addr, i + o8))
            &&& sp_lit(s, i + o8, t_conn_online()) == Some(i + o9)
            &&& sp_bool(s, i + o9) == Some((c.online, i + o10))
            &&& sp_lit(s, i + o10, t_conn_test()) == Some(i + o11)
            &&& sp_ts(s, i + o11) == Some((c.time_established, i + o12))
            &&& sp_lit(s, i + o12, t_close_qt_brace()) == Some(i + o12 + 2)
            &&& o12 + 2 == ser_connection(c).len()
        }),
{
    reveal(ser_connection);
    let d1 = dec_digits(c.peer_id as nat);
    let d2 = dec_digits(c.self_id as nat);
    let w1 = ser_qstr(c.peer_name);
    let w2 = ser_addr(c.peer_addr);
    let w3 = if c.online {
        t_true()
    } else {
        t_false()
    };
    let w4 = ser_ts(c.time_established);
    let x4 = t_conn_open() + d1 + t_conn_self() + d2;
    let x5 = x4 + t_conn_name();
    let x6 = x5 + w1;
    let x7 = x6 + t_conn_addr();
    let x8 = x7 + w2;
    let x9 = x8 + t_conn_online();
    let x10 = x9 + w3;
    let x11 = x10 + t_conn_test();
    let o4 = x4.len() as int;
    let o5 = o4 + t_conn_name().len() as int;
    let o6 = o5 + w1.len() as int;
    let o7 = o6 + t_conn_addr().len() as int;
    let o8 = o7 + w2.len() as int;
    let o9 = o8 + t_conn_online().len() as int;
    let o10 = o9 + w3.len() as int;
    let o11 = o10 + t_conn_test().len() as int;
    let o12 = o11 + w4.len() as int;
    assert(ser_connection(c) =~= x11 + w4 + t_close_qt_brace());
    lemma_split2(s, i, x11 + w4, t_close_qt_brace());
    lemma_split2(s, i, x11, w4);
    lemma_sp_ts_of_ser(s, i + o11, c.time_established);
    lemma_split2(s, i, x10, t_conn_test());
    lemma_split2(s, i, x9, w3);
    lemma_sp_bool_of_ser(s, i + o9, c.online);
    lemma_split2(s, i, x8, t_conn_online());
    assert(s[i + o8] == s.subrange(i + o8, i + o9)[0]);
    assert(!is_digit(s[i + o8]));
    lemma_split2(s, i, x7, w2);
    lemma_sp_addr_of_ser(s, i + o7, c.peer_addr);
    lemma_split2(s, i, x6, t_conn_addr());
    lemma_split2(s, i, x5, w1);
    lemma_sp_qstr_of_ser(s, i + o5, c.peer_name);
    lemma_split2(s, i, x4, t_conn_name());
}

/// The head fields of a written connection: the two identifiers.
#[verifier::rlimit(100)]
#[verifier::spinoff_prover]
proof fn lemma_connection_head(s: Seq<u8>, i: int, c: ConnectionView)
    requires
        0 <= i,
        ({
            let d1 = dec_digits(c.peer_id as nat);
            let d2 = dec_digits(c.self_id as nat);
            let x4 = t_conn_open() + d1 + t_conn_self() + d2;
            &&& i + x4.len() < s.len()
            &&& s.subrange(i, i + x4.len()) == x4
            &&& !is_digit(s[i + x4.len()])
        }),
    ensures
        ({
            let d1 = dec_digits(c.peer_id as nat);
            let d2 = dec_digits(c.self_id as nat);
            let o1 = t_conn_open().len() as int;
            let o2 = o1 + d1.len() as int;
            let o3 = o2 + t_conn_self().len() as int;
            let o4 = o3 + d2.len() as int;
            &&& sp_lit(s, i, t_conn_open()) == Some(i + o1)
            &&& sp_u32(s, i + o1) == Some((c.peer_id, i + o2))
            &&& sp_lit(s, i + o2, t_conn_self()) == Some(i + o3)
            &&& sp_u32(s, i + o3) == Some((c.self_id, i + o4))
        }),
{
    let d1 = dec_digits(c.peer_id as nat);
    let d2 = dec_digits(c.self_id as nat);
    let x3 = t_conn_open() + d1 + t_conn_self();
    let x2 = t_conn_open() + d1;
    let o1 = t_conn_open().len() as int;
    let o2 = o1 + d1.len() as int;
    let o3 = o2 + t_conn_self().len() as int;
    let o4 = o3 + d2.len() as int;
    lemma_split2(s, i, x3, d2);
    lemma_sp_u32_of_ser(s, i + o3, c.self_id);
    lemma_split2(s, i, x2, t_conn_self());
    assert(s[i + o2] == s.subrange(i + o2, i + o3)[0]);
    assert(!is_digit(s[i + o2]));
    lemma_split2(s, i, t_conn_open(), d1);
    lemma_sp_u32_of_ser(s, i + o1, c.peer_id);
}

/// Parsing a connection right after writing it.
#[verifier::rlimit(100)]
#[verifier::spinoff_prover]
pub proof fn lemma_sp_connection_of_ser(s: Seq<u8>, i: int, c: ConnectionView)
    requires
        0 <= i,
        conn_wire_wf(c),
        i + ser_connection(c).len() <= s.len(),
        s.subrange(i, i + ser_connection(c).len()) == ser_connection(c),
    ensures
        sp_connection(s, i) == Some((c, i + ser_connection(c).len())),
{
    reveal(ser_connection);
    reveal(sp_connection);
    lemma_connection_tail(s, i, c);
    let d1 = dec_digits(c.peer_id as nat);
    let d2 = dec_digits(c.self_id as nat);
    let x4 = t_conn_open() + d1 + t_conn_self() + d2;
    let o4 = x4.len() as int;
    assert(s[i + o4] == s.subrange(i + o4, i + o4 + t_conn_name().len())[0]) by {
        assert(sp_lit(s, i + o4, t_conn_name()) is Some);
    }
    assert(s[i + o4] == t_conn_name()[0]);
    assert(!is_digit(s[i + o4]));
    lemma_connection_head(s, i, c);
}

/// Appends the object form of a connection.
#[verifier::rlimit(100)]
pub fn write_connection(out: &mut Vec<u8>, c: &Connection)
    requires
        conn_wire_wf(c@),
    ensures
        final(out)@ == old(out)@ + ser_connection(c@),
{
    let tok = tv_conn_open();
    push_tok(out, &tok);
    write_u32(out, c.peer_id);
    let tok = tv_conn_self();
    push_tok(out, &tok);
    write_u32(out, c.self_id);
    let tok = tv_conn_name();
    push_tok(out, &tok);
    write_qstr(out, c.peer_name.as_str());
    let tok = tv_conn_addr();
    push_tok(out, &tok);
    write_addr(out, &c.peer_addr);
    let tok = tv_conn_online();
    push_tok(out, &tok);
    write_bool(out, c.online);
    let tok = tv_conn_test();
    push_tok(out, &tok);
    write_ts(out, &c.time_established);
    let tok = tv_close_qt_brace();
    push_tok(out, &tok);
    proof {
        reveal(ser_connection);
        assert(final(out)@ =~= old(out)@ + ser_connection(c@));
    }
}

/// Reads a connection, as `sp_connection` says.
pub fn parse_connection(s: &Vec<u8>, i: usize) -> (r: Option<(Connection, usize)>)
    requires
        i <= s@.len(),
    ensures
        match r {
            Some((c, j)) => i < j <= s@.len() && sp_connection(s@, i as int) == Some(
                (c@, j as int),
            ) && conn_wire_wf(c@),
            None => sp_connection(s@, i as int) is None,
        },
{
    proof {
        reveal(sp_connection);
    }
    let tok = tv_conn_open();
    let p1 = match expect(s, i, &tok) {
        Some(p) => p,
        None => {
            return None;
        },
    };
    let (pid, p2) = match parse_u32(s, p1) {
        Some(x) => x,
        None => {
            return None;
        },
    };
    let tok = tv_conn_self();
    let p3 = match expect(s, p2, &tok) {
        Some(p) => p,
        None => {
            return None;
        },
    };
    let (sid, p4) = match parse_u32(s, p3) {
        Some(x) => x,
        None => {
            return None;
        },
    };
    let tok = tv_conn_name();
    let p5 = match expect(s, p4, &tok) {
        Some(p) => p,
        None => {
            return None;
        },
    };
    let (name, p6) = match parse_qstr(s, p5) {
        Some(x) => x,
        None => {
            return None;
        },
    };
    let tok = tv_conn_addr();
    let p7 = match expect(s, p6, &tok) {
        Some(p) => p,
        None => {
            return None;
        },
    };
    let (addr, p8) = match parse_addr(s, p7) {
        Some(x) => x,
        None => {
            return None;
        },
    };
    let tok = tv_conn_online();
    let p9 = match expect(s, p8, &tok) {
        Some(p) => p,
        None => {
            return None;
        },
    };
    let (online, p10) = match parse_bool(s, p9) {
        Some(x) => x,
        None => {
            return None;
        },
    };
    let tok = tv_conn_test();
    let p11 = match expect(s, p10, &tok) {
        Some(p) => p,
        None => {
            return None;
        },
    };
    let (te, p12) = match parse_ts(s, p11) {
        Some(x) => x,
        None => {
            return None;
        },
    };
    let tok = tv_close_qt_brace();
    match expect(s, p12, &tok) {
        Some(e) => Some(
            (
                Connection {
                    peer_id: pid,
                    self_id: sid,
                    peer_name: name,
                    peer_addr: addr,
                    online,
                    time_established: te,
                },
                e,
            ),
        ),
        None => None,
    }
}


/// A written message starts with an opening brace.
proof fn lemma_ser_message_first(m: MessageView)
    ensures
        ser_message(m).len() > 0,
        ser_message(m)[0] == 0x7B,
{
    reveal(ser_message);
}

/// A written connection starts with an opening brace.
proof fn lemma_ser_connection_first(c: ConnectionView)
    ensures
        ser_connection(c).len() > 0,
        ser_connection(c)[0] == 0x7B,
{
    reveal(ser_connection);
}

/// The comma-separated items of a non-empty message list.
pub open spec fn ser_msgitems(vals: Seq<MessageView>) -> Seq<u8>
    decreases vals.len(),
{
    if vals.len() <= 1 {
        ser_message(vals[0])
    } else {
        ser_msgitems(vals.drop_last()) + seq![0x2Cu8] + ser_message(vals.last())
    }
}

/// A JSON array of messages.
pub open spec fn ser_msgarr(vals: Seq<MessageView>) -> Seq<u8> {
    if vals.len() == 0 {
        seq![0x5Bu8, 0x5Du8]
    } else {
        seq![0x5Bu8] + ser_msgitems(vals) + seq![0x5Du8]
    }
}

/// The items of a message list, unfolded at the front.
proof fn lemma_ser_msgitems_front(vals: Seq<MessageView>)
    requires
        vals.len() >= 1,
    ensures
        ser_msgitems(vals) == if vals.len() == 1 {
            ser_message(vals[0])
        } else {
            ser_message(vals[0]) + seq![0x2Cu8] + ser_msgitems(vals.drop_first())
        },
    decreases vals.len(),
{
    if vals.len() > 1 {
        lemma_ser_msgitems_front(vals.drop_last());
        if vals.len() == 2 {
            assert(vals.drop_first()[0] == vals.last());
            assert(ser_msgitems(vals) =~= ser_message(vals[0]) + seq![0x2Cu8] + ser_msgitems(
                vals.drop_first(),
            ));
        } else {
            assert(vals.drop_last()[0] == vals[0]);
            assert(vals.drop_last().drop_first() =~= vals.drop_first().drop_last());
            assert(vals.drop_first().last() == vals.last());
            assert(ser_msgitems(vals.drop_first()) == ser_msgitems(
                vals.drop_first().drop_last(),
            ) + seq![0x2Cu8] + ser_message(vals.drop_first().last()));
            assert(ser_msgitems(vals) =~= ser_message(vals[0]) + seq![0x2Cu8] + ser_msgitems(
                vals.drop_first(),
            ));
        }
    }
}

/// Reads comma-separated messages up to and through the closing bracket.
pub open spec fn sp_msgitems(s: Seq<u8>, i: int) -> Option<(Seq<MessageView>, int)>
    decreases s.len() - i,
{
    match sp_message(s, i) {
        Some((v, j)) => {
            if j < s.len() && s[j] == 0x2C {
                let next = if j + 1 > i + 1 {
                    j + 1
                } else {
                    i + 1
                };
                if next <= s.len() {
                    match sp_msgitems(s, next) {
                        Some((rest, e)) => Some((seq![v] + rest, e)),
                        None => None,
                    }
                } else {
                    None
                }
            } else if j < s.len() && s[j] == 0x5D {
                Some((seq![v], j + 1))
            } else {
                None
            }
        },
        None => None,
    }
}

/// Reads a JSON array of messages.
pub open spec fn sp_msgarr(s: Seq<u8>, i: int) -> Option<(Seq<MessageView>, int)> {
    if 0 <= i < s.len() && s[i] == 0x5B {
        if i + 1 < s.len() && s[i + 1] == 0x5D {
            Some((Seq::empty(), i + 2))
        } else {
            sp_msgitems(s, i + 1)
        }
    } else {
        None
    }
}

/// Reading the items of a non-empty message list right after writing
/// them, with the closing bracket right after.
proof fn lemma_sp_msgitems_of_ser(s: Seq<u8>, i: int, vals: Seq<MessageView>)
    requires
        vals.len() >= 1,
        forall|k: int| 0 <= k < vals.len() ==> msg_wire_wf(#[trigger] vals[k]),
        0 <= i,
        i + ser_msgitems(vals).len() + 1 <= s.len(),
        s.subrange(i, i + ser_msgitems(vals).len()) == ser_msgitems(vals),
        s[i + ser_msgitems(vals).len()] == 0x5D,
    ensures
        sp_msgitems(s, i) == Some((vals, i + ser_msgitems(vals).len() + 1)),
    decreases vals.len(),
{
    let ser = ser_msgitems(vals);
    lemma_ser_msgitems_front(vals);
    let d0 = ser_message(vals[0]);
    if vals.len() == 1 {
        lemma_sp_message_of_ser(s, i, vals[0]);
        assert(seq![vals[0]] =~= vals);
    } else {
        let rest = ser_msgitems(vals.drop_first());
        lemma_split2(s, i, d0 + seq![0x2Cu8], rest);
        lemma_split2(s, i, d0, seq![0x2Cu8]);
        let j = i + d0.len() as int;
        assert(s[j] == s.subrange(j, j + 1)[0]);
        assert(s[j] == 0x2C);
        lemma_sp_message_of_ser(s, i, vals[0]);
        assert(forall|k: int| 0 <= k < vals.drop_first().len() ==> msg_wire_wf(
            #[trigger] vals.drop_first()[k],
        ));
        lemma_sp_msgitems_of_ser(s, j + 1, vals.drop_first());
        assert(seq![vals[0]] + vals.drop_first() =~= vals);
    }
}

/// Parsing a message array right after writing it.
pub proof fn lemma_sp_msgarr_of_ser(s: Seq<u8>, i: int, vals: Seq<MessageView>)
    requires
        forall|k: int| 0 <= k < vals.len() ==> msg_wire_wf(#[trigger] vals[k]),
        0 <= i,
        i + ser_msgarr(vals).len() <= s.len(),
        s.subrange(i, i + ser_msgarr(vals).len()) == ser_msgarr(vals),
    ensures
        sp_msgarr(s, i) == Some((vals, i + ser_msgarr(vals).len())),
{
    let ser = ser_msgarr(vals);
    assert forall|k: int| 0 <= k < ser.len() implies s[i + k] == #[trigger] ser[k] by {
        assert(s.subrange(i, i + ser.len())[k] == s[i + k]);
    }
    assert(s[i + 0] == ser[0]);
    assert(ser[0] == 0x5B);
    if vals.len() == 0 {
        assert(s[i + 1] == ser[1]);
        assert(ser[1] == 0x5D);
        assert(vals =~= Seq::<MessageView>::empty());
    } else {
        let items = ser_msgitems(vals);
        lemma_ser_msgitems_front(vals);
        assert(ser =~= seq![0x5Bu8] + (items + seq![0x5Du8]));
        lemma_split2(s, i, seq![0x5Bu8], items + seq![0x5Du8]);
        lemma_split2(s, i + 1, items, seq![0x5Du8]);
        lemma_ser_message_first(vals[0]);
        assert(ser[1] == items[0]);
        assert(items[0] == ser_message(vals[0])[0]);
        assert(s[i + 1] == ser[1]);
        assert(s[i + 1] != 0x5D);
        assert(s[i + 1 + items.len()] == s.subrange(
            i + 1 + items.len(),
            i + 1 + items.len() + 1,
        )[0]);
        lemma_sp_msgitems_of_ser(s, i + 1, vals);
    }
}

/// Appends a JSON array of messages.
pub fn write_msgarr(out: &mut Vec<u8>, vals: &Vec<Message>)
    requires
        forall|k: int| 0 <= k < vals@.len() ==> msg_wire_wf(#[trigger] vals@[k]@),
    ensures
        final(out)@ == old(out)@ + ser_msgarr(crate::store::msg_views(vals@)),
{
    out.push(0x5B);
    if vals.len() == 0 {
        out.push(0x5D);
        proof {
            assert(crate::store::msg_views(vals@) =~= Seq::<MessageView>::empty());
            assert(final(out)@ =~= old(out)@ + ser_msgarr(crate::store::msg_views(vals@)));
        }
        return ;
    }
    let mut k: usize = 0;
    while k < vals.len()
        invariant
            vals@.len() >= 1,
            k <= vals@.len(),
            forall|l: int| 0 <= l < vals@.len() ==> msg_wire_wf(#[trigger] vals@[l]@),
            k == 0 ==> out@ == old(out)@ + seq![0x5Bu8],
            k >= 1 ==> out@ == old(out)@ + seq![0x5Bu8] + ser_msgitems(
                crate::store::msg_views(vals@.take(k as int)),
            ),
        decreases vals@.len() - k,
    {
        if k > 0 {
            out.push(0x2C);
        }
        write_message(out, &vals[k]);
        proof {
            let tk1 = crate::store::msg_views(vals@.take(k as int + 1));
            assert(tk1.drop_last() =~= crate::store::msg_views(vals@.take(k as int)));
            assert(tk1.last() == vals@[k as int]@);
            if k == 0 {
                assert(tk1.len() == 1);
                assert(tk1[0] == vals@[0]@);
                assert(out@ =~= old(out)@ + seq![0x5Bu8] + ser_msgitems(tk1));
            } else {
                assert(out@ =~= old(out)@ + seq![0x5Bu8] + ser_msgitems(tk1));
            }
        }
        k += 1;
    }
    out.push(0x5D);
    proof {
        assert(vals@.take(vals@.len() as int) =~= vals@);
        assert(final(out)@ =~= old(out)@ + ser_msgarr(crate::store::msg_views(vals@)));
    }
}

/// Reads a JSON array of messages, as `sp_msgarr` says.
pub fn parse_msgarr(s: &Vec<u8>, i: usize) -> (r: Option<(Vec<Message>, usize)>)
    requires
        i <= s@.len(),
    ensures
        match r {
            Some((v, j)) => i < j <= s@.len() && sp_msgarr(s@, i as int) == Some(
                (crate::store::msg_views(v@), j as int),
            ) && (forall|k: int| 0 <= k < v@.len() ==> msg_wire_wf(#[trigger] v@[k]@)),
            None => sp_msgarr(s@, i as int) is None,
        },
{
    if i >= s.len() || s[i] != 0x5B {
        return None;
    }
    if i + 1 < s.len() && s[i + 1] == 0x5D {
        let empty: Vec<Message> = Vec::new();
        proof {
            assert(crate::store::msg_views(empty@) =~= Seq::<MessageView>::empty());
        }
        return Some((empty, i + 2));
    }
    let mut acc: Vec<Message> = Vec::new();
    let mut p: usize = i + 1;
    proof {
        let r0 = sp_msgitems(s@, i as int + 1);
        match r0 {
            Some((rest, e)) => {
                assert(crate::store::msg_views(acc@) + rest =~= rest);
            },
            None => {},
        }
    }
    loop
        invariant
            i + 1 <= p <= s@.len(),
            i < s@.len(),
            s@[i as int] == 0x5B,
            !(i as int + 1 < s@.len() && s@[i as int + 1] == 0x5D),
            forall|l: int| 0 <= l < acc@.len() ==> msg_wire_wf(#[trigger] acc@[l]@),
            sp_msgitems(s@, i as int + 1) == match sp_msgitems(s@, p as int) {
                Some((rest, e)) => Some((crate::store::msg_views(acc@) + rest, e)),
                None => None::<(Seq<MessageView>, int)>,
            },
        decreases s@.len() - p,
    {
        let (v, j) = match parse_message(s, p) {
            Some(x) => x,
            None => {
                return None;
            },
        };
        if j < s.len() && s[j] == 0x2C {
            let ghost prev = crate::store::msg_views(acc@);
            let ghost vv = v@;
            acc.push(v);
            proof {
                assert(crate::store::msg_views(acc@) =~= prev.push(vv));
                let rn = sp_msgitems(s@, j as int + 1);
                match rn {
                    Some((rest, e)) => {
                        assert(prev + (seq![vv] + rest) =~= crate::store::msg_views(acc@) + rest);
                    },
                    None => {},
                }
            }
            p = j + 1;
        } else if j < s.len() && s[j] == 0x5D {
            let ghost prev = crate::store::msg_views(acc@);
            let ghost vv = v@;
            acc.push(v);
            proof {
                assert(sp_msgitems(s@, p as int) == Some((seq![vv], j as int + 1)));
                assert(prev + seq![vv] =~= crate::store::msg_views(acc@));
                assert(crate::store::msg_views(acc@) =~= prev.push(vv));
            }
            return Some((acc, j + 1));
        } else {
            return None;
        }
    }
}

/// The comma-separated items of a non-empty connection list.
pub open spec fn ser_connitems(vals: Seq<ConnectionView>) -> Seq<u8>
    decreases vals.len(),
{
    if vals.len() <= 1 {
        ser_connection(vals[0])
    } else {
        ser_connitems(vals.drop_last()) + seq![0x2Cu8] + ser_connection(vals.last())
    }
}

/// A JSON array of connections.
pub open spec fn ser_connarr(vals: Seq<ConnectionView>) -> Seq<u8> {
    if vals.len() == 0 {
        seq![0x5Bu8, 0x5Du8]
    } else {
        seq![0x5Bu8] + ser_connitems(vals) + seq![0x5Du8]
    }
}

/// The items of a connection list, unfolded at the front.
proof fn lemma_ser_connitems_front(vals: Seq<ConnectionView>)
    requires
        vals.len() >= 1,
    ensures
        ser_connitems(vals) == if vals.len() == 1 {
            ser_connection(vals[0])
        } else {
            ser_connection(vals[0]) + seq![0x2Cu8] + ser_connitems(vals.drop_first())
        },
    decreases vals.len(),
{
    if vals.len() > 1 {
        lemma_ser_connitems_front(vals.drop_last());
        if vals.len() == 2 {
            assert(vals.drop_first()[0] == vals.last());
            assert(ser_connitems(vals) =~= ser_connection(vals[0]) + seq![0x2Cu8] + ser_connitems(
                vals.drop_first(),
            ));
        } else {
            assert(vals.drop_last()[0] == vals[0]);
            assert(vals.drop_last().drop_first() =~= vals.drop_first().drop_last());
            assert(vals.drop_first().last() == vals.last());
            assert(ser_connitems(vals.drop_first()) == ser_connitems(
                vals.drop_first().drop_last(),
            ) + seq![0x2Cu8] + ser_connection(vals.drop_first().last()));
            assert(ser_connitems(vals) =~= ser_connection(vals[0]) + seq![0x2Cu8] + ser_connitems(
                vals.drop_first(),
            ));
        }
    }
}

/// Reads comma-separated connections up to and through the closing bracket.
pub open spec fn sp_connitems(s: Seq<u8>, i: int) -> Option<(Seq<ConnectionView>, int)>
    decreases s.len() - i,
{
    match sp_connection(s, i) {
        Some((v, j)) => {
            if j < s.len() && s[j] == 0x2C {
                let next = if j + 1 > i + 1 {
                    j + 1
                } else {
                    i + 1
                };
                if next <= s.len() {
                    match sp_connitems(s, next) {
                        Some((rest, e)) => Some((seq![v] + rest, e)),
                        None => None,
                    }
                } else {
                    None
                }
            } else if j < s.len() && s[j] == 0x5D {
                Some((seq![v], j + 1))
            } else {
                None
            }
        },
        None => None,
    }
}

/// Reads a JSON array of connections.
pub open spec fn sp_connarr(s: Seq<u8>, i: int) -> Option<(Seq<ConnectionView>, int)> {
    if 0 <= i < s.len() && s[i] == 0x5B {
        if i + 1 < s.len() && s[i + 1] == 0x5D {
            Some((Seq::empty(), i + 2))
        } else {
            sp_connitems(s, i + 1)
        }
    } else {
        None
    }
}

/// Reading the items of a non-empty connection list right after writing
/// them, with the closing bracket right after.
proof fn lemma_sp_connitems_of_ser(s: Seq<u8>, i: int, vals: Seq<ConnectionView>)
    requires
        vals.len() >= 1,
        forall|k: int| 0 <= k < vals.len() ==> conn_wire_wf(#[trigger] vals[k]),
        0 <= i,
        i + ser_connitems(vals).len() + 1 <= s.len(),
        s.subrange(i, i + ser_connitems(vals).len()) == ser_connitems(vals),
        s[i + ser_connitems(vals).len()] == 0x5D,
    ensures
        sp_connitems(s, i) == Some((vals, i + ser_connitems(vals).len() + 1)),
    decreases vals.len(),
{
    let ser = ser_connitems(vals);
    lemma_ser_connitems_front(vals);
    let d0 = ser_connection(vals[0]);
    if vals.len() == 1 {
        lemma_sp_connection_of_ser(s, i, vals[0]);
        assert(seq![vals[0]] =~= vals);
    } else {
        let rest = ser_connitems(vals.drop_first());
        lemma_split2(s, i, d0 + seq![0x2Cu8], rest);
        lemma_split2(s, i, d0, seq![0x2Cu8]);
        let j = i + d0.len() as int;
        assert(s[j] == s.subrange(j, j + 1)[0]);
        assert(s[j] == 0x2C);
        lemma_sp_connection_of_ser(s, i, vals[0]);
        assert(forall|k: int| 0 <= k < vals.drop_first().len() ==> conn_wire_wf(
            #[trigger] vals.drop_first()[k],
        ));
        lemma_sp_connitems_of_ser(s, j + 1, vals.drop_first());
        assert(seq![vals[0]] + vals.drop_first() =~= vals);
    }
}

/// Parsing a connection array right after writing it.
pub proof fn lemma_sp_connarr_of_ser(s: Seq<u8>, i: int, vals: Seq<ConnectionView>)
    requires
        forall|k: int| 0 <= k < vals.len() ==> conn_wire_wf(#[trigger] vals[k]),
        0 <= i,
        i + ser_connarr(vals).len() <= s.len(),
        s.subrange(i, i + ser_connarr(vals).len()) == ser_connarr(vals),
    ensures
        sp_connarr(s, i) == Some((vals, i + ser_connarr(vals).len())),
{
    let ser = ser_connarr(vals);
    assert forall|k: int| 0 <= k < ser.len() implies s[i + k] == #[trigger] ser[k] by {
        assert(s.subrange(i, i + ser.len())[k] == s[i + k]);
    }
    assert(s[i + 0] == ser[0]);
    assert(ser[0] == 0x5B);
    if vals.len() == 0 {
        assert(s[i + 1] == ser[1]);
        assert(ser[1] == 0x5D);
        assert(vals =~= Seq::<ConnectionView>::empty());
    } else {
        let items = ser_connitems(vals);
        lemma_ser_connitems_front(vals);
        assert(ser =~= seq![0x5Bu8] + (items + seq![0x5Du8]));
        lemma_split2(s, i, seq![0x5Bu8], items + seq![0x5Du8]);
        lemma_split2(s, i + 1, items, seq![0x5Du8]);
        lemma_ser_connection_first(vals[0]);
        assert(ser[1] == items[0]);
        assert(items[0] == ser_connection(vals[0])[0]);
        assert(s[i + 1] == ser[1]);
        assert(s[i + 1] != 0x5D);
        assert(s[i + 1 + items.len()] == s.subrange(
            i + 1 + items.len(),
            i + 1 + items.len() + 1,
        )[0]);
        lemma_sp_connitems_of_ser(s, i + 1, vals);
    }
}

/// Appends a JSON array of connections.
pub fn write_connarr(out: &mut Vec<u8>, vals: &Vec<Connection>)
    requires
        forall|k: int| 0 <= k < vals@.len() ==> conn_wire_wf(#[trigger] vals@[k]@),
    ensures
        final(out)@ == old(out)@ + ser_connarr(crate::store::conn_views(vals@)),
{
    out.push(0x5B);
    if vals.len() == 0 {
        out.push(0x5D);
        proof {
            assert(crate::store::conn_views(vals@) =~= Seq::<ConnectionView>::empty());
            assert(final(out)@ =~= old(out)@ + ser_connarr(crate::store::conn_views(vals@)));
        }
        return ;
    }
    let mut k: usize = 0;
    while k < vals.len()
        invariant
            vals@.len() >= 1,
            k <= vals@.len(),
            forall|l: int| 0 <= l < vals@.len() ==> conn_wire_wf(#[trigger] vals@[l]@),
            k == 0 ==> out@ == old(out)@ + seq![0x5Bu8],
            k >= 1 ==> out@ == old(out)@ + seq![0x5Bu8] + ser_connitems(
                crate::store::conn_views(vals@.take(k as int)),
            ),
        decreases vals@.len() - k,
    {
        if k > 0 {
            out.push(0x2C);
        }
        write_connection(out, &vals[k]);
        proof {
            let tk1 = crate::store::conn_views(vals@.take(k as int + 1));
            assert(tk1.drop_last() =~= crate::store::conn_views(vals@.take(k as int)));
            assert(tk1.last() == vals@[k as int]@);
            if k == 0 {
                assert(tk1.len() == 1);
                assert(tk1[0] == vals@[0]@);
                assert(out@ =~= old(out)@ + seq![0x5Bu8] + ser_connitems(tk1));
            } else {
                assert(out@ =~= old(out)@ + seq![0x5Bu8] + ser_connitems(tk1));
            }
        }
        k += 1;
    }
    out.push(0x5D);
    proof {
        assert(vals@.take(vals@.len() as int) =~= vals@);
        assert(final(out)@ =~= old(out)@ + ser_connarr(crate::store::conn_views(vals@)));
    }
}

/// Reads a JSON array of connections, as `sp_connarr` says.
pub fn parse_connarr(s: &Vec<u8>, i: usize) -> (r: Option<(Vec<Connection>, usize)>)
    requires
        i <= s@.len(),
    ensures
        match r {
            Some((v, j)) => i < j <= s@.len() && sp_connarr(s@, i as int) == Some(
                (crate::store::conn_views(v@), j as int),
            ) && (forall|k: int| 0 <= k < v@.len() ==> conn_wire_wf(#[trigger] v@[k]@)),
            None => sp_connarr(s@, i as int) is None,
        },
{
    if i >= s.len() || s[i] != 0x5B {
        return None;
    }
    if i + 1 < s.len() && s[i + 1] == 0x5D {
        let empty: Vec<Connection> = Vec::new();
        proof {
            assert(crate::store::conn_views(empty@) =~= Seq::<ConnectionView>::empty());
        }
        return Some((empty, i + 2));
    }
    let mut acc: Vec<Connection> = Vec::new();
    let mut p: usize = i + 1;
    proof {
        let r0 = sp_connitems(s@, i as int + 1);
        match r0 {
            Some((rest, e)) => {
                assert(crate::store::conn_views(acc@) + rest =~= rest);
            },
            None => {},
        }
    }
    loop
        invariant
            i + 1 <= p <= s@.len(),
            i < s@.len(),
            s@[i as int] == 0x5B,
            !(i as int + 1 < s@.len() && s@[i as int + 1] == 0x5D),
            forall|l: int| 0 <= l < acc@.len() ==> conn_wire_wf(#[trigger] acc@[l]@),
            sp_connitems(s@, i as int + 1) == match sp_connitems(s@, p as int) {
                Some((rest, e)) => Some((crate::store::conn_views(acc@) + rest, e)),
                None => None::<(Seq<ConnectionView>, int)>,
            },
        decreases s@.len() - p,
    {
        let (v, j) = match parse_connection(s, p) {
            Some(x) => x,
            None => {
                return None;
            },
        };
        if j < s.len() && s[j] == 0x2C {
            let ghost prev = crate::store::conn_views(acc@);
            let ghost vv = v@;
            acc.push(v);
            proof {
                assert(crate::store::conn_views(acc@) =~= prev.push(vv));
                let rn = sp_connitems(s@, j as int + 1);
                match rn {
                    Some((rest, e)) => {
                        assert(prev + (seq![vv] + rest) =~= crate::store::conn_views(acc@) + rest);
                    },
                    None => {},
                }
            }
            p = j + 1;
        } else if j < s.len() && s[j] == 0x5D {
            let ghost prev = crate::store::conn_views(acc@);
            let ghost vv = v@;
            acc.push(v);
            proof {
                assert(sp_connitems(s@, p as int) == Some((seq![vv], j as int + 1)));
                assert(prev + seq![vv] =~= crate::store::conn_views(acc@));
                assert(crate::store::conn_views(acc@) =~= prev.push(vv));
            }
            return Some((acc, j + 1));
        } else {
            return None;
        }
    }
}

/// A token known to lie at `i` rules out any token that differs within
/// its length.
proof fn kill_lit(s: Seq<u8>, i: int, good: Seq<u8>, bad: Seq<u8>, k: int)
    requires
        0 <= i,
        i + good.len() <= s.len(),
        s.subrange(i, i + good.len()) == good,
        0 <= k < good.len(),
        k < bad.len(),
        good[k] != bad[k],
    ensures
        sp_lit(s, i, bad) is None,
{
    assert forall|m: int| 0 <= m < good.len() implies s[i + m] == good[m] by {
        assert(s.subrange(i, i + good.len())[m] == s[i + m]);
    }
    lemma_lit_differs(s, i, good, bad, k);
}

/// The tagged form of a refresh signal.
pub open spec fn ser_refresh(r: RefreshRequest) -> Seq<u8> {
    match r {
        RefreshRequest::Connection => t_refresh_connection(),
        RefreshRequest::Message => t_refresh_message(),
        RefreshRequest::Kill => t_refresh_kill(),
    }
}

/// Reads a tagged refresh signal.
pub open spec fn sp_refresh(s: Seq<u8>, i: int) -> Option<(RefreshRequest, int)> {
    match sp_lit(s, i, t_refresh_connection()) {
        Some(j) => Some((RefreshRequest::Connection, j)),
        None => match sp_lit(s, i, t_refresh_message()) {
            Some(j) => Some((RefreshRequest::Message, j)),
            None => match sp_lit(s, i, t_refresh_kill()) {
                Some(j) => Some((RefreshRequest::Kill, j)),
                None => None,
            },
        },
    }
}

/// Parsing a refresh signal right after writing it.
pub proof fn lemma_sp_refresh_of_ser(s: Seq<u8>, i: int, r: RefreshRequest)
    requires
        0 <= i,
        i + ser_refresh(r).len() <= s.len(),
        s.subrange(i, i + ser_refresh(r).len()) == ser_refresh(r),
    ensures
        sp_refresh(s, i) == Some((r, i + ser_refresh(r).len())),
{
    match r {
        RefreshRequest::Connection => {},
        RefreshRequest::Message => {
            kill_lit(s, i, t_refresh_message(), t_refresh_connection(), 1);
        },
        RefreshRequest::Kill => {
            kill_lit(s, i, t_refresh_kill(), t_refresh_connection(), 1);
            kill_lit(s, i, t_refresh_kill(), t_refresh_message(), 1);
        },
    }
}

/// Appends the tagged form of a refresh signal.
pub fn write_refresh(out: &mut Vec<u8>, r: &RefreshRequest)
    ensures
        final(out)@ == old(out)@ + ser_refresh(*r),
{
    match r {
        RefreshRequest::Connection => {
            let tok = tv_refresh_connection();
            push_tok(out, &tok);
        },
        RefreshRequest::Message => {
            let tok = tv_refresh_message();
            push_tok(out, &tok);
        },
        RefreshRequest::Kill => {
            let tok = tv_refresh_kill();
            push_tok(out, &tok);
        },
    }
}

/// Reads a refresh signal, as `sp_refresh` says.
pub fn parse_refresh(s: &Vec<u8>, i: usize) -> (r: Option<(RefreshRequest, usize)>)
    requires
        i <= s@.len(),
    ensures
        match r {
            Some((v, j)) => i < j <= s@.len() && sp_refresh(s@, i as int) == Some((v, j as int)),
            None => sp_refresh(s@, i as int) is None,
        },
{
    let tok = tv_refresh_connection();
    if let Some(j) = expect(s, i, &tok) {
        return Some((RefreshRequest::Connection, j));
    }
    let tok = tv_refresh_message();
    if let Some(j) = expect(s, i, &tok) {
        return Some((RefreshRequest::Message, j));
    }
    let tok = tv_refresh_kill();
    if let Some(j) = expect(s, i, &tok) {
        return Some((RefreshRequest::Kill, j));
    }
    None
}

/// The tagged form of a peer-protocol reply.
#[verifier::opaque]
pub open spec fn ser_p2presp(r: P2PResponseView) -> Seq<u8> {
    match r {
        P2PResponseView::AcceptConnection(id, n, a) => t_acceptconnection() + dec_digits(
            id as nat,
        ) + seq![0x2Cu8] + ser_qstr(n) + seq![0x2Cu8, 0x22u8] + ser_addr(a) + seq![
            0x22u8,
            0x5Du8,
            0x7Du8,
        ],
        P2PResponseView::Recieved(id) => t_recieved() + dec_digits(id as nat) + seq![0x7Du8],
        P2PResponseView::BulkRecieved(v) => t_bulkrecieved() + ser_numarr(v) + seq![0x7Du8],
    }
}

/// Reads a tagged peer-protocol reply.
#[verifier::opaque]
pub open spec fn sp_p2presp(s: Seq<u8>, i: int) -> Option<(P2PResponseView, int)> {
    match sp_lit(s, i, t_acceptconnection()) {
        Some(p1) => match sp_u32(s, p1) {
            Some((id, p2)) => if p2 < s.len() && s[p2] == 0x2C {
                match sp_qstr(s, p2 + 1) {
                    Some((n, p3)) => if p3 + 1 < s.len() && s[p3] == 0x2C && s[p3 + 1] == 0x22 {
                        match sp_addr(s, p3 + 2) {
                            Some((a, p4)) => if p4 + 2 < s.len() && s[p4] == 0x22 && s[p4 + 1]
                                == 0x5D && s[p4 + 2] == 0x7D {
                                Some((P2PResponseView::AcceptConnection(id, n, a), p4 + 3))
                            } else {
                                None
                            },
                            None => None,
                        }
                    } else {
                        None
                    },
                    None => None,
                }
            } else {
                None
            },
            None => None,
        },
        None => match sp_lit(s, i, t_recieved()) {
            Some(p1) => match sp_u32(s, p1) {
                Some((id, p2)) => if p2 < s.len() && s[p2] == 0x7D {
                    Some((P2PResponseView::Recieved(id), p2 + 1))
                } else {
                    None
                },
                None => None,
            },
            None => match sp_lit(s, i, t_bulkrecieved()) {
                Some(p1) => match sp_numarr(s, p1) {
                    Some((v, p2)) => if p2 < s.len() && s[p2] == 0x7D {
                        Some((P2PResponseView::BulkRecieved(v), p2 + 1))
                    } else {
                        None
                    },
                    None => None,
                },
                None => None,
            },
        },
    }
}

/// Parsing a peer-protocol reply right after writing it.
#[verifier::rlimit(100)]
#[verifier::spinoff_prover]
pub proof fn lemma_sp_p2presp_of_ser(s: Seq<u8>, i: int, r: P2PResponseView)
    requires
        0 <= i,
        i + ser_p2presp(r).len() <= s.len(),
        s.subrange(i, i + ser_p2presp(r).len()) == ser_p2presp(r),
    ensures
        sp_p2presp(s, i) == Some((r, i + ser_p2presp(r).len())),
{
    reveal(ser_p2presp);
    reveal(sp_p2presp);
    match r {
        P2PResponseView::AcceptConnection(id, n, a) => {
            let d = dec_digits(id as nat);
            let w1 = ser_qstr(n);
            let w2 = ser_addr(a);
            let x1 = t_acceptconnection();
            let x2 = x1 + d;
            let x3 = x2 + seq![0x2Cu8];
            let x4 = x3 + w1;
            let x5 = x4 + seq![0x2Cu8, 0x22u8];
            let x6 = x5 + w2;
            lemma_split2(s, i, x6, seq![0x22u8, 0x5Du8, 0x7Du8]);
            let o6 = x6.len() as int;
            assert(s[i + o6] == s.subrange(i + o6, i + o6 + 3)[0]);
            assert(s[i + o6 + 1] == s.subrange(i + o6, i + o6 + 3)[1]);
            assert(s[i + o6 + 2] == s.subrange(i + o6, i + o6 + 3)[2]);
            lemma_split2(s, i, x5, w2);
            lemma_sp_addr_of_ser(s, i + x5.len(), a);
            lemma_split2(s, i, x4, seq![0x2Cu8, 0x22u8]);
            let o4 = x4.len() as int;
            assert(s[i + o4] == s.subrange(i + o4, i + o4 + 2)[0]);
            assert(s[i + o4 + 1] == s.subrange(i + o4, i + o4 + 2)[1]);
            lemma_split2(s, i, x3, w1);
            lemma_sp_qstr_of_ser(s, i + x3.len(), n);
            lemma_split2(s, i, x2, seq![0x2Cu8]);
            let o2 = x2.len() as int;
            assert(s[i + o2] == s.subrange(i + o2, i + o2 + 1)[0]);
            assert(!is_digit(s[i + o2]));
            lemma_split2(s, i, x1, d);
            lemma_sp_u32_of_ser(s, i + x1.len(), id);
        },
        P2PResponseView::Recieved(id) => {
            let d = dec_digits(id as nat);
            let x1 = t_recieved();
            let x2 = x1 + d;
            lemma_split2(s, i, x2, seq![0x7Du8]);
            let o2 = x2.len() as int;
            assert(s[i + o2] == s.subrange(i + o2, i + o2 + 1)[0]);
            assert(!is_digit(s[i + o2]));
            lemma_split2(s, i, x1, d);
            lemma_sp_u32_of_ser(s, i + x1.len(), id);
            kill_lit(s, i, t_recieved(), t_acceptconnection(), 2);
        },
        P2PResponseView::BulkRecieved(v) => {
            let w = ser_numarr(v);
            let x1 = t_bulkrecieved();
            let x2 = x1 + w;
            lemma_split2(s, i, x2, seq![0x7Du8]);
            let o2 = x2.len() as int;
            assert(s[i + o2] == s.subrange(i + o2, i + o2 + 1)[0]);
            lemma_split2(s, i, x1, w);
            lemma_sp_numarr_of_ser(s, i + x1.len(), v);
            kill_lit(s, i, t_bulkrecieved(), t_acceptconnection(), 2);
            kill_lit(s, i, t_bulkrecieved(), t_recieved(), 2);
        },
    }
}

/// Appends the tagged form of a peer-protocol reply.
pub fn write_p2presp(out: &mut Vec<u8>, r: &PeerToPeerResponse)
    ensures
        final(out)@ == old(out)@ + ser_p2presp(r@),
{
    proof {
        reveal(ser_p2presp);
    }
    match r {
        PeerToPeerResponse::AcceptConnection(id, n, a) => {
            let tok = tv_acceptconnection();
            push_tok(out, &tok);
            write_u32(out, *id);
            out.push(0x2C);
            write_qstr(out, n.as_str());
            out.push(0x2C);
            out.push(0x22);
            write_addr(out, a);
            out.push(0x22);
            out.push(0x5D);
            out.push(0x7D);
            proof {
                assert(final(out)@ =~= old(out)@ + ser_p2presp(r@));
            }
        },
        PeerToPeerResponse::Recieved(id) => {
            let tok = tv_recieved();
            push_tok(out, &tok);
            write_u32(out, *id);
            out.push(0x7D);
            proof {
                assert(final(out)@ =~= old(out)@ + ser_p2presp(r@));
            }
        },
        PeerToPeerResponse::BulkRecieved(v) => {
            let tok = tv_bulkrecieved();
            push_tok(out, &tok);
            write_numarr(out, v);
            out.push(0x7D);
            proof {
                assert(final(out)@ =~= old(out)@ + ser_p2presp(r@));
            }
        },
    }
}

/// Reads a peer-protocol reply, as `sp_p2presp` says.
pub fn parse_p2presp(s: &Vec<u8>, i: usize) -> (r: Option<(PeerToPeerResponse, usize)>)
    requires
        i <= s@.len(),
    ensures
        match r {
            Some((v, j)) => i < j <= s@.len() && sp_p2presp(s@, i as int) == Some(
                (v@, j as int),
            ),
            None => sp_p2presp(s@, i as int) is None,
        },
{
    proof {
        reveal(sp_p2presp);
    }
    let tok = tv_acceptconnection();
    if let Some(p1) = expect(s, i, &tok) {
        let (id, p2) = match parse_u32(s, p1) {
            Some(x) => x,
            None => {
                return None;
            },
        };
        if !(p2 < s.len() && s[p2] == 0x2C) {
            return None;
        }
        let (n, p3) = match parse_qstr(s, p2 + 1) {
            Some(x) => x,
            None => {
                return None;
            },
        };
        if !(s.len() - p3 > 1 && s[p3] == 0x2C && s[p3 + 1] == 0x22) {
            return None;
        }
        let (a, p4) = match parse_addr(s, p3 + 2) {
            Some(x) => x,
            None => {
                return None;
            },
        };
        if s.len() - p4 > 2 && s[p4] == 0x22 && s[p4 + 1] == 0x5D && s[p4 + 2] == 0x7D {
            return Some((PeerToPeerResponse::AcceptConnection(id, n, a), p4 + 3));
        }
        return None;
    }
    let tok = tv_recieved();
    if let Some(p1) = expect(s, i, &tok) {
        let (id, p2) = match parse_u32(s, p1) {
            Some(x) => x,
            None => {
                return None;
            },
        };
        if p2 < s.len() && s[p2] == 0x7D {
            return Some((PeerToPeerResponse::Recieved(id), p2 + 1));
        }
        return None;
    }
    let tok = tv_bulkrecieved();
    if let Some(p1) = expect(s, i, &tok) {
        let (v, p2) = match parse_numarr(s, p1) {
            Some(x) => x,
            None => {
                return None;
            },
        };
        if p2 < s.len() && s[p2] == 0x7D {
            return Some((PeerToPeerResponse::BulkRecieved(v), p2 + 1));
        }
        return None;
    }
    None
}

/// A peer-protocol request whose timestamps are in range.
pub open spec fn p2preq_wire_wf(r: P2PRequestView) -> bool {
    match r {
        P2PRequestView::ProposeConnection(_, _, _) => true,
        P2PRequestView::Message(m) => msg_wire_wf(m),
        P2PRequestView::BulkMessage(v) => forall|k: int|
            0 <= k < v.len() ==> msg_wire_wf(#[trigger] v[k]),
    }
}

/// The tagged form of a peer-protocol request.
#[verifier::opaque]
pub open spec fn ser_p2preq(r: P2PRequestView) -> Seq<u8> {
    match r {
        P2PRequestView::ProposeConnection(id, n, a) => t_proposeconnection() + dec_digits(
            id as nat,
        ) + seq![0x2Cu8] + ser_qstr(n) + seq![0x2Cu8, 0x22u8] + ser_addr(a) + seq![
            0x22u8,
            0x5Du8,
            0x7Du8,
        ],
        P2PRequestView::Message(m) => t_message_variant() + ser_message(m) + seq![0x7Du8],
        P2PRequestView::BulkMessage(v) => t_bulkmessage() + ser_msgarr(v) + seq![0x7Du8],
    }
}

/// Reads a tagged peer-protocol request.
#[verifier::opaque]
pub open spec fn sp_p2preq(s: Seq<u8>, i: int) -> Option<(P2PRequestView, int)> {
    match sp_lit(s, i, t_proposeconnection()) {
        Some(p1) => match sp_u32(s, p1) {
            Some((id, p2)) => if p2 < s.len() && s[p2] == 0x2C {
                match sp_qstr(s, p2 + 1) {
                    Some((n, p3)) => if p3 + 1 < s.len() && s[p3] == 0x2C && s[p3 + 1] == 0x22 {
                        match sp_addr(s, p3 + 2) {
                            Some((a, p4)) => if p4 + 2 < s.len() && s[p4] == 0x22 && s[p4 + 1]
                                == 0x5D && s[p4 + 2] == 0x7D {
                                Some((P2PRequestView::ProposeConnection(id, n, a), p4 + 3))
                            } else {
                                None
                            },
                            None => None,
                        }
                    } else {
                        None
                    },
                    None => None,
                }
            } else {
                None
            },
            None => None,
        },
        None => match sp_lit(s, i, t_message_variant()) {
            Some(p1) => match sp_message(s, p1) {
                Some((m, p2)) => if p2 < s.len() && s[p2] == 0x7D {
                    Some((P2PRequestView::Message(m), p2 + 1))
                } else {
                    None
                },
                None => None,
            },
            None => match sp_lit(s, i, t_bulkmessage()) {
                Some(p1) => match sp_msgarr(s, p1) {
                    Some((v, p2)) => if p2 < s.len() && s[p2] == 0x7D {
                        Some((P2PRequestView::BulkMessage(v), p2 + 1))
                    } else {
                        None
                    },
                    None => None,
                },
                None => None,
            },
        },
    }
}

/// Parsing a peer-protocol request right after writing it.
#[verifier::rlimit(100)]
#[verifier::spinoff_prover]
pub proof fn lemma_sp_p2preq_of_ser(s: Seq<u8>, i: int, r: P2PRequestView)
    requires
        0 <= i,
        p2preq_wire_wf(r),
        i + ser_p2preq(r).len() <= s.len(),
        s.subrange(i, i + ser_p2preq(r).len()) == ser_p2preq(r),
    ensures
        sp_p2preq(s, i) == Some((r, i + ser_p2preq(r).len())),
{
    reveal(ser_p2preq);
    reveal(sp_p2preq);
    match r {
        P2PRequestView::ProposeConnection(id, n, a) => {
            let d = dec_digits(id as nat);
            let w1 = ser_qstr(n);
            let w2 = ser_addr(a);
            let x1 = t_proposeconnection();
            let x2 = x1 + d;
            let x3 = x2 + seq![0x2Cu8];
            let x4 = x3 + w1;
            let x5 = x4 + seq![0x2Cu8, 0x22u8];
            let x6 = x5 + w2;
            lemma_split2(s, i, x6, seq![0x22u8, 0x5Du8, 0x7Du8]);
            let o6 = x6.len() as int;
            assert(s[i + o6] == s.subrange(i + o6, i + o6 + 3)[0]);
            assert(s[i + o6 + 1] == s.subrange(i + o6, i + o6 + 3)[1]);
            assert(s[i + o6 + 2] == s.subrange(i + o6, i + o6 + 3)[2]);
            lemma_split2(s, i, x5, w2);
            lemma_sp_addr_of_ser(s, i + x5.len(), a);
            lemma_split2(s, i, x4, seq![0x2Cu8, 0x22u8]);
            let o4 = x4.len() as int;
            assert(s[i + o4] == s.subrange(i + o4, i + o4 + 2)[0]);
            assert(s[i + o4 + 1] == s.subrange(i + o4, i + o4 + 2)[1]);
            lemma_split2(s, i, x3, w1);
            lemma_sp_qstr_of_ser(s, i + x3.len(), n);
            lemma_split2(s, i, x2, seq![0x2Cu8]);
            let o2 = x2.len() as int;
            assert(s[i + o2] == s.subrange(i + o2, i + o2 + 1)[0]);
            assert(!is_digit(s[i + o2]));
            lemma_split2(s, i, x1, d);
            lemma_sp_u32_of_ser(s, i + x1.len(), id);
        },
        P2PRequestView::Message(m) => {
            let w = ser_message(m);
            let x1 = t_message_variant();
            let x2 = x1 + w;
            lemma_split2(s, i, x2, seq![0x7Du8]);
            let o2 = x2.len() as int;
            assert(s[i + o2] == s.subrange(i + o2, i + o2 + 1)[0]);
            lemma_split2(s, i, x1, w);
            lemma_sp_message_of_ser(s, i + x1.len(), m);
            kill_lit(s, i, t_message_variant(), t_proposeconnection(), 2);
        },
        P2PRequestView::BulkMessage(v) => {
            let w = ser_msgarr(v);
            let x1 = t_bulkmessage();
            let x2 = x1 + w;
            lemma_split2(s, i, x2, seq![0x7Du8]);
            let o2 = x2.len() as int;
            assert(s[i + o2] == s.subrange(i + o2, i + o2 + 1)[0]);
            lemma_split2(s, i, x1, w);
            lemma_sp_msgarr_of_ser(s, i + x1.len(), v);
            kill_lit(s, i, t_bulkmessage(), t_proposeconnection(), 2);
            kill_lit(s, i, t_bulkmessage(), t_message_variant(), 2);
        },
    }
}

/// Appends the tagged form of a peer-protocol request.
pub fn write_p2preq(out: &mut Vec<u8>, r: &PeerToPeerRequest)
    requires
        p2preq_wire_wf(r@),
    ensures
        final(out)@ == old(out)@ + ser_p2preq(r@),
{
    proof {
        reveal(ser_p2preq);
    }
    match r {
        PeerToPeerRequest::ProposeConnection(id, n, a) => {
            let tok = tv_proposeconnection();
            push_tok(out, &tok);
            write_u32(out, *id);
            out.push(0x2C);
            write_qstr(out, n.as_str());
            out.push(0x2C);
            out.push(0x22);
            write_addr(out, a);
            out.push(0x22);
            out.push(0x5D);
            out.push(0x7D);
            proof {
                assert(final(out)@ =~= old(out)@ + ser_p2preq(r@));
            }
        },
        PeerToPeerRequest::Message(m) => {
            let tok = tv_message_variant();
            push_tok(out, &tok);
            write_message(out, m);
            out.push(0x7D);
            proof {
                assert(final(out)@ =~= old(out)@ + ser_p2preq(r@));
            }
        },
        PeerToPeerRequest::BulkMessage(v) => {
            proof {
                assert forall|k: int| 0 <= k < v@.len() implies msg_wire_wf(
                    #[trigger] v@[k]@,
                ) by {
                    let mapped = v@.map_values(|m: Message| m@);
                    assert(r@ == P2PRequestView::BulkMessage(mapped));
                    assert(p2preq_wire_wf(P2PRequestView::BulkMessage(mapped)));
                    let vv = P2PRequestView::BulkMessage(mapped)->BulkMessage_0;
                    assert(msg_wire_wf(vv[k]));
                    assert(vv == mapped);
                    assert(mapped[k] == v@[k]@);
                    assert(msg_wire_wf(mapped[k]));
                }
            }
            let tok = tv_bulkmessage();
            push_tok(out, &tok);
            write_msgarr(out, v);
            out.push(0x7D);
            proof {
                assert(final(out)@ =~= old(out)@ + ser_p2preq(r@));
            }
        },
    }
}

/// Reads a peer-protocol request, as `sp_p2preq` says.
pub fn parse_p2preq(s: &Vec<u8>, i: usize) -> (r: Option<(PeerToPeerRequest, usize)>)
    requires
        i <= s@.len(),
    ensures
        match r {
            Some((v, j)) => i < j <= s@.len() && sp_p2preq(s@, i as int) == Some((v@, j as int))
                && p2preq_wire_wf(v@),
            None => sp_p2preq(s@, i as int) is None,
        },
{
    proof {
        reveal(sp_p2preq);
    }
    let tok = tv_proposeconnection();
    if let Some(p1) = expect(s, i, &tok) {
        let (id, p2) = match parse_u32(s, p1) {
            Some(x) => x,
            None => {
                return None;
            },
        };
        if !(p2 < s.len() && s[p2] == 0x2C) {
            return None;
        }
        let (n, p3) = match parse_qstr(s, p2 + 1) {
            Some(x) => x,
            None => {
                return None;
            },
        };
        if !(s.len() - p3 > 1 && s[p3] == 0x2C && s[p3 + 1] == 0x22) {
            return None;
        }
        let (a, p4) = match parse_addr(s, p3 + 2) {
            Some(x) => x,
            None => {
                return None;
            },
        };
        if s.len() - p4 > 2 && s[p4] == 0x22 && s[p4 + 1] == 0x5D && s[p4 + 2] == 0x7D {
            return Some((PeerToPeerRequest::ProposeConnection(id, n, a), p4 + 3));
        }
        return None;
    }
    let tok = tv_message_variant();
    if let Some(p1) = expect(s, i, &tok) {
        let (m, p2) = match parse_message(s, p1) {
            Some(x) => x,
            None => {
                return None;
            },
        };
        if p2 < s.len() && s[p2] == 0x7D {
            return Some((PeerToPeerRequest::Message(m), p2 + 1));
        }
        return None;
    }
    let tok = tv_bulkmessage();
    if let Some(p1) = expect(s, i, &tok) {
        let (v, p2) = match parse_msgarr(s, p1) {
            Some(x) => x,
            None => {
                return None;
            },
        };
        if p2 < s.len() && s[p2] == 0x7D {
            return Some((PeerToPeerRequest::BulkMessage(v), p2 + 1));
        }
        return None;
    }
    None
}

/// A front-end request whose timestamps are in range.
pub open spec fn b2freq_wire_wf(r: B2FRequestView) -> bool {
    match r {
        B2FRequestView::ListMessages(_, since, until) => since.wf() && until.wf(),
        _ => true,
    }
}

/// The tagged form of a front-end request.
#[verifier::opaque]
pub open spec fn ser_b2freq(r: B2FRequestView) -> Seq<u8> {
    match r {
        B2FRequestView::LinkingRequest => t_linkingrequest(),
        B2FRequestView::EstablishPeerConnection(a) => t_establish() + ser_addr(a)
            + t_close_qt_brace(),
        B2FRequestView::ListMessages(pid, since, until) => t_listmessages() + dec_digits(
            pid as nat,
        ) + seq![0x2Cu8, 0x22u8] + ser_ts(since) + seq![0x22u8, 0x2Cu8, 0x22u8] + ser_ts(until)
            + seq![0x22u8, 0x5Du8, 0x7Du8],
        B2FRequestView::ListPeerConnections => t_listpeerconnections(),
        B2FRequestView::MessagePeer(pid, c) => t_messagepeer() + dec_digits(pid as nat)
            + seq![0x2Cu8] + ser_mcontent(c) + t_close_bracket_brace(),
        B2FRequestView::RetryUnrecieved(pid) => t_retryunrecieved() + dec_digits(pid as nat)
            + seq![0x7Du8],
        B2FRequestView::PingPeer(pid) => t_pingpeer() + dec_digits(pid as nat) + seq![0x7Du8],
        B2FRequestView::KillRefresher => t_killrefresher(),
    }
}

/// Reads a tagged front-end request.
#[verifier::opaque]
pub open spec fn sp_b2freq(s: Seq<u8>, i: int) -> Option<(B2FRequestView, int)> {
    match sp_lit(s, i, t_establish()) {
        Some(p1) => match sp_addr(s, p1) {
            Some((a, p2)) => match sp_lit(s, p2, t_close_qt_brace()) {
                Some(e) => Some((B2FRequestView::EstablishPeerConnection(a), e)),
                None => None,
            },
            None => None,
        },
        None => match sp_lit(s, i, t_listmessages()) {
            Some(p1) => match sp_u32(s, p1) {
                Some((pid, p2)) => if p2 + 1 < s.len() && s[p2] == 0x2C && s[p2 + 1] == 0x22 {
                    match sp_ts(s, p2 + 2) {
                        Some((since, p3)) => if p3 + 2 < s.len() && s[p3] == 0x22 && s[p3 + 1]
                            == 0x2C && s[p3 + 2] == 0x22 {
                            match sp_ts(s, p3 + 3) {
                                Some((until, p4)) => if p4 + 2 < s.len() && s[p4] == 0x22 && s[p4
                                    + 1] == 0x5D && s[p4 + 2] == 0x7D {
                                    Some((B2FRequestView::ListMessages(pid, since, until), p4 + 3))
                                } else {
                                    None
                                },
                                None => None,
                            }
                        } else {
                            None
                        },
                        None => None,
                    }
                } else {
                    None
                },
                None => None,
            },
            None => match sp_lit(s, i, t_messagepeer()) {
                Some(p1) => match sp_u32(s, p1) {
                    Some((pid, p2)) => if p2 < s.len() && s[p2] == 0x2C {
                        match sp_mcontent(s, p2 + 1) {
                            Some((c, p3)) => match sp_lit(s, p3, t_close_bracket_brace()) {
                                Some(e) => Some((B2FRequestView::MessagePeer(pid, c), e)),
                                None => None,
                            },
                            None => None,
                        }
                    } else {
                        None
                    },
                    None => None,
                },
                None => match sp_lit(s, i, t_retryunrecieved()) {
                    Some(p1) => match sp_u32(s, p1) {
                        Some((pid, p2)) => if p2 < s.len() && s[p2] == 0x7D {
                            Some((B2FRequestView::RetryUnrecieved(pid), p2 + 1))
                        } else {
                            None
                        },
                        None => None,
                    },
                    None => match sp_lit(s, i, t_pingpeer()) {
                        Some(p1) => match sp_u32(s, p1) {
                            Some((pid, p2)) => if p2 < s.len() && s[p2] == 0x7D {
                                Some((B2FRequestView::PingPeer(pid), p2 + 1))
                            } else {
                                None
                            },
                            None => None,
                        },
                        None => match sp_lit(s, i, t_linkingrequest()) {
                            Some(j) => Some((B2FRequestView::LinkingRequest, j)),
                            None => match sp_lit(s, i, t_listpeerconnections()) {
                                Some(j) => Some((B2FRequestView::ListPeerConnections, j)),
                                None => match sp_lit(s, i, t_killrefresher()) {
                                    Some(j) => Some((B2FRequestView::KillRefresher, j)),
                                    None => None,
                                },
                            },
                        },
                    },
                },
            },
        },
    }
}

/// One variant of a written front-end request, read back.
#[verifier::rlimit(100)]
#[verifier::spinoff_prover]
proof fn lemma_b2freq_establish(s: Seq<u8>, i: int, a: NetAddr)
    requires
        0 <= i,
        b2freq_wire_wf(B2FRequestView::EstablishPeerConnection(a)),
        i + ser_b2freq(B2FRequestView::EstablishPeerConnection(a)).len() <= s.len(),
        s.subrange(i, i + ser_b2freq(B2FRequestView::EstablishPeerConnection(a)).len()) == ser_b2freq(B2FRequestView::EstablishPeerConnection(a)),
    ensures
        sp_b2freq(s, i) == Some((B2FRequestView::EstablishPeerConnection(a), i + ser_b2freq(B2FRequestView::EstablishPeerConnection(a)).len())),
{
    reveal(ser_b2freq);
    reveal(sp_b2freq);
    let w = ser_addr(a);
            let x1 = t_establish();
            let x2 = x1 + w;
            lemma_split2(s, i, x2, t_close_qt_brace());
            let o2 = x2.len() as int;
            assert(s[i + o2] == s.subrange(i + o2, i + o2 + 2)[0]);
            assert(!is_digit(s[i + o2]));
            lemma_split2(s, i, x1, w);
            lemma_sp_addr_of_ser(s, i + x1.len(), a);
}

/// One variant of a written front-end request, read back.
#[verifier::rlimit(100)]
#[verifier::spinoff_prover]
proof fn lemma_b2freq_listmessages(s: Seq<u8>, i: int, pid: u32, since: Timestamp, until: Timestamp)
    requires
        0 <= i,
        b2freq_wire_wf(B2FRequestView::ListMessages(pid, since, until)),
        i + ser_b2freq(B2FRequestView::ListMessages(pid, since, until)).len() <= s.len(),
        s.subrange(i, i + ser_b2freq(B2FRequestView::ListMessages(pid, since, until)).len()) == ser_b2freq(B2FRequestView::ListMessages(pid, since, until)),
    ensures
        sp_b2freq(s, i) == Some((B2FRequestView::ListMessages(pid, since, until), i + ser_b2freq(B2FRequestView::ListMessages(pid, since, until)).len())),
{
    reveal(ser_b2freq);
    reveal(sp_b2freq);
    let d = dec_digits(pid as nat);
            let w1 = ser_ts(since);
            let w2 = ser_ts(until);
            let x1 = t_listmessages();
            let x2 = x1 + d;
            let x3 = x2 + seq![0x2Cu8, 0x22u8];
            let x4 = x3 + w1;
            let x5 = x4 + seq![0x22u8, 0x2Cu8, 0x22u8];
            let x6 = x5 + w2;
            lemma_split2(s, i, x6, seq![0x22u8, 0x5Du8, 0x7Du8]);
            let o6 = x6.len() as int;
            assert(s[i + o6] == s.subrange(i + o6, i + o6 + 3)[0]);
            assert(s[i + o6 + 1] == s.subrange(i + o6, i + o6 + 3)[1]);
            assert(s[i + o6 + 2] == s.subrange(i + o6, i + o6 + 3)[2]);
            lemma_split2(s, i, x5, w2);
            lemma_sp_ts_of_ser(s, i + x5.len(), until);
            lemma_split2(s, i, x4, seq![0x22u8, 0x2Cu8, 0x22u8]);
            let o4 = x4.len() as int;
            assert(s[i + o4] == s.subrange(i + o4, i + o4 + 3)[0]);
            assert(s[i + o4 + 1] == s.subrange(i + o4, i + o4 + 3)[1]);
            assert(s[i + o4 + 2] == s.subrange(i + o4, i + o4 + 3)[2]);
            lemma_split2(s, i, x3, w1);
            lemma_sp_ts_of_ser(s, i + x3.len(), since);
            lemma_split2(s, i, x2, seq![0x2Cu8, 0x22u8]);
            let o2 = x2.len() as int;
            assert(s[i + o2] == s.subrange(i + o2, i + o2 + 2)[0]);
            assert(s[i + o2 + 1] == s.subrange(i + o2, i + o2 + 2)[1]);
            assert(!is_digit(s[i + o2]));
            lemma_split2(s, i, x1, d);
            lemma_sp_u32_of_ser(s, i + x1.len(), pid);
            kill_lit(s, i, t_listmessages(), t_establish(), 2);
}

/// One variant of a written front-end request, read back.
#[verifier::rlimit(100)]
#[verifier::spinoff_prover]
proof fn lemma_b2freq_messagepeer(s: Seq<u8>, i: int, pid: u32, c: ContentView)
    requires
        0 <= i,
        b2freq_wire_wf(B2FRequestView::MessagePeer(pid, c)),
        i + ser_b2freq(B2FRequestView::MessagePeer(pid, c)).len() <= s.len(),
        s.subrange(i, i + ser_b2freq(B2FRequestView::MessagePeer(pid, c)).len()) == ser_b2freq(B2FRequestView::MessagePeer(pid, c)),
    ensures
        sp_b2freq(s, i) == Some((B2FRequestView::MessagePeer(pid, c), i + ser_b2freq(B2FRequestView::MessagePeer(pid, c)).len())),
{
    reveal(ser_b2freq);
    reveal(sp_b2freq);
    let d = dec_digits(pid as nat);
            let w = ser_mcontent(c);
            let x1 = t_messagepeer();
            let x2 = x1 + d;
            let x3 = x2 + seq![0x2Cu8];
            let x4 = x3 + w;
            lemma_split2(s, i, x4, t_close_bracket_brace());
            lemma_split2(s, i, x3, w);
            lemma_sp_mcontent_of_ser(s, i + x3.len(), c);
            lemma_split2(s, i, x2, seq![0x2Cu8]);
            let o2 = x2.len() as int;
            assert(s[i + o2] == s.subrange(i + o2, i + o2 + 1)[0]);
            assert(!is_digit(s[i + o2]));
            lemma_split2(s, i, x1, d);
            lemma_sp_u32_of_ser(s, i + x1.len(), pid);
            kill_lit(s, i, t_messagepeer(), t_establish(), 2);
            kill_lit(s, i, t_messagepeer(), t_listmessages(), 2);
}

/// One variant of a written front-end request, read back.
#[verifier::rlimit(100)]
#[verifier::spinoff_prover]
proof fn lemma_b2freq_retry(s: Seq<u8>, i: int, pid: u32)
    requires
        0 <= i,
        b2freq_wire_wf(B2FRequestView::RetryUnrecieved(pid)),
        i + ser_b2freq(B2FRequestView::RetryUnrecieved(pid)).len() <= s.len(),
        s.subrange(i, i + ser_b2freq(B2FRequestView::RetryUnrecieved(pid)).len()) == ser_b2freq(B2FRequestView::RetryUnrecieved(pid)),
    ensures
        sp_b2freq(s, i) == Some((B2FRequestView::RetryUnrecieved(pid), i + ser_b2freq(B2FRequestView::RetryUnrecieved(pid)).len())),
{
    reveal(ser_b2freq);
    reveal(sp_b2freq);
    let d = dec_digits(pid as nat);
            let x1 = t_retryunrecieved();
            let x2 = x1 + d;
            lemma_split2(s, i, x2, seq![0x7Du8]);
            let o2 = x2.len() as int;
            assert(s[i + o2] == s.subrange(i + o2, i + o2 + 1)[0]);
            assert(!is_digit(s[i + o2]));
            lemma_split2(s, i, x1, d);
            lemma_sp_u32_of_ser(s, i + x1.len(), pid);
            kill_lit(s, i, t_retryunrecieved(), t_establish(), 2);
            kill_lit(s, i, t_retryunrecieved(), t_listmessages(), 2);
            kill_lit(s, i, t_retryunrecieved(), t_messagepeer(), 2);
}

/// One variant of a written front-end request, read back.
#[verifier::rlimit(100)]
#[verifier::spinoff_prover]
proof fn lemma_b2freq_ping(s: Seq<u8>, i: int, pid: u32)
    requires
        0 <= i,
        b2freq_wire_wf(B2FRequestView::PingPeer(pid)),
        i + ser_b2freq(B2FRequestView::PingPeer(pid)).len() <= s.len(),
        s.subrange(i, i + ser_b2freq(B2FRequestView::PingPeer(pid)).len()) == ser_b2freq(B2FRequestView::PingPeer(pid)),
    ensures
        sp_b2freq(s, i) == Some((B2FRequestView::PingPeer(pid), i + ser_b2freq(B2FRequestView::PingPeer(pid)).len())),
{
    reveal(ser_b2freq);
    reveal(sp_b2freq);
    let d = dec_digits(pid as nat);
            let x1 = t_pingpeer();
            let x2 = x1 + d;
            lemma_split2(s, i, x2, seq![0x7Du8]);
            let o2 = x2.len() as int;
            assert(s[i + o2] == s.subrange(i + o2, i + o2 + 1)[0]);
            assert(!is_digit(s[i + o2]));
            lemma_split2(s, i, x1, d);
            lemma_sp_u32_of_ser(s, i + x1.len(), pid);
            kill_lit(s, i, t_pingpeer(), t_establish(), 2);
            kill_lit(s, i, t_pingpeer(), t_listmessages(), 2);
            kill_lit(s, i, t_pingpeer(), t_messagepeer(), 2);
            kill_lit(s, i, t_pingpeer(), t_retryunrecieved(), 2);
}

/// Parsing a front-end request right after writing it.
#[verifier::rlimit(100)]
#[verifier::spinoff_prover]
pub proof fn lemma_sp_b2freq_of_ser(s: Seq<u8>, i: int, r: B2FRequestView)
    requires
        0 <= i,
        b2freq_wire_wf(r),
        i + ser_b2freq(r).len() <= s.len(),
        s.subrange(i, i + ser_b2freq(r).len()) == ser_b2freq(r),
    ensures
        sp_b2freq(s, i) == Some((r, i + ser_b2freq(r).len())),
{
    reveal(ser_b2freq);
    reveal(sp_b2freq);
    match r {
        B2FRequestView::LinkingRequest => {
            kill_lit(s, i, t_linkingrequest(), t_establish(), 0);
            kill_lit(s, i, t_linkingrequest(), t_listmessages(), 0);
            kill_lit(s, i, t_linkingrequest(), t_messagepeer(), 0);
            kill_lit(s, i, t_linkingrequest(), t_retryunrecieved(), 0);
            kill_lit(s, i, t_linkingrequest(), t_pingpeer(), 0);
        },
        B2FRequestView::EstablishPeerConnection(a) => {
            lemma_b2freq_establish(s, i, a);
        },
        B2FRequestView::ListMessages(pid, since, until) => {
            lemma_b2freq_listmessages(s, i, pid, since, until);
        },
        B2FRequestView::MessagePeer(pid, c) => {
            lemma_b2freq_messagepeer(s, i, pid, c);
        },
        B2FRequestView::RetryUnrecieved(pid) => {
            lemma_b2freq_retry(s, i, pid);
        },
        B2FRequestView::PingPeer(pid) => {
            lemma_b2freq_ping(s, i, pid);
        },
        B2FRequestView::ListPeerConnections => {
            kill_lit(s, i, t_listpeerconnections(), t_establish(), 0);
            kill_lit(s, i, t_listpeerconnections(), t_listmessages(), 0);
            kill_lit(s, i, t_listpeerconnections(), t_messagepeer(), 0);
            kill_lit(s, i, t_listpeerconnections(), t_retryunrecieved(), 0);
            kill_lit(s, i, t_listpeerconnections(), t_pingpeer(), 0);
            kill_lit(s, i, t_listpeerconnections(), t_linkingrequest(), 3);
        },
        B2FRequestView::KillRefresher => {
            kill_lit(s, i, t_killrefresher(), t_establish(), 0);
            kill_lit(s, i, t_killrefresher(), t_listmessages(), 0);
            kill_lit(s, i, t_killrefresher(), t_messagepeer(), 0);
            kill_lit(s, i, t_killrefresher(), t_retryunrecieved(), 0);
            kill_lit(s, i, t_killrefresher(), t_pingpeer(), 0);
            kill_lit(s, i, t_killrefresher(), t_linkingrequest(), 1);
            kill_lit(s, i, t_killrefresher(), t_listpeerconnections(), 1);
        },
    }
}

/// Appends the tagged form of a front-end request.
pub fn write_b2freq(out: &mut Vec<u8>, r: &BackendToFrontendRequest)
    requires
        b2freq_wire_wf(r@),
    ensures
        final(out)@ == old(out)@ + ser_b2freq(r@),
{
    proof {
        reveal(ser_b2freq);
    }
    match r {
        BackendToFrontendRequest::LinkingRequest => {
            let tok = tv_linkingrequest();
            push_tok(out, &tok);
        },
        BackendToFrontendRequest::EstablishPeerConnection(a) => {
            let tok = tv_establish();
            push_tok(out, &tok);
            write_addr(out, a);
            let tok2 = tv_close_qt_brace();
            push_tok(out, &tok2);
            proof {
                assert(final(out)@ =~= old(out)@ + ser_b2freq(r@));
            }
        },
        BackendToFrontendRequest::ListMessages(pid, since, until) => {
            let tok = tv_listmessages();
            push_tok(out, &tok);
            write_u32(out, *pid);
            out.push(0x2C);
            out.push(0x22);
            write_ts(out, since);
            out.push(0x22);
            out.push(0x2C);
            out.push(0x22);
            write_ts(out, until);
            out.push(0x22);
            out.push(0x5D);
            out.push(0x7D);
            proof {
                assert(final(out)@ =~= old(out)@ + ser_b2freq(r@));
            }
        },
        BackendToFrontendRequest::ListPeerConnections => {
            let tok = tv_listpeerconnections();
            push_tok(out, &tok);
        },
        BackendToFrontendRequest::MessagePeer((pid, c)) => {
            let tok = tv_messagepeer();
            push_tok(out, &tok);
            write_u32(out, *pid);
            out.push(0x2C);
            write_mcontent(out, c);
            let tok2 = tv_close_bracket_brace();
            push_tok(out, &tok2);
            proof {
                assert(final(out)@ =~= old(out)@ + ser_b2freq(r@));
            }
        },
        BackendToFrontendRequest::RetryUnrecieved(pid) => {
            let tok = tv_retryunrecieved();
            push_tok(out, &tok);
            write_u32(out, *pid);
            out.push(0x7D);
            proof {
                assert(final(out)@ =~= old(out)@ + ser_b2freq(r@));
            }
        },
        BackendToFrontendRequest::PingPeer(pid) => {
            let tok = tv_pingpeer();
            push_tok(out, &tok);
            write_u32(out, *pid);
            out.push(0x7D);
            proof {
                assert(final(out)@ =~= old(out)@ + ser_b2freq(r@));
            }
        },
        BackendToFrontendRequest::KillRefresher => {
            let tok = tv_killrefresher();
            push_tok(out, &tok);
        },
    }
}

/// Reads a front-end request, as `sp_b2freq` says.
#[verifier::rlimit(100)]
#[verifier::spinoff_prover]
pub fn parse_b2freq(s: &Vec<u8>, i: usize) -> (r: Option<(BackendToFrontendRequest, usize)>)
    requires
        i <= s@.len(),
    ensures
        match r {
            Some((v, j)) => i < j <= s@.len() && sp_b2freq(s@, i as int) == Some((v@, j as int))
                && b2freq_wire_wf(v@),
            None => sp_b2freq(s@, i as int) is None,
        },
{
    proof {
        reveal(sp_b2freq);
    }
    let tok = tv_establish();
    if let Some(p1) = expect(s, i, &tok) {
        let (a, p2) = match parse_addr(s, p1) {
            Some(x) => x,
            None => {
                return None;
            },
        };
        let tok2 = tv_close_qt_brace();
        match expect(s, p2, &tok2) {
            Some(e) => {
                return Some((BackendToFrontendRequest::EstablishPeerConnection(a), e));
            },
            None => {
                return None;
            },
        }
    }
    let tok = tv_listmessages();
    if let Some(p1) = expect(s, i, &tok) {
        let (pid, p2) = match parse_u32(s, p1) {
            Some(x) => x,
            None => {
                return None;
            },
        };
        if !(s.len() - p2 > 1 && s[p2] == 0x2C && s[p2 + 1] == 0x22) {
            return None;
        }
        let (since, p3) = match parse_ts(s, p2 + 2) {
            Some(x) => x,
            None => {
                return None;
            },
        };
        if !(s.len() - p3 > 2 && s[p3] == 0x22 && s[p3 + 1] == 0x2C && s[p3 + 2] == 0x22) {
            return None;
        }
        let (until, p4) = match parse_ts(s, p3 + 3) {
            Some(x) => x,
            None => {
                return None;
            },
        };
        if s.len() - p4 > 2 && s[p4] == 0x22 && s[p4 + 1] == 0x5D && s[p4 + 2] == 0x7D {
            return Some((BackendToFrontendRequest::ListMessages(pid, since, until), p4 + 3));
        }
        return None;
    }
    let tok = tv_messagepeer();
    if let Some(p1) = expect(s, i, &tok) {
        let (pid, p2) = match parse_u32(s, p1) {
            Some(x) => x,
            None => {
                return None;
            },
        };
        if !(p2 < s.len() && s[p2] == 0x2C) {
            return None;
        }
        let (c, p3) = match parse_mcontent(s, p2 + 1) {
            Some(x) => x,
            None => {
                return None;
            },
        };
        let tok2 = tv_close_bracket_brace();
        match expect(s, p3, &tok2) {
            Some(e) => {
                return Some((BackendToFrontendRequest::MessagePeer((pid, c)), e));
            },
            None => {
                return None;
            },
        }
    }
    let tok = tv_retryunrecieved();
    if let Some(p1) = expect(s, i, &tok) {
        let (pid, p2) = match parse_u32(s, p1) {
            Some(x) => x,
            None => {
                return None;
            },
        };
        if p2 < s.len() && s[p2] == 0x7D {
            return Some((BackendToFrontendRequest::RetryUnrecieved(pid), p2 + 1));
        }
        return None;
    }
    let tok = tv_pingpeer();
    if let Some(p1) = expect(s, i, &tok) {
        let (pid, p2) = match parse_u32(s, p1) {
            Some(x) => x,
            None => {
                return None;
            },
        };
        if p2 < s.len() && s[p2] == 0x7D {
            return Some((BackendToFrontendRequest::PingPeer(pid), p2 + 1));
        }
        return None;
    }
    let tok = tv_linkingrequest();
    if let Some(j) = expect(s, i, &tok) {
        return Some((BackendToFrontendRequest::LinkingRequest, j));
    }
    let tok = tv_listpeerconnections();
    if let Some(j) = expect(s, i, &tok) {
        return Some((BackendToFrontendRequest::ListPeerConnections, j));
    }
    let tok = tv_killrefresher();
    if let Some(j) = expect(s, i, &tok) {
        return Some((BackendToFrontendRequest::KillRefresher, j));
    }
    None
}

/// A front-end response whose rows are in range.
pub open spec fn b2fresp_wire_wf(r: B2FResponseView) -> bool {
    match r {
        B2FResponseView::PeerConnectionsListed(v) => forall|k: int|
            0 <= k < v.len() ==> conn_wire_wf(#[trigger] v[k]),
        B2FResponseView::MessagesListed(v) => forall|k: int|
            0 <= k < v.len() ==> msg_wire_wf(#[trigger] v[k]),
        _ => true,
    }
}

/// The tagged form of a front-end response.
#[verifier::opaque]
pub open spec fn ser_b2fresp(r: B2FResponseView) -> Seq<u8> {
    match r {
        B2FResponseView::LinkingResult(res) => match res {
            Ok(_) => t_linkingresult_ok(),
            Err(m) => t_linkingresult_err() + ser_qstr(m) + seq![0x7Du8, 0x7Du8],
        },
        B2FResponseView::PeerConnectionsListed(v) => t_connectionslisted() + ser_connarr(v)
            + seq![0x7Du8],
        B2FResponseView::MessagesListed(v) => t_messageslisted() + ser_msgarr(v) + seq![0x7Du8],
        B2FResponseView::InvalidRequest => t_invalidrequest(),
    }
}

/// Reads a tagged front-end response.
#[verifier::opaque]
pub open spec fn sp_b2fresp(s: Seq<u8>, i: int) -> Option<(B2FResponseView, int)> {
    match sp_lit(s, i, t_linkingresult_ok()) {
        Some(j) => Some((B2FResponseView::LinkingResult(Ok(())), j)),
        None => match sp_lit(s, i, t_linkingresult_err()) {
            Some(p1) => match sp_qstr(s, p1) {
                Some((m, p2)) => if p2 + 1 < s.len() && s[p2] == 0x7D && s[p2 + 1] == 0x7D {
                    Some((B2FResponseView::LinkingResult(Err(m)), p2 + 2))
                } else {
                    None
                },
                None => None,
            },
            None => match sp_lit(s, i, t_connectionslisted()) {
                Some(p1) => match sp_connarr(s, p1) {
                    Some((v, p2)) => if p2 < s.len() && s[p2] == 0x7D {
                        Some((B2FResponseView::PeerConnectionsListed(v), p2 + 1))
                    } else {
                        None
                    },
                    None => None,
                },
                None => match sp_lit(s, i, t_messageslisted()) {
                    Some(p1) => match sp_msgarr(s, p1) {
                        Some((v, p2)) => if p2 < s.len() && s[p2] == 0x7D {
                            Some((B2FResponseView::MessagesListed(v), p2 + 1))
                        } else {
                            None
                        },
                        None => None,
                    },
                    None => match sp_lit(s, i, t_invalidrequest()) {
                        Some(j) => Some((B2FResponseView::InvalidRequest, j)),
                        None => None,
                    },
                },
            },
        },
    }
}

/// Parsing a front-end response right after writing it.
#[verifier::rlimit(100)]
#[verifier::spinoff_prover]
pub proof fn lemma_sp_b2fresp_of_ser(s: Seq<u8>, i: int, r: B2FResponseView)
    requires
        0 <= i,
        b2fresp_wire_wf(r),
        i + ser_b2fresp(r).len() <= s.len(),
        s.subrange(i, i + ser_b2fresp(r).len()) == ser_b2fresp(r),
    ensures
        sp_b2fresp(s, i) == Some((r, i + ser_b2fresp(r).len())),
{
    reveal(ser_b2fresp);
    reveal(sp_b2fresp);
    match r {
        B2FResponseView::LinkingResult(res) => {
            match res {
                Ok(u) => {
                    assert(u == ());
                    assert(r == B2FResponseView::LinkingResult(Ok(())));
                },
                Err(m) => {
                    let w = ser_qstr(m);
                    let x1 = t_linkingresult_err();
                    let x2 = x1 + w;
                    lemma_split2(s, i, x2, seq![0x7Du8, 0x7Du8]);
                    let o2 = x2.len() as int;
                    assert(s[i + o2] == s.subrange(i + o2, i + o2 + 2)[0]);
                    assert(s[i + o2 + 1] == s.subrange(i + o2, i + o2 + 2)[1]);
                    lemma_split2(s, i, x1, w);
                    lemma_sp_qstr_of_ser(s, i + x1.len(), m);
                    kill_lit(s, i, t_linkingresult_err(), t_linkingresult_ok(), 19);
                },
            }
        },
        B2FResponseView::PeerConnectionsListed(v) => {
            let w = ser_connarr(v);
            let x1 = t_connectionslisted();
            let x2 = x1 + w;
            lemma_split2(s, i, x2, seq![0x7Du8]);
            let o2 = x2.len() as int;
            assert(s[i + o2] == s.subrange(i + o2, i + o2 + 1)[0]);
            lemma_split2(s, i, x1, w);
            lemma_sp_connarr_of_ser(s, i + x1.len(), v);
            kill_lit(s, i, t_connectionslisted(), t_linkingresult_ok(), 2);
            kill_lit(s, i, t_connectionslisted(), t_linkingresult_err(), 2);
        },
        B2FResponseView::MessagesListed(v) => {
            let w = ser_msgarr(v);
            let x1 = t_messageslisted();
            let x2 = x1 + w;
            lemma_split2(s, i, x2, seq![0x7Du8]);
            let o2 = x2.len() as int;
            assert(s[i + o2] == s.subrange(i + o2, i + o2 + 1)[0]);
            lemma_split2(s, i, x1, w);
            lemma_sp_msgarr_of_ser(s, i + x1.len(), v);
            kill_lit(s, i, t_messageslisted(), t_linkingresult_ok(), 2);
            kill_lit(s, i, t_messageslisted(), t_linkingresult_err(), 2);
            kill_lit(s, i, t_messageslisted(), t_connectionslisted(), 2);
        },
        B2FResponseView::InvalidRequest => {
            kill_lit(s, i, t_invalidrequest(), t_linkingresult_ok(), 0);
            kill_lit(s, i, t_invalidrequest(), t_linkingresult_err(), 0);
            kill_lit(s, i, t_invalidrequest(), t_connectionslisted(), 0);
            kill_lit(s, i, t_invalidrequest(), t_messageslisted(), 0);
        },
    }
}

/// Appends the tagged form of a front-end response.
pub fn write_b2fresp(out: &mut Vec<u8>, r: &BackendToFrontendResponse)
    requires
        b2fresp_wire_wf(r@),
    ensures
        final(out)@ == old(out)@ + ser_b2fresp(r@),
{
    proof {
        reveal(ser_b2fresp);
    }
    match r {
        BackendToFrontendResponse::LinkingResult(res) => {
            match res {
                Ok(_) => {
                    let tok = tv_linkingresult_ok();
                    push_tok(out, &tok);
                },
                Err(m) => {
                    let tok = tv_linkingresult_err();
                    push_tok(out, &tok);
                    write_qstr(out, m.as_str());
                    out.push(0x7D);
                    out.push(0x7D);
                    proof {
                        assert(final(out)@ =~= old(out)@ + ser_b2fresp(r@));
                    }
                },
            }
        },
        BackendToFrontendResponse::PeerConnectionsListed(v) => {
            proof {
                assert forall|k: int| 0 <= k < v@.len() implies conn_wire_wf(
                    #[trigger] v@[k]@,
                ) by {
                    let mapped = v@.map_values(|c: Connection| c@);
                    assert(r@ == B2FResponseView::PeerConnectionsListed(mapped));
                    assert(b2fresp_wire_wf(B2FResponseView::PeerConnectionsListed(mapped)));
                    let vv = B2FResponseView::PeerConnectionsListed(mapped)->PeerConnectionsListed_0;
                    assert(conn_wire_wf(vv[k]));
                    assert(vv == mapped);
                    assert(mapped[k] == v@[k]@);
                }
            }
            let tok = tv_connectionslisted();
            push_tok(out, &tok);
            write_connarr(out, v);
            out.push(0x7D);
            proof {
                assert(final(out)@ =~= old(out)@ + ser_b2fresp(r@));
            }
        },
        BackendToFrontendResponse::MessagesListed(v) => {
            proof {
                assert forall|k: int| 0 <= k < v@.len() implies msg_wire_wf(
                    #[trigger] v@[k]@,
                ) by {
                    let mapped = v@.map_values(|m: Message| m@);
                    assert(r@ == B2FResponseView::MessagesListed(mapped));
                    assert(b2fresp_wire_wf(B2FResponseView::MessagesListed(mapped)));
                    let vv = B2FResponseView::MessagesListed(mapped)->MessagesListed_0;
                    assert(msg_wire_wf(vv[k]));
                    assert(vv == mapped);
                    assert(mapped[k] == v@[k]@);
                }
            }
            let tok = tv_messageslisted();
            push_tok(out, &tok);
            write_msgarr(out, v);
            out.push(0x7D);
            proof {
                assert(final(out)@ =~= old(out)@ + ser_b2fresp(r@));
            }
        },
        BackendToFrontendResponse::InvalidRequest => {
            let tok = tv_invalidrequest();
            push_tok(out, &tok);
        },
    }
}

/// Reads a front-end response, as `sp_b2fresp` says.
#[verifier::rlimit(100)]
#[verifier::spinoff_prover]
pub fn parse_b2fresp(s: &Vec<u8>, i: usize) -> (r: Option<(BackendToFrontendResponse, usize)>)
    requires
        i <= s@.len(),
    ensures
        match r {
            Some((v, j)) => i < j <= s@.len() && sp_b2fresp(s@, i as int) == Some((v@, j as int))
                && b2fresp_wire_wf(v@),
            None => sp_b2fresp(s@, i as int) is None,
        },
{
    proof {
        reveal(sp_b2fresp);
    }
    let tok = tv_linkingresult_ok();
    if let Some(j) = expect(s, i, &tok) {
        return Some((BackendToFrontendResponse::LinkingResult(Ok(())), j));
    }
    let tok = tv_linkingresult_err();
    if let Some(p1) = expect(s, i, &tok) {
        let (m, p2) = match parse_qstr(s, p1) {
            Some(x) => x,
            None => {
                return None;
            },
        };
        if s.len() - p2 > 1 && s[p2] == 0x7D && s[p2 + 1] == 0x7D {
            return Some((BackendToFrontendResponse::LinkingResult(Err(m)), p2 + 2));
        }
        return None;
    }
    let tok = tv_connectionslisted();
    if let Some(p1) = expect(s, i, &tok) {
        let (v, p2) = match parse_connarr(s, p1) {
            Some(x) => x,
            None => {
                return None;
            },
        };
        if p2 < s.len() && s[p2] == 0x7D {
            proof {
                let mapped = v@.map_values(|c: Connection| c@);
                assert forall|k: int| 0 <= k < mapped.len() implies conn_wire_wf(
                    #[trigger] mapped[k],
                ) by {
                    assert(mapped[k] == v@[k]@);
                }
            }
            return Some((BackendToFrontendResponse::PeerConnectionsListed(v), p2 + 1));
        }
        return None;
    }
    let tok = tv_messageslisted();
    if let Some(p1) = expect(s, i, &tok) {
        let (v, p2) = match parse_msgarr(s, p1) {
            Some(x) => x,
            None => {
                return None;
            },
        };
        if p2 < s.len() && s[p2] == 0x7D {
            proof {
                let mapped = v@.map_values(|m: Message| m@);
                assert forall|k: int| 0 <= k < mapped.len() implies msg_wire_wf(
                    #[trigger] mapped[k],
                ) by {
                    assert(mapped[k] == v@[k]@);
                }
            }
            return Some((BackendToFrontendResponse::MessagesListed(v), p2 + 1));
        }
        return None;
    }
    let tok = tv_invalidrequest();
    if let Some(j) = expect(s, i, &tok) {
        return Some((BackendToFrontendResponse::InvalidRequest, j));
    }
    None
}

/// A first frame whose timestamps are in range.
pub open spec fn initial_wire_wf(r: InitialRequestView) -> bool {
    match r {
        InitialRequestView::Frontend(q) => b2freq_wire_wf(q),
        InitialRequestView::Peer(q) => p2preq_wire_wf(q),
    }
}

/// The tagged form of a first frame.
#[verifier::opaque]
pub open spec fn ser_initial(r: InitialRequestView) -> Seq<u8> {
    match r {
        InitialRequestView::Frontend(q) => t_frontend() + ser_b2freq(q) + seq![0x7Du8],
        InitialRequestView::Peer(q) => t_peer() + ser_p2preq(q) + seq![0x7Du8],
    }
}

/// Reads a tagged first frame.
#[verifier::opaque]
pub open spec fn sp_initial(s: Seq<u8>, i: int) -> Option<(InitialRequestView, int)> {
    match sp_lit(s, i, t_frontend()) {
        Some(p1) => match sp_b2freq(s, p1) {
            Some((q, p2)) => if p2 < s.len() && s[p2] == 0x7D {
                Some((InitialRequestView::Frontend(q), p2 + 1))
            } else {
                None
            },
            None => None,
        },
        None => match sp_lit(s, i, t_peer()) {
            Some(p1) => match sp_p2preq(s, p1) {
                Some((q, p2)) => if p2 < s.len() && s[p2] == 0x7D {
                    Some((InitialRequestView::Peer(q), p2 + 1))
                } else {
                    None
                },
                None => None,
            },
            None => None,
        },
    }
}

/// Parsing a first frame right after writing it.
#[verifier::rlimit(100)]
#[verifier::spinoff_prover]
pub proof fn lemma_sp_initial_of_ser(s: Seq<u8>, i: int, r: InitialRequestView)
    requires
        0 <= i,
        initial_wire_wf(r),
        i + ser_initial(r).len() <= s.len(),
        s.subrange(i, i + ser_initial(r).len()) == ser_initial(r),
    ensures
        sp_initial(s, i) == Some((r, i + ser_initial(r).len())),
{
    reveal(ser_initial);
    reveal(sp_initial);
    match r {
        InitialRequestView::Frontend(q) => {
            let w = ser_b2freq(q);
            let x1 = t_frontend();
            let x2 = x1 + w;
            lemma_split2(s, i, x2, seq![0x7Du8]);
            let o2 = x2.len() as int;
            assert(s[i + o2] == s.subrange(i + o2, i + o2 + 1)[0]);
            lemma_split2(s, i, x1, w);
            lemma_sp_b2freq_of_ser(s, i + x1.len(), q);
        },
        InitialRequestView::Peer(q) => {
            let w = ser_p2preq(q);
            let x1 = t_peer();
            let x2 = x1 + w;
            lemma_split2(s, i, x2, seq![0x7Du8]);
            let o2 = x2.len() as int;
            assert(s[i + o2] == s.subrange(i + o2, i + o2 + 1)[0]);
            lemma_split2(s, i, x1, w);
            lemma_sp_p2preq_of_ser(s, i + x1.len(), q);
            kill_lit(s, i, t_peer(), t_frontend(), 2);
        },
    }
}

/// Appends the tagged form of a first frame.
pub fn write_initial(out: &mut Vec<u8>, r: &InitialRequest)
    requires
        initial_wire_wf(r@),
    ensures
        final(out)@ == old(out)@ + ser_initial(r@),
{
    proof {
        reveal(ser_initial);
    }
    match r {
        InitialRequest::Frontend(q) => {
            let tok = tv_frontend();
            push_tok(out, &tok);
            write_b2freq(out, q);
            out.push(0x7D);
            proof {
                assert(final(out)@ =~= old(out)@ + ser_initial(r@));
            }
        },
        InitialRequest::Peer(q) => {
            let tok = tv_peer();
            push_tok(out, &tok);
            write_p2preq(out, q);
            out.push(0x7D);
            proof {
                assert(final(out)@ =~= old(out)@ + ser_initial(r@));
            }
        },
    }
}

/// Reads a first frame, as `sp_initial` says.
pub fn parse_initial(s: &Vec<u8>, i: usize) -> (r: Option<(InitialRequest, usize)>)
    requires
        i <= s@.len(),
    ensures
        match r {
            Some((v, j)) => i < j <= s@.len() && sp_initial(s@, i as int) == Some((v@, j as int))
                && initial_wire_wf(v@),
            None => sp_initial(s@, i as int) is None,
        },
{
    proof {
        reveal(sp_initial);
    }
    let tok = tv_frontend();
    if let Some(p1) = expect(s, i, &tok) {
        let (q, p2) = match parse_b2freq(s, p1) {
            Some(x) => x,
            None => {
                return None;
            },
        };
        if p2 < s.len() && s[p2] == 0x7D {
            return Some((InitialRequest::Frontend(q), p2 + 1));
        }
        return None;
    }
    let tok = tv_peer();
    if let Some(p1) = expect(s, i, &tok) {
        let (q, p2) = match parse_p2preq(s, p1) {
            Some(x) => x,
            None => {
                return None;
            },
        };
        if p2 < s.len() && s[p2] == 0x7D {
            return Some((InitialRequest::Peer(q), p2 + 1));
        }
        return None;
    }
    None
}

/// One whole frame payload: a first frame, written out.
pub fn encode_initial(r: &InitialRequest) -> (out: Vec<u8>)
    requires
        initial_wire_wf(r@),
    ensures
        out@ == ser_initial(r@),
{
    let mut v: Vec<u8> = Vec::new();
    write_initial(&mut v, r);
    proof {
        assert(v@ =~= ser_initial(r@));
    }
    v
}

/// One whole frame payload: a front-end request, written out.
pub fn encode_b2freq(r: &BackendToFrontendRequest) -> (out: Vec<u8>)
    requires
        b2freq_wire_wf(r@),
    ensures
        out@ == ser_b2freq(r@),
{
    let mut v: Vec<u8> = Vec::new();
    write_b2freq(&mut v, r);
    proof {
        assert(v@ =~= ser_b2freq(r@));
    }
    v
}

/// One whole frame payload: a front-end response, written out.
pub fn encode_b2fresp(r: &BackendToFrontendResponse) -> (out: Vec<u8>)
    requires
        b2fresp_wire_wf(r@),
    ensures
        out@ == ser_b2fresp(r@),
{
    let mut v: Vec<u8> = Vec::new();
    write_b2fresp(&mut v, r);
    proof {
        assert(v@ =~= ser_b2fresp(r@));
    }
    v
}

/// One whole frame payload: a peer request, written out.
pub fn encode_p2preq(r: &PeerToPeerRequest) -> (out: Vec<u8>)
    requires
        p2preq_wire_wf(r@),
    ensures
        out@ == ser_p2preq(r@),
{
    let mut v: Vec<u8> = Vec::new();
    write_p2preq(&mut v, r);
    proof {
        assert(v@ =~= ser_p2preq(r@));
    }
    v
}

/// One whole frame payload: a peer reply, written out.
pub fn encode_p2presp(r: &PeerToPeerResponse) -> (out: Vec<u8>)
    ensures
        out@ == ser_p2presp(r@),
{
    let mut v: Vec<u8> = Vec::new();
    write_p2presp(&mut v, r);
    proof {
        assert(v@ =~= ser_p2presp(r@));
    }
    v
}

/// One whole frame payload: a refresh signal, written out.
pub fn encode_refresh(r: &RefreshRequest) -> (out: Vec<u8>)
    ensures
        out@ == ser_refresh(*r),
{
    let mut v: Vec<u8> = Vec::new();
    write_refresh(&mut v, r);
    proof {
        assert(v@ =~= ser_refresh(*r));
    }
    v
}

/// Decodes a whole frame payload as a first frame: the payload must be
/// exactly one tagged value.  An empty payload decodes to nothing, so
/// a zero-length frame is a protocol error here.
pub fn decode_initial(s: &Vec<u8>) -> (r: Option<InitialRequest>)
    ensures
        match sp_initial(s@, 0) {
            Some((v2, j)) => if j == s@.len() {
                r matches Some(v) && v@ == v2 && initial_wire_wf(v@)
            } else {
                r is None
            },
            None => r is None,
        },
        s@.len() == 0 ==> r is None,
{
    proof {
        if s@.len() == 0 {
            reveal(sp_initial);
        }
    }
    match parse_initial(s, 0) {
        Some((v, j)) => if j == s.len() {
            Some(v)
        } else {
            None
        },
        None => None,
    }
}

/// Decodes a whole frame payload as a front-end request.
pub fn decode_b2freq(s: &Vec<u8>) -> (r: Option<BackendToFrontendRequest>)
    ensures
        match sp_b2freq(s@, 0) {
            Some((v2, j)) => if j == s@.len() {
                r matches Some(v) && v@ == v2 && b2freq_wire_wf(v@)
            } else {
                r is None
            },
            None => r is None,
        },
        s@.len() == 0 ==> r is None,
{
    proof {
        if s@.len() == 0 {
            reveal(sp_b2freq);
        }
    }
    match parse_b2freq(s, 0) {
        Some((v, j)) => if j == s.len() {
            Some(v)
        } else {
            None
        },
        None => None,
    }
}

/// Decodes a whole frame payload as a front-end response.
pub fn decode_b2fresp(s: &Vec<u8>) -> (r: Option<BackendToFrontendResponse>)
    ensures
        match sp_b2fresp(s@, 0) {
            Some((v2, j)) => if j == s@.len() {
                r matches Some(v) && v@ == v2
            } else {
                r is None
            },
            None => r is None,
        },
        s@.len() == 0 ==> r is None,
{
    proof {
        if s@.len() == 0 {
            reveal(sp_b2fresp);
        }
    }
    match parse_b2fresp(s, 0) {
        Some((v, j)) => if j == s.len() {
            Some(v)
        } else {
            None
        },
        None => None,
    }
}

/// Decodes a whole frame payload as a peer request.
pub fn decode_p2preq(s: &Vec<u8>) -> (r: Option<PeerToPeerRequest>)
    ensures
        match sp_p2preq(s@, 0) {
            Some((v2, j)) => if j == s@.len() {
                r matches Some(v) && v@ == v2 && p2preq_wire_wf(v@)
            } else {
                r is None
            },
            None => r is None,
        },
        s@.len() == 0 ==> r is None,
{
    proof {
        if s@.len() == 0 {
            reveal(sp_p2preq);
        }
    }
    match parse_p2preq(s, 0) {
        Some((v, j)) => if j == s.len() {
            Some(v)
        } else {
            None
        },
        None => None,
    }
}

/// Decodes a whole frame payload as a peer reply.
pub fn decode_p2presp(s: &Vec<u8>) -> (r: Option<PeerToPeerResponse>)
    ensures
        match sp_p2presp(s@, 0) {
            Some((v2, j)) => if j == s@.len() {
                r matches Some(v) && v@ == v2
            } else {
                r is None
            },
            None => r is None,
        },
        s@.len() == 0 ==> r is None,
{
    proof {
        if s@.len() == 0 {
            reveal(sp_p2presp);
        }
    }
    match parse_p2presp(s, 0) {
        Some((v, j)) => if j == s.len() {
            Some(v)
        } else {
            None
        },
        None => None,
    }
}

/// Decodes a whole frame payload as a refresh signal.
pub fn decode_refresh(s: &Vec<u8>) -> (r: Option<RefreshRequest>)
    ensures
        match sp_refresh(s@, 0) {
            Some((v2, j)) => if j == s@.len() {
                r matches Some(v) && v == v2
            } else {
                r is None
            },
            None => r is None,
        },
        s@.len() == 0 ==> r is None,
{
    match parse_refresh(s, 0) {
        Some((v, j)) => if j == s.len() {
            Some(v)
        } else {
            None
        },
        None => None,
    }
}

/// Writing a first frame and reading it back yields the same frame.
pub proof fn lemma_round_trip_initial(r: InitialRequestView)
    requires
        initial_wire_wf(r),
    ensures
        sp_initial(ser_initial(r), 0) == Some((r, ser_initial(r).len() as int)),
{
    let s = ser_initial(r);
    assert(s.subrange(0, s.len() as int) =~= s);
    lemma_sp_initial_of_ser(s, 0, r);
}

/// Writing a front-end request and reading it back yields the same
/// frame.
pub proof fn lemma_round_trip_b2freq(r: B2FRequestView)
    requires
        b2freq_wire_wf(r),
    ensures
        sp_b2freq(ser_b2freq(r), 0) == Some((r, ser_b2freq(r).len() as int)),
{
    let s = ser_b2freq(r);
    assert(s.subrange(0, s.len() as int) =~= s);
    lemma_sp_b2freq_of_ser(s, 0, r);
}

/// Writing a front-end response and reading it back yields the same
/// frame.
pub proof fn lemma_round_trip_b2fresp(r: B2FResponseView)
    requires
        b2fresp_wire_wf(r),
    ensures
        sp_b2fresp(ser_b2fresp(r), 0) == Some((r, ser_b2fresp(r).len() as int)),
{
    let s = ser_b2fresp(r);
    assert(s.subrange(0, s.len() as int) =~= s);
    lemma_sp_b2fresp_of_ser(s, 0, r);
}

/// Writing a peer request and reading it back yields the same frame.
pub proof fn lemma_round_trip_p2preq(r: P2PRequestView)
    requires
        p2preq_wire_wf(r),
    ensures
        sp_p2preq(ser_p2preq(r), 0) == Some((r, ser_p2preq(r).len() as int)),
{
    let s = ser_p2preq(r);
    assert(s.subrange(0, s.len() as int) =~= s);
    lemma_sp_p2preq_of_ser(s, 0, r);
}

/// Writing a peer reply and reading it back yields the same frame.
pub proof fn lemma_round_trip_p2presp(r: P2PResponseView)
    ensures
        sp_p2presp(ser_p2presp(r), 0) == Some((r, ser_p2presp(r).len() as int)),
{
    let s = ser_p2presp(r);
    assert(s.subrange(0, s.len() as int) =~= s);
    lemma_sp_p2presp_of_ser(s, 0, r);
}

/// Writing a refresh signal and reading it back yields the same frame.
pub proof fn lemma_round_trip_refresh(r: RefreshRequest)
    ensures
        sp_refresh(ser_refresh(r), 0) == Some((r, ser_refresh(r).len() as int)),
{
    let s = ser_refresh(r);
    assert(s.subrange(0, s.len() as int) =~= s);
    lemma_sp_refresh_of_ser(s, 0, r);
}

} // verus!
