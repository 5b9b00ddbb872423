//! JSON string tokens: quoted, escaped byte strings.
//!
//! Text travels on the wire as JSON strings over UTF-8 bytes.  The
//! escape set is canonical and minimal: `\"` for the quote, `\\` for
//! the backslash, and a lowercase `\u00XX` for every byte below 0x20;
//! all other bytes stand for themselves.  The parser accepts exactly
//! what the writer emits, which is what the round-trip lemma says.

use vstd::prelude::*;
use crate::numtext::is_digit;

verus! {

/// The lowercase hex digit of a value below sixteen.
pub open spec fn hexdig(n: nat) -> u8 {
    if n < 10 {
        (0x30 + n) as u8
    } else {
        (0x57 + n) as u8
    }
}

/// A lowercase hex digit byte.
pub open spec fn is_hex_lower(b: u8) -> bool {
    is_digit(b) || 0x61 <= b <= 0x66
}

/// The value of a lowercase hex digit byte.
pub open spec fn hexval(b: u8) -> nat {
    if is_digit(b) {
        (b - 0x30) as nat
    } else if 0x61 <= b <= 0x66 {
        (b - 0x57) as nat
    } else {
        16
    }
}

/// The escape of one byte.
pub open spec fn esc_byte(b: u8) -> Seq<u8> {
    if b == 0x22 {
        seq![0x5Cu8, 0x22u8]
    } else if b == 0x5C {
        seq![0x5Cu8, 0x5Cu8]
    } else if b < 0x20 {
        seq![0x5Cu8, 0x75u8, 0x30u8, 0x30u8, hexdig((b / 16) as nat), hexdig((b % 16) as nat)]
    } else {
        seq![b]
    }
}

/// The escape of a byte string.
pub open spec fn esc_bytes(q: Seq<u8>) -> Seq<u8>
    decreases q.len(),
{
    if q.len() == 0 {
        Seq::empty()
    } else {
        esc_bytes(q.drop_last()) + esc_byte(q.last())
    }
}

/// A whole JSON string token: quote, escaped content, quote.
pub open spec fn ser_jstring(q: Seq<u8>) -> Seq<u8> {
    seq![0x22u8] + esc_bytes(q) + seq![0x22u8]
}

/// The escape of a byte string, unfolded at the front.
pub proof fn lemma_esc_bytes_front(q: Seq<u8>)
    requires
        q.len() > 0,
    ensures
        esc_bytes(q) == esc_byte(q[0]) + esc_bytes(q.drop_first()),
    decreases q.len(),
{
    if q.len() == 1 {
        assert(q.drop_last() =~= Seq::<u8>::empty());
        assert(q.drop_first() =~= Seq::<u8>::empty());
        assert(esc_bytes(q) =~= esc_byte(q[0]) + esc_bytes(q.drop_first()));
    } else {
        lemma_esc_bytes_front(q.drop_last());
        assert(q.drop_last()[0] == q[0]);
        assert(q.drop_last().drop_first() =~= q.drop_first().drop_last());
        assert(q.drop_first().last() == q.last());
        assert(esc_bytes(q.drop_first()) == esc_bytes(q.drop_first().drop_last()) + esc_byte(
            q.last(),
        ));
        assert(esc_bytes(q) =~= esc_byte(q[0]) + esc_bytes(q.drop_first()));
    }
}

/// The string content scanner: reads escaped bytes up to, but not
/// through, the closing quote, whose position it reports.
pub open spec fn sp_content(s: Seq<u8>, i: int) -> Option<(Seq<u8>, int)>
    decreases s.len() - i,
{
    if i < 0 || i >= s.len() {
        None
    } else if s[i] == 0x22 {
        Some((Seq::empty(), i))
    } else if s[i] == 0x5C {
        if i + 1 < s.len() && s[i + 1] == 0x22 {
            match sp_content(s, i + 2) {
                Some((q, e)) => Some((seq![0x22u8] + q, e)),
                None => None,
            }
        } else if i + 1 < s.len() && s[i + 1] == 0x5C {
            match sp_content(s, i + 2) {
                Some((q, e)) => Some((seq![0x5Cu8] + q, e)),
                None => None,
            }
        } else if i + 5 < s.len() && s[i + 1] == 0x75 && s[i + 2] == 0x30 && s[i + 3] == 0x30
            && is_hex_lower(s[i + 4]) && is_hex_lower(s[i + 5]) && hexval(s[i + 4]) * 16 + hexval(
            s[i + 5],
        ) < 0x20 {
            match sp_content(s, i + 6) {
                Some((q, e)) => Some(
                    (seq![(hexval(s[i + 4]) * 16 + hexval(s[i + 5])) as u8] + q, e),
                ),
                None => None,
            }
        } else {
            None
        }
    } else if s[i] >= 0x20 {
        match sp_content(s, i + 1) {
            Some((q, e)) => Some((seq![s[i]] + q, e)),
            None => None,
        }
    } else {
        None
    }
}

/// A whole JSON string token, read as `sp_content` between quotes.
pub open spec fn sp_jstring(s: Seq<u8>, i: int) -> Option<(Seq<u8>, int)> {
    if 0 <= i < s.len() && s[i] == 0x22 {
        match sp_content(s, i + 1) {
            Some((q, e)) => if e < s.len() && s[e] == 0x22 {
                Some((q, e + 1))
            } else {
                None
            },
            None => None,
        }
    } else {
        None
    }
}

/// Scanning what the escape of `q` wrote, with the closing quote right
/// after it, reads back exactly `q`.
pub proof fn lemma_sp_content_of_esc(s: Seq<u8>, i: int, q: Seq<u8>)
    requires
        0 <= i,
        i + esc_bytes(q).len() + 1 <= s.len(),
        s.subrange(i, i + esc_bytes(q).len()) == esc_bytes(q),
        s[i + esc_bytes(q).len()] == 0x22,
    ensures
        sp_content(s, i) == Some((q, i + esc_bytes(q).len())),
    decreases q.len(),
{
    if q.len() == 0 {
        assert(esc_bytes(q).len() == 0);
        assert(s[i] == 0x22);
    } else {
        lemma_esc_bytes_front(q);
        let b = q[0];
        let eb = esc_byte(b);
        let q2 = q.drop_first();
        let rest = esc_bytes(q2);
        assert(esc_bytes(q).len() == eb.len() + rest.len());
        let all = esc_bytes(q);
        assert forall|k: int| 0 <= k < all.len() implies s[i + k] == all[k] by {
            assert(s.subrange(i, i + all.len())[k] == s[i + k]);
        }
        assert forall|k: int| 0 <= k < eb.len() implies s[i + k] == eb[k] by {
            assert(all[k] == eb[k]);
        }
        let i2 = i + eb.len();
        assert forall|k: int| 0 <= k < rest.len() implies s[i2 + k] == rest[k] by {
            assert(all[eb.len() + k] == rest[k]);
            assert(s[i + (eb.len() + k)] == all[eb.len() + k]);
        }
        assert(s.subrange(i2, i2 + rest.len()) =~= rest);
        assert(s[i2 + rest.len()] == 0x22);
        lemma_sp_content_of_esc(s, i2, q2);
        if b == 0x22 {
            assert(s[i] == 0x5C && s[i + 1] == 0x22);
            assert(seq![0x22u8] + q2 =~= q);
        } else if b == 0x5C {
            assert(s[i] == 0x5C && s[i + 1] == 0x5C);
            assert(seq![0x5Cu8] + q2 =~= q);
        } else if b < 0x20 {
            assert(s[i] == 0x5C && s[i + 1] == 0x75 && s[i + 2] == 0x30 && s[i + 3] == 0x30);
            assert(s[i + 4] == hexdig((b / 16) as nat));
            assert(s[i + 5] == hexdig((b % 16) as nat));
            assert(is_hex_lower(s[i + 4]) && hexval(s[i + 4]) == b / 16);
            assert(is_hex_lower(s[i + 5]) && hexval(s[i + 5]) == b % 16);
            assert(hexval(s[i + 4]) * 16 + hexval(s[i + 5]) == b) by {
                assert((b / 16) * 16 + b % 16 == b) by (nonlinear_arith);
            }
            assert(seq![b] + q2 =~= q);
        } else {
            assert(eb[0] == b);
            assert(s[i + 0] == eb[0]);
            assert(s[i] == b);
            assert(seq![b] + q2 =~= q);
        }
    }
}

/// Parsing a JSON string token right after writing it.
pub proof fn lemma_sp_jstring_of_ser(s: Seq<u8>, i: int, q: Seq<u8>)
    requires
        0 <= i,
        i + ser_jstring(q).len() <= s.len(),
        s.subrange(i, i + ser_jstring(q).len()) == ser_jstring(q),
    ensures
        sp_jstring(s, i) == Some((q, i + ser_jstring(q).len())),
{
    let ser = ser_jstring(q);
    assert forall|k: int| 0 <= k < ser.len() implies s[i + k] == ser[k] by {
        assert(s.subrange(i, i + ser.len())[k] == s[i + k]);
    }
    assert(ser[0] == 0x22);
    assert(s[i] == 0x22);
    assert forall|k: int| 0 <= k < esc_bytes(q).len() implies s[i + 1 + k] == esc_bytes(q)[k] by {
        assert(ser[1 + k] == esc_bytes(q)[k]);
        assert(s[i + (1 + k)] == ser[1 + k]);
    }
    assert(s.subrange(i + 1, i + 1 + esc_bytes(q).len()) =~= esc_bytes(q));
    assert(ser[1 + esc_bytes(q).len() as int] == 0x22);
    assert(s[i + 1 + esc_bytes(q).len()] == 0x22);
    lemma_sp_content_of_esc(s, i + 1, q);
}

/// Appends the escape of one byte.
fn write_esc_byte(out: &mut Vec<u8>, b: u8)
    ensures
        final(out)@ == old(out)@ + esc_byte(b),
{
    if b == 0x22 {
        out.push(0x5C);
        out.push(0x22);
    } else if b == 0x5C {
        out.push(0x5C);
        out.push(0x5C);
    } else if b < 0x20 {
        out.push(0x5C);
        out.push(0x75);
        out.push(0x30);
        out.push(0x30);
        let hi = b / 16;
        let lo = b % 16;
        out.push(if hi < 10 {
            0x30 + hi
        } else {
            0x57 + hi
        });
        out.push(if lo < 10 {
            0x30 + lo
        } else {
            0x57 + lo
        });
    } else {
        out.push(b);
    }
    proof {
        assert(final(out)@ =~= old(out)@ + esc_byte(b));
    }
}

/// Appends the JSON string token of `q`.
pub fn write_jstring(out: &mut Vec<u8>, q: &Vec<u8>)
    ensures
        final(out)@ == old(out)@ + ser_jstring(q@),
{
    out.push(0x22);
    let mut k: usize = 0;
    proof {
        assert(esc_bytes(q@.take(0)) =~= Seq::<u8>::empty());
        assert(out@ =~= old(out)@ + seq![0x22u8] + esc_bytes(q@.take(0)));
    }
    while k < q.len()
        invariant
            k <= q@.len(),
            out@ == old(out)@ + seq![0x22u8] + esc_bytes(q@.take(k as int)),
        decreases q@.len() - k,
    {
        proof {
            assert(q@.take(k as int + 1).drop_last() =~= q@.take(k as int));
            assert(q@.take(k as int + 1).last() == q@[k as int]);
        }
        write_esc_byte(out, q[k]);
        k += 1;
    }
    out.push(0x22);
    proof {
        assert(q@.take(q@.len() as int) =~= q@);
        assert(final(out)@ =~= old(out)@ + ser_jstring(q@));
    }
}

/// Reads a JSON string token, as `sp_jstring` says.
pub fn parse_jstring(s: &Vec<u8>, i: usize) -> (r: Option<(Vec<u8>, usize)>)
    requires
        i <= s@.len(),
    ensures
        match r {
            Some((v, j)) => i < j <= s@.len() && sp_jstring(s@, i as int) == Some((v@, j as int)),
            None => sp_jstring(s@, i as int) is None,
        },
{
    if i >= s.len() || s[i] != 0x22 {
        return None;
    }
    let mut acc: Vec<u8> = Vec::new();
    let mut p: usize = i + 1;
    loop
        invariant
            i + 1 <= p <= s@.len(),
            s@[i as int] == 0x22,
            i < s@.len(),
            sp_content(s@, i as int + 1) == match sp_content(s@, p as int) {
                Some((q, e)) => Some((acc@ + q, e)),
                None => None::<(Seq<u8>, int)>,
            },
        decreases s@.len() - p,
    {
        if p >= s.len() {
            return None;
        }
        let b = s[p];
        if b == 0x22 {
            proof {
                assert(sp_content(s@, p as int) == Some((Seq::<u8>::empty(), p as int)));
                assert(acc@ + Seq::<u8>::empty() =~= acc@);
            }
            return Some((acc, p + 1));
        } else if b == 0x5C {
            if p + 1 >= s.len() {
                return None;
            }
            let c = s[p + 1];
            if c == 0x22 {
                let ghost prev = acc@;
                acc.push(0x22);
                proof {
                    assert(forall|q: Seq<u8>| prev + (seq![0x22u8] + q) =~= acc@ + q);
                }
                p += 2;
            } else if c == 0x5C {
                let ghost prev = acc@;
                acc.push(0x5C);
                proof {
                    assert(forall|q: Seq<u8>| prev + (seq![0x5Cu8] + q) =~= acc@ + q);
                }
                p += 2;
            } else if c == 0x75 {
                if s.len() - p <= 5 {
                    return None;
                }
                if s[p + 2] != 0x30 || s[p + 3] != 0x30 {
                    return None;
                }
                let h1 = s[p + 4];
                let h2 = s[p + 5];
                let v1: u8 = if h1 >= 0x30 && h1 <= 0x39 {
                    h1 - 0x30
                } else if h1 >= 0x61 && h1 <= 0x66 {
                    h1 - 0x57
                } else {
                    return None;
                };
                let v2: u8 = if h2 >= 0x30 && h2 <= 0x39 {
                    h2 - 0x30
                } else if h2 >= 0x61 && h2 <= 0x66 {
                    h2 - 0x57
                } else {
                    return None;
                };
                let val: u16 = v1 as u16 * 16 + v2 as u16;
                if val >= 0x20 {
                    return None;
                }
                let ghost prev = acc@;
                acc.push(val as u8);
                proof {
                    assert(hexval(s@[p as int + 4]) == v1 && hexval(s@[p as int + 5]) == v2);
                    assert(forall|q: Seq<u8>| prev + (seq![val as u8] + q) =~= acc@ + q);
                }
                p += 6;
            } else {
                proof {
                    assert(sp_content(s@, p as int) is None);
                }
                return None;
            }
        } else if b >= 0x20 {
            let ghost prev = acc@;
            acc.push(b);
            proof {
                assert(forall|q: Seq<u8>| prev + (seq![b] + q) =~= acc@ + q);
            }
            p += 1;
        } else {
            return None;
        }
    }
}

} // verus!
