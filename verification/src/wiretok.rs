//! The fixed tokens of the wire grammar.
//!
//! Every tagged frame is JSON with its keys in one fixed order, so the
//! grammar's terminals are a closed set of byte strings: variant tags,
//! field keys and punctuation.  Each token exists twice, as a spec
//! sequence the format functions are written over and as a vector
//! builder the executable codec hands to [`expect`].

use vstd::prelude::*;

verus! {

/// The token `lit` lying at `i`.
pub open spec fn sp_lit(s: Seq<u8>, i: int, lit: Seq<u8>) -> Option<int> {
    if 0 <= i && i + lit.len() <= s.len() && s.subrange(i, i + lit.len()) == lit {
        Some(i + lit.len())
    } else {
        None
    }
}

/// A token that disagrees with the bytes at `i` somewhere is not there.
pub proof fn lemma_lit_differs(s: Seq<u8>, i: int, good: Seq<u8>, bad: Seq<u8>, k: int)
    requires
        0 <= i,
        forall|m: int| 0 <= m < good.len() ==> s[i + m] == #[trigger] good[m],
        i + good.len() <= s.len(),
        0 <= k < good.len(),
        k < bad.len(),
        good[k] != bad[k],
    ensures
        sp_lit(s, i, bad) is None,
{
    if 0 <= i && i + bad.len() <= s.len() && s.subrange(i, i + bad.len()) == bad {
        assert(s.subrange(i, i + bad.len())[k] == s[i + k]);
    }
}

/// Reads the token `lit` at `i`, as `sp_lit` says.
pub fn expect(s: &Vec<u8>, i: usize, lit: &Vec<u8>) -> (r: Option<usize>)
    requires
        i <= s@.len(),
    ensures
        match r {
            Some(j) => sp_lit(s@, i as int, lit@) == Some(j as int) && j == i + lit@.len() && j
                <= s@.len(),
            None => sp_lit(s@, i as int, lit@) is None,
        },
{
    if s.len() - i < lit.len() {
        return None;
    }
    let slen = s.len();
    let mut k: usize = 0;
    while k < lit.len()
        invariant
            slen == s@.len(),
            i + lit@.len() <= s@.len(),
            k <= lit@.len(),
            forall|m: int| 0 <= m < k ==> s@[i + m] == #[trigger] lit@[m],
        decreases lit@.len() - k,
    {
        if s[i + k] != lit[k] {
            proof {
                if s@.subrange(i as int, i as int + lit@.len() as int) == lit@ {
                    assert(s@.subrange(i as int, i as int + lit@.len() as int)[k as int] == s@[i
                        + k]);
                }
            }
            return None;
        }
        k += 1;
    }
    proof {
        assert(s@.subrange(i as int, i as int + lit@.len() as int) =~= lit@);
    }
    Some(i + lit.len())
}

/// `{"Frontend":`
pub open spec fn t_frontend() -> Seq<u8> {
    seq![0x7bu8, 0x22u8, 0x46u8, 0x72u8, 0x6fu8, 0x6eu8, 0x74u8, 0x65u8, 0x6eu8, 0x64u8, 0x22u8, 0x3au8]
}

/// `{"Frontend":`, as a vector.
pub fn tv_frontend() -> (r: Vec<u8>)
    ensures
        r@ == t_frontend(),
{
    let mut v: Vec<u8> = Vec::new();
    v.push(0x7b);
    v.push(0x22);
    v.push(0x46);
    v.push(0x72);
    v.push(0x6f);
    v.push(0x6e);
    v.push(0x74);
    v.push(0x65);
    v.push(0x6e);
    v.push(0x64);
    v.push(0x22);
    v.push(0x3a);
    proof {
        assert(v@ =~= t_frontend());
    }
    v
}

/// `{"Peer":`
pub open spec fn t_peer() -> Seq<u8> {
    seq![0x7bu8, 0x22u8, 0x50u8, 0x65u8, 0x65u8, 0x72u8, 0x22u8, 0x3au8]
}

/// `{"Peer":`, as a vector.
pub fn tv_peer() -> (r: Vec<u8>)
    ensures
        r@ == t_peer(),
{
    let mut v: Vec<u8> = Vec::new();
    v.push(0x7b);
    v.push(0x22);
    v.push(0x50);
    v.push(0x65);
    v.push(0x65);
    v.push(0x72);
    v.push(0x22);
    v.push(0x3a);
    proof {
        assert(v@ =~= t_peer());
    }
    v
}

/// `"LinkingRequest"`
pub open spec fn t_linkingrequest() -> Seq<u8> {
    seq![0x22u8, 0x4cu8, 0x69u8, 0x6eu8, 0x6bu8, 0x69u8, 0x6eu8, 0x67u8, 0x52u8, 0x65u8, 0x71u8, 0x75u8, 0x65u8, 0x73u8, 0x74u8, 0x22u8]
}

/// `"LinkingRequest"`, as a vector.
pub fn tv_linkingrequest() -> (r: Vec<u8>)
    ensures
        r@ == t_linkingrequest(),
{
    let mut v: Vec<u8> = Vec::new();
    v.push(0x22);
    v.push(0x4c);
    v.push(0x69);
    v.push(0x6e);
    v.push(0x6b);
    v.push(0x69);
    v.push(0x6e);
    v.push(0x67);
    v.push(0x52);
    v.push(0x65);
    v.push(0x71);
    v.push(0x75);
    v.push(0x65);
    v.push(0x73);
    v.push(0x74);
    v.push(0x22);
    proof {
        assert(v@ =~= t_linkingrequest());
    }
    v
}

/// `{"EstablishPeerConnection":"`
pub open spec fn t_establish() -> Seq<u8> {
    seq![0x7bu8, 0x22u8, 0x45u8, 0x73u8, 0x74u8, 0x61u8, 0x62u8, 0x6cu8, 0x69u8, 0x73u8, 0x68u8, 0x50u8, 0x65u8, 0x65u8, 0x72u8, 0x43u8, 0x6fu8, 0x6eu8, 0x6eu8, 0x65u8, 0x63u8, 0x74u8, 0x69u8, 0x6fu8, 0x6eu8, 0x22u8, 0x3au8, 0x22u8]
}

/// `{"EstablishPeerConnection":"`, as a vector.
pub fn tv_establish() -> (r: Vec<u8>)
    ensures
        r@ == t_establish(),
{
    let mut v: Vec<u8> = Vec::new();
    v.push(0x7b);
    v.push(0x22);
    v.push(0x45);
    v.push(0x73);
    v.push(0x74);
    v.push(0x61);
    v.push(0x62);
    v.push(0x6c);
    v.push(0x69);
    v.push(0x73);
    v.push(0x68);
    v.push(0x50);
    v.push(0x65);
    v.push(0x65);
    v.push(0x72);
    v.push(0x43);
    v.push(0x6f);
    v.push(0x6e);
    v.push(0x6e);
    v.push(0x65);
    v.push(0x63);
    v.push(0x74);
    v.push(0x69);
    v.push(0x6f);
    v.push(0x6e);
    v.push(0x22);
    v.push(0x3a);
    v.push(0x22);
    proof {
        assert(v@ =~= t_establish());
    }
    v
}

/// `{"ListMessages":[`
pub open spec fn t_listmessages() -> Seq<u8> {
    seq![0x7bu8, 0x22u8, 0x4cu8, 0x69u8, 0x73u8, 0x74u8, 0x4du8, 0x65u8, 0x73u8, 0x73u8, 0x61u8, 0x67u8, 0x65u8, 0x73u8, 0x22u8, 0x3au8, 0x5bu8]
}

/// `{"ListMessages":[`, as a vector.
pub fn tv_listmessages() -> (r: Vec<u8>)
    ensures
        r@ == t_listmessages(),
{
    let mut v: Vec<u8> = Vec::new();
    v.push(0x7b);
    v.push(0x22);
    v.push(0x4c);
    v.push(0x69);
    v.push(0x73);
    v.push(0x74);
    v.push(0x4d);
    v.push(0x65);
    v.push(0x73);
    v.push(0x73);
    v.push(0x61);
    v.push(0x67);
    v.push(0x65);
    v.push(0x73);
    v.push(0x22);
    v.push(0x3a);
    v.push(0x5b);
    proof {
        assert(v@ =~= t_listmessages());
    }
    v
}

/// `"ListPeerConnections"`
pub open spec fn t_listpeerconnections() -> Seq<u8> {
    seq![0x22u8, 0x4cu8, 0x69u8, 0x73u8, 0x74u8, 0x50u8, 0x65u8, 0x65u8, 0x72u8, 0x43u8, 0x6fu8, 0x6eu8, 0x6eu8, 0x65u8, 0x63u8, 0x74u8, 0x69u8, 0x6fu8, 0x6eu8, 0x73u8, 0x22u8]
}

/// `"ListPeerConnections"`, as a vector.
pub fn tv_listpeerconnections() -> (r: Vec<u8>)
    ensures
        r@ == t_listpeerconnections(),
{
    let mut v: Vec<u8> = Vec::new();
    v.push(0x22);
    v.push(0x4c);
    v.push(0x69);
    v.push(0x73);
    v.push(0x74);
    v.push(0x50);
    v.push(0x65);
    v.push(0x65);
    v.push(0x72);
    v.push(0x43);
    v.push(0x6f);
    v.push(0x6e);
    v.push(0x6e);
    v.push(0x65);
    v.push(0x63);
    v.push(0x74);
    v.push(0x69);
    v.push(0x6f);
    v.push(0x6e);
    v.push(0x73);
    v.push(0x22);
    proof {
        assert(v@ =~= t_listpeerconnections());
    }
    v
}

/// `{"MessagePeer":[`
pub open spec fn t_messagepeer() -> Seq<u8> {
    seq![0x7bu8, 0x22u8, 0x4du8, 0x65u8, 0x73u8, 0x73u8, 0x61u8, 0x67u8, 0x65u8, 0x50u8, 0x65u8, 0x65u8, 0x72u8, 0x22u8, 0x3au8, 0x5bu8]
}

/// `{"MessagePeer":[`, as a vector.
pub fn tv_messagepeer() -> (r: Vec<u8>)
    ensures
        r@ == t_messagepeer(),
{
    let mut v: Vec<u8> = Vec::new();
    v.push(0x7b);
    v.push(0x22);
    v.push(0x4d);
    v.push(0x65);
    v.push(0x73);
    v.push(0x73);
    v.push(0x61);
    v.push(0x67);
    v.push(0x65);
    v.push(0x50);
    v.push(0x65);
    v.push(0x65);
    v.push(0x72);
    v.push(0x22);
    v.push(0x3a);
    v.push(0x5b);
    proof {
        assert(v@ =~= t_messagepeer());
    }
    v
}

/// `{"RetryUnrecieved":`
pub open spec fn t_retryunrecieved() -> Seq<u8> {
    seq![0x7bu8, 0x22u8, 0x52u8, 0x65u8, 0x74u8, 0x72u8, 0x79u8, 0x55u8, 0x6eu8, 0x72u8, 0x65u8, 0x63u8, 0x69u8, 0x65u8, 0x76u8, 0x65u8, 0x64u8, 0x22u8, 0x3au8]
}

/// `{"RetryUnrecieved":`, as a vector.
pub fn tv_retryunrecieved() -> (r: Vec<u8>)
    ensures
        r@ == t_retryunrecieved(),
{
    let mut v: Vec<u8> = Vec::new();
    v.push(0x7b);
    v.push(0x22);
    v.push(0x52);
    v.push(0x65);
    v.push(0x74);
    v.push(0x72);
    v.push(0x79);
    v.push(0x55);
    v.push(0x6e);
    v.push(0x72);
    v.push(0x65);
    v.push(0x63);
    v.push(0x69);
    v.push(0x65);
    v.push(0x76);
    v.push(0x65);
    v.push(0x64);
    v.push(0x22);
    v.push(0x3a);
    proof {
        assert(v@ =~= t_retryunrecieved());
    }
    v
}

/// `{"PingPeer":`
pub open spec fn t_pingpeer() -> Seq<u8> {
    seq![0x7bu8, 0x22u8, 0x50u8, 0x69u8, 0x6eu8, 0x67u8, 0x50u8, 0x65u8, 0x65u8, 0x72u8, 0x22u8, 0x3au8]
}

/// `{"PingPeer":`, as a vector.
pub fn tv_pingpeer() -> (r: Vec<u8>)
    ensures
        r@ == t_pingpeer(),
{
    let mut v: Vec<u8> = Vec::new();
    v.push(0x7b);
    v.push(0x22);
    v.push(0x50);
    v.push(0x69);
    v.push(0x6e);
    v.push(0x67);
    v.push(0x50);
    v.push(0x65);
    v.push(0x65);
    v.push(0x72);
    v.push(0x22);
    v.push(0x3a);
    proof {
        assert(v@ =~= t_pingpeer());
    }
    v
}

/// `"KillRefresher"`
pub open spec fn t_killrefresher() -> Seq<u8> {
    seq![0x22u8, 0x4bu8, 0x69u8, 0x6cu8, 0x6cu8, 0x52u8, 0x65u8, 0x66u8, 0x72u8, 0x65u8, 0x73u8, 0x68u8, 0x65u8, 0x72u8, 0x22u8]
}

/// `"KillRefresher"`, as a vector.
pub fn tv_killrefresher() -> (r: Vec<u8>)
    ensures
        r@ == t_killrefresher(),
{
    let mut v: Vec<u8> = Vec::new();
    v.push(0x22);
    v.push(0x4b);
    v.push(0x69);
    v.push(0x6c);
    v.push(0x6c);
    v.push(0x52);
    v.push(0x65);
    v.push(0x66);
    v.push(0x72);
    v.push(0x65);
    v.push(0x73);
    v.push(0x68);
    v.push(0x65);
    v.push(0x72);
    v.push(0x22);
    proof {
        assert(v@ =~= t_killrefresher());
    }
    v
}

/// `{"LinkingResult":{"Ok":null}}`
pub open spec fn t_linkingresult_ok() -> Seq<u8> {
    seq![0x7bu8, 0x22u8, 0x4cu8, 0x69u8, 0x6eu8, 0x6bu8, 0x69u8, 0x6eu8, 0x67u8, 0x52u8, 0x65u8, 0x73u8, 0x75u8, 0x6cu8, 0x74u8, 0x22u8, 0x3au8, 0x7bu8, 0x22u8, 0x4fu8, 0x6bu8, 0x22u8, 0x3au8, 0x6eu8, 0x75u8, 0x6cu8, 0x6cu8, 0x7du8, 0x7du8]
}

/// `{"LinkingResult":{"Ok":null}}`, as a vector.
pub fn tv_linkingresult_ok() -> (r: Vec<u8>)
    ensures
        r@ == t_linkingresult_ok(),
{
    let mut v: Vec<u8> = Vec::new();
    v.push(0x7b);
    v.push(0x22);
    v.push(0x4c);
    v.push(0x69);
    v.push(0x6e);
    v.push(0x6b);
    v.push(0x69);
    v.push(0x6e);
    v.push(0x67);
    v.push(0x52);
    v.push(0x65);
    v.push(0x73);
    v.push(0x75);
    v.push(0x6c);
    v.push(0x74);
    v.push(0x22);
    v.push(0x3a);
    v.push(0x7b);
    v.push(0x22);
    v.push(0x4f);
    v.push(0x6b);
    v.push(0x22);
    v.push(0x3a);
    v.push(0x6e);
    v.push(0x75);
    v.push(0x6c);
    v.push(0x6c);
    v.push(0x7d);
    v.push(0x7d);
    proof {
        assert(v@ =~= t_linkingresult_ok());
    }
    v
}

/// `{"LinkingResult":{"Err":`
pub open spec fn t_linkingresult_err() -> Seq<u8> {
    seq![0x7bu8, 0x22u8, 0x4cu8, 0x69u8, 0x6eu8, 0x6bu8, 0x69u8, 0x6eu8, 0x67u8, 0x52u8, 0x65u8, 0x73u8, 0x75u8, 0x6cu8, 0x74u8, 0x22u8, 0x3au8, 0x7bu8, 0x22u8, 0x45u8, 0x72u8, 0x72u8, 0x22u8, 0x3au8]
}

/// `{"LinkingResult":{"Err":`, as a vector.
pub fn tv_linkingresult_err() -> (r: Vec<u8>)
    ensures
        r@ == t_linkingresult_err(),
{
    let mut v: Vec<u8> = Vec::new();
    v.push(0x7b);
    v.push(0x22);
    v.push(0x4c);
    v.push(0x69);
    v.push(0x6e);
    v.push(0x6b);
    v.push(0x69);
    v.push(0x6e);
    v.push(0x67);
    v.push(0x52);
    v.push(0x65);
    v.push(0x73);
    v.push(0x75);
    v.push(0x6c);
    v.push(0x74);
    v.push(0x22);
    v.push(0x3a);
    v.push(0x7b);
    v.push(0x22);
    v.push(0x45);
    v.push(0x72);
    v.push(0x72);
    v.push(0x22);
    v.push(0x3a);
    proof {
        assert(v@ =~= t_linkingresult_err());
    }
    v
}

/// `{"PeerConnectionsListed":`
pub open spec fn t_connectionslisted() -> Seq<u8> {
    seq![0x7bu8, 0x22u8, 0x50u8, 0x65u8, 0x65u8, 0x72u8, 0x43u8, 0x6fu8, 0x6eu8, 0x6eu8, 0x65u8, 0x63u8, 0x74u8, 0x69u8, 0x6fu8, 0x6eu8, 0x73u8, 0x4cu8, 0x69u8, 0x73u8, 0x74u8, 0x65u8, 0x64u8, 0x22u8, 0x3au8]
}

/// `{"PeerConnectionsListed":`, as a vector.
pub fn tv_connectionslisted() -> (r: Vec<u8>)
    ensures
        r@ == t_connectionslisted(),
{
    let mut v: Vec<u8> = Vec::new();
    v.push(0x7b);
    v.push(0x22);
    v.push(0x50);
    v.push(0x65);
    v.push(0x65);
    v.push(0x72);
    v.push(0x43);
    v.push(0x6f);
    v.push(0x6e);
    v.push(0x6e);
    v.push(0x65);
    v.push(0x63);
    v.push(0x74);
    v.push(0x69);
    v.push(0x6f);
    v.push(0x6e);
    v.push(0x73);
    v.push(0x4c);
    v.push(0x69);
    v.push(0x73);
    v.push(0x74);
    v.push(0x65);
    v.push(0x64);
    v.push(0x22);
    v.push(0x3a);
    proof {
        assert(v@ =~= t_connectionslisted());
    }
    v
}

/// `{"MessagesListed":`
pub open spec fn t_messageslisted() -> Seq<u8> {
    seq![0x7bu8, 0x22u8, 0x4du8, 0x65u8, 0x73u8, 0x73u8, 0x61u8, 0x67u8, 0x65u8, 0x73u8, 0x4cu8, 0x69u8, 0x73u8, 0x74u8, 0x65u8, 0x64u8, 0x22u8, 0x3au8]
}

/// `{"MessagesListed":`, as a vector.
pub fn tv_messageslisted() -> (r: Vec<u8>)
    ensures
        r@ == t_messageslisted(),
{
    let mut v: Vec<u8> = Vec::new();
    v.push(0x7b);
    v.push(0x22);
    v.push(0x4d);
    v.push(0x65);
    v.push(0x73);
    v.push(0x73);
    v.push(0x61);
    v.push(0x67);
    v.push(0x65);
    v.push(0x73);
    v.push(0x4c);
    v.push(0x69);
    v.push(0x73);
    v.push(0x74);
    v.push(0x65);
    v.push(0x64);
    v.push(0x22);
    v.push(0x3a);
    proof {
        assert(v@ =~= t_messageslisted());
    }
    v
}

/// `"InvalidRequest"`
pub open spec fn t_invalidrequest() -> Seq<u8> {
    seq![0x22u8, 0x49u8, 0x6eu8, 0x76u8, 0x61u8, 0x6cu8, 0x69u8, 0x64u8, 0x52u8, 0x65u8, 0x71u8, 0x75u8, 0x65u8, 0x73u8, 0x74u8, 0x22u8]
}

/// `"InvalidRequest"`, as a vector.
pub fn tv_invalidrequest() -> (r: Vec<u8>)
    ensures
        r@ == t_invalidrequest(),
{
    let mut v: Vec<u8> = Vec::new();
    v.push(0x22);
    v.push(0x49);
    v.push(0x6e);
    v.push(0x76);
    v.push(0x61);
    v.push(0x6c);
    v.push(0x69);
    v.push(0x64);
    v.push(0x52);
    v.push(0x65);
    v.push(0x71);
    v.push(0x75);
    v.push(0x65);
    v.push(0x73);
    v.push(0x74);
    v.push(0x22);
    proof {
        assert(v@ =~= t_invalidrequest());
    }
    v
}

/// `{"ProposeConnection":[`
pub open spec fn t_proposeconnection() -> Seq<u8> {
    seq![0x7bu8, 0x22u8, 0x50u8, 0x72u8, 0x6fu8, 0x70u8, 0x6fu8, 0x73u8, 0x65u8, 0x43u8, 0x6fu8, 0x6eu8, 0x6eu8, 0x65u8, 0x63u8, 0x74u8, 0x69u8, 0x6fu8, 0x6eu8, 0x22u8, 0x3au8, 0x5bu8]
}

/// `{"ProposeConnection":[`, as a vector.
pub fn tv_proposeconnection() -> (r: Vec<u8>)
    ensures
        r@ == t_proposeconnection(),
{
    let mut v: Vec<u8> = Vec::new();
    v.push(0x7b);
    v.push(0x22);
    v.push(0x50);
    v.push(0x72);
    v.push(0x6f);
    v.push(0x70);
    v.push(0x6f);
    v.push(0x73);
    v.push(0x65);
    v.push(0x43);
    v.push(0x6f);
    v.push(0x6e);
    v.push(0x6e);
    v.push(0x65);
    v.push(0x63);
    v.push(0x74);
    v.push(0x69);
    v.push(0x6f);
    v.push(0x6e);
    v.push(0x22);
    v.push(0x3a);
    v.push(0x5b);
    proof {
        assert(v@ =~= t_proposeconnection());
    }
    v
}

/// `{"Message":`
pub open spec fn t_message_variant() -> Seq<u8> {
    seq![0x7bu8, 0x22u8, 0x4du8, 0x65u8, 0x73u8, 0x73u8, 0x61u8, 0x67u8, 0x65u8, 0x22u8, 0x3au8]
}

/// `{"Message":`, as a vector.
pub fn tv_message_variant() -> (r: Vec<u8>)
    ensures
        r@ == t_message_variant(),
{
    let mut v: Vec<u8> = Vec::new();
    v.push(0x7b);
    v.push(0x22);
    v.push(0x4d);
    v.push(0x65);
    v.push(0x73);
    v.push(0x73);
    v.push(0x61);
    v.push(0x67);
    v.push(0x65);
    v.push(0x22);
    v.push(0x3a);
    proof {
        assert(v@ =~= t_message_variant());
    }
    v
}

/// `{"BulkMessage":`
pub open spec fn t_bulkmessage() -> Seq<u8> {
    seq![0x7bu8, 0x22u8, 0x42u8, 0x75u8, 0x6cu8, 0x6bu8, 0x4du8, 0x65u8, 0x73u8, 0x73u8, 0x61u8, 0x67u8, 0x65u8, 0x22u8, 0x3au8]
}

/// `{"BulkMessage":`, as a vector.
pub fn tv_bulkmessage() -> (r: Vec<u8>)
    ensures
        r@ == t_bulkmessage(),
{
    let mut v: Vec<u8> = Vec::new();
    v.push(0x7b);
    v.push(0x22);
    v.push(0x42);
    v.push(0x75);
    v.push(0x6c);
    v.push(0x6b);
    v.push(0x4d);
    v.push(0x65);
    v.push(0x73);
    v.push(0x73);
    v.push(0x61);
    v.push(0x67);
    v.push(0x65);
    v.push(0x22);
    v.push(0x3a);
    proof {
        assert(v@ =~= t_bulkmessage());
    }
    v
}

/// `{"AcceptConnection":[`
pub open spec fn t_acceptconnection() -> Seq<u8> {
    seq![0x7bu8, 0x22u8, 0x41u8, 0x63u8, 0x63u8, 0x65u8, 0x70u8, 0x74u8, 0x43u8, 0x6fu8, 0x6eu8, 0x6eu8, 0x65u8, 0x63u8, 0x74u8, 0x69u8, 0x6fu8, 0x6eu8, 0x22u8, 0x3au8, 0x5bu8]
}

/// `{"AcceptConnection":[`, as a vector.
pub fn tv_acceptconnection() -> (r: Vec<u8>)
    ensures
        r@ == t_acceptconnection(),
{
    let mut v: Vec<u8> = Vec::new();
    v.push(0x7b);
    v.push(0x22);
    v.push(0x41);
    v.push(0x63);
    v.push(0x63);
    v.push(0x65);
    v.push(0x70);
    v.push(0x74);
    v.push(0x43);
    v.push(0x6f);
    v.push(0x6e);
    v.push(0x6e);
    v.push(0x65);
    v.push(0x63);
    v.push(0x74);
    v.push(0x69);
    v.push(0x6f);
    v.push(0x6e);
    v.push(0x22);
    v.push(0x3a);
    v.push(0x5b);
    proof {
        assert(v@ =~= t_acceptconnection());
    }
    v
}

/// `{"Recieved":`
pub open spec fn t_recieved() -> Seq<u8> {
    seq![0x7bu8, 0x22u8, 0x52u8, 0x65u8, 0x63u8, 0x69u8, 0x65u8, 0x76u8, 0x65u8, 0x64u8, 0x22u8, 0x3au8]
}

/// `{"Recieved":`, as a vector.
pub fn tv_recieved() -> (r: Vec<u8>)
    ensures
        r@ == t_recieved(),
{
    let mut v: Vec<u8> = Vec::new();
    v.push(0x7b);
    v.push(0x22);
    v.push(0x52);
    v.push(0x65);
    v.push(0x63);
    v.push(0x69);
    v.push(0x65);
    v.push(0x76);
    v.push(0x65);
    v.push(0x64);
    v.push(0x22);
    v.push(0x3a);
    proof {
        assert(v@ =~= t_recieved());
    }
    v
}

/// `{"BulkRecieved":`
pub open spec fn t_bulkrecieved() -> Seq<u8> {
    seq![0x7bu8, 0x22u8, 0x42u8, 0x75u8, 0x6cu8, 0x6bu8, 0x52u8, 0x65u8, 0x63u8, 0x69u8, 0x65u8, 0x76u8, 0x65u8, 0x64u8, 0x22u8, 0x3au8]
}

/// `{"BulkRecieved":`, as a vector.
pub fn tv_bulkrecieved() -> (r: Vec<u8>)
    ensures
        r@ == t_bulkrecieved(),
{
    let mut v: Vec<u8> = Vec::new();
    v.push(0x7b);
    v.push(0x22);
    v.push(0x42);
    v.push(0x75);
    v.push(0x6c);
    v.push(0x6b);
    v.push(0x52);
    v.push(0x65);
    v.push(0x63);
    v.push(0x69);
    v.push(0x65);
    v.push(0x76);
    v.push(0x65);
    v.push(0x64);
    v.push(0x22);
    v.push(0x3a);
    proof {
        assert(v@ =~= t_bulkrecieved());
    }
    v
}

/// `"Connection"`
pub open spec fn t_refresh_connection() -> Seq<u8> {
    seq![0x22u8, 0x43u8, 0x6fu8, 0x6eu8, 0x6eu8, 0x65u8, 0x63u8, 0x74u8, 0x69u8, 0x6fu8, 0x6eu8, 0x22u8]
}

/// `"Connection"`, as a vector.
pub fn tv_refresh_connection() -> (r: Vec<u8>)
    ensures
        r@ == t_refresh_connection(),
{
    let mut v: Vec<u8> = Vec::new();
    v.push(0x22);
    v.push(0x43);
    v.push(0x6f);
    v.push(0x6e);
    v.push(0x6e);
    v.push(0x65);
    v.push(0x63);
    v.push(0x74);
    v.push(0x69);
    v.push(0x6f);
    v.push(0x6e);
    v.push(0x22);
    proof {
        assert(v@ =~= t_refresh_connection());
    }
    v
}

/// `"Message"`
pub open spec fn t_refresh_message() -> Seq<u8> {
    seq![0x22u8, 0x4du8, 0x65u8, 0x73u8, 0x73u8, 0x61u8, 0x67u8, 0x65u8, 0x22u8]
}

/// `"Message"`, as a vector.
pub fn tv_refresh_message() -> (r: Vec<u8>)
    ensures
        r@ == t_refresh_message(),
{
    let mut v: Vec<u8> = Vec::new();
    v.push(0x22);
    v.push(0x4d);
    v.push(0x65);
    v.push(0x73);
    v.push(0x73);
    v.push(0x61);
    v.push(0x67);
    v.push(0x65);
    v.push(0x22);
    proof {
        assert(v@ =~= t_refresh_message());
    }
    v
}

/// `"Kill"`
pub open spec fn t_refresh_kill() -> Seq<u8> {
    seq![0x22u8, 0x4bu8, 0x69u8, 0x6cu8, 0x6cu8, 0x22u8]
}

/// `"Kill"`, as a vector.
pub fn tv_refresh_kill() -> (r: Vec<u8>)
    ensures
        r@ == t_refresh_kill(),
{
    let mut v: Vec<u8> = Vec::new();
    v.push(0x22);
    v.push(0x4b);
    v.push(0x69);
    v.push(0x6c);
    v.push(0x6c);
    v.push(0x22);
    proof {
        assert(v@ =~= t_refresh_kill());
    }
    v
}

/// `{"Text":`
pub open spec fn t_text() -> Seq<u8> {
    seq![0x7bu8, 0x22u8, 0x54u8, 0x65u8, 0x78u8, 0x74u8, 0x22u8, 0x3au8]
}

/// `{"Text":`, as a vector.
pub fn tv_text() -> (r: Vec<u8>)
    ensures
        r@ == t_text(),
{
    let mut v: Vec<u8> = Vec::new();
    v.push(0x7b);
    v.push(0x22);
    v.push(0x54);
    v.push(0x65);
    v.push(0x78);
    v.push(0x74);
    v.push(0x22);
    v.push(0x3a);
    proof {
        assert(v@ =~= t_text());
    }
    v
}

/// `{"File":[`
pub open spec fn t_file() -> Seq<u8> {
    seq![0x7bu8, 0x22u8, 0x46u8, 0x69u8, 0x6cu8, 0x65u8, 0x22u8, 0x3au8, 0x5bu8]
}

/// `{"File":[`, as a vector.
pub fn tv_file() -> (r: Vec<u8>)
    ensures
        r@ == t_file(),
{
    let mut v: Vec<u8> = Vec::new();
    v.push(0x7b);
    v.push(0x22);
    v.push(0x46);
    v.push(0x69);
    v.push(0x6c);
    v.push(0x65);
    v.push(0x22);
    v.push(0x3a);
    v.push(0x5b);
    proof {
        assert(v@ =~= t_file());
    }
    v
}

/// `{"message_id":`
pub open spec fn t_msg_open() -> Seq<u8> {
    seq![0x7bu8, 0x22u8, 0x6du8, 0x65u8, 0x73u8, 0x73u8, 0x61u8, 0x67u8, 0x65u8, 0x5fu8, 0x69u8, 0x64u8, 0x22u8, 0x3au8]
}

/// `{"message_id":`, as a vector.
pub fn tv_msg_open() -> (r: Vec<u8>)
    ensures
        r@ == t_msg_open(),
{
    let mut v: Vec<u8> = Vec::new();
    v.push(0x7b);
    v.push(0x22);
    v.push(0x6d);
    v.push(0x65);
    v.push(0x73);
    v.push(0x73);
    v.push(0x61);
    v.push(0x67);
    v.push(0x65);
    v.push(0x5f);
    v.push(0x69);
    v.push(0x64);
    v.push(0x22);
    v.push(0x3a);
    proof {
        assert(v@ =~= t_msg_open());
    }
    v
}

/// `,"self_id":`
pub open spec fn t_msg_self() -> Seq<u8> {
    seq![0x2cu8, 0x22u8, 0x73u8, 0x65u8, 0x6cu8, 0x66u8, 0x5fu8, 0x69u8, 0x64u8, 0x22u8, 0x3au8]
}

/// `,"self_id":`, as a vector.
pub fn tv_msg_self() -> (r: Vec<u8>)
    ensures
        r@ == t_msg_self(),
{
    let mut v: Vec<u8> = Vec::new();
    v.push(0x2c);
    v.push(0x22);
    v.push(0x73);
    v.push(0x65);
    v.push(0x6c);
    v.push(0x66);
    v.push(0x5f);
    v.push(0x69);
    v.push(0x64);
    v.push(0x22);
    v.push(0x3a);
    proof {
        assert(v@ =~= t_msg_self());
    }
    v
}

/// `,"peer_id":`
pub open spec fn t_msg_peer() -> Seq<u8> {
    seq![0x2cu8, 0x22u8, 0x70u8, 0x65u8, 0x65u8, 0x72u8, 0x5fu8, 0x69u8, 0x64u8, 0x22u8, 0x3au8]
}

/// `,"peer_id":`, as a vector.
pub fn tv_msg_peer() -> (r: Vec<u8>)
    ensures
        r@ == t_msg_peer(),
{
    let mut v: Vec<u8> = Vec::new();
    v.push(0x2c);
    v.push(0x22);
    v.push(0x70);
    v.push(0x65);
    v.push(0x65);
    v.push(0x72);
    v.push(0x5f);
    v.push(0x69);
    v.push(0x64);
    v.push(0x22);
    v.push(0x3a);
    proof {
        assert(v@ =~= t_msg_peer());
    }
    v
}

/// `,"time_sent":"`
pub open spec fn t_msg_tsent() -> Seq<u8> {
    seq![0x2cu8, 0x22u8, 0x74u8, 0x69u8, 0x6du8, 0x65u8, 0x5fu8, 0x73u8, 0x65u8, 0x6eu8, 0x74u8, 0x22u8, 0x3au8, 0x22u8]
}

/// `,"time_sent":"`, as a vector.
pub fn tv_msg_tsent() -> (r: Vec<u8>)
    ensures
        r@ == t_msg_tsent(),
{
    let mut v: Vec<u8> = Vec::new();
    v.push(0x2c);
    v.push(0x22);
    v.push(0x74);
    v.push(0x69);
    v.push(0x6d);
    v.push(0x65);
    v.push(0x5f);
    v.push(0x73);
    v.push(0x65);
    v.push(0x6e);
    v.push(0x74);
    v.push(0x22);
    v.push(0x3a);
    v.push(0x22);
    proof {
        assert(v@ =~= t_msg_tsent());
    }
    v
}

/// `","time_recieved":`
pub open spec fn t_msg_trecv() -> Seq<u8> {
    seq![0x22u8, 0x2cu8, 0x22u8, 0x74u8, 0x69u8, 0x6du8, 0x65u8, 0x5fu8, 0x72u8, 0x65u8, 0x63u8, 0x69u8, 0x65u8, 0x76u8, 0x65u8, 0x64u8, 0x22u8, 0x3au8]
}

/// `","time_recieved":`, as a vector.
pub fn tv_msg_trecv() -> (r: Vec<u8>)
    ensures
        r@ == t_msg_trecv(),
{
    let mut v: Vec<u8> = Vec::new();
    v.push(0x22);
    v.push(0x2c);
    v.push(0x22);
    v.push(0x74);
    v.push(0x69);
    v.push(0x6d);
    v.push(0x65);
    v.push(0x5f);
    v.push(0x72);
    v.push(0x65);
    v.push(0x63);
    v.push(0x69);
    v.push(0x65);
    v.push(0x76);
    v.push(0x65);
    v.push(0x64);
    v.push(0x22);
    v.push(0x3a);
    proof {
        assert(v@ =~= t_msg_trecv());
    }
    v
}

/// `,"content":`
pub open spec fn t_msg_content() -> Seq<u8> {
    seq![0x2cu8, 0x22u8, 0x63u8, 0x6fu8, 0x6eu8, 0x74u8, 0x65u8, 0x6eu8, 0x74u8, 0x22u8, 0x3au8]
}

/// `,"content":`, as a vector.
pub fn tv_msg_content() -> (r: Vec<u8>)
    ensures
        r@ == t_msg_content(),
{
    let mut v: Vec<u8> = Vec::new();
    v.push(0x2c);
    v.push(0x22);
    v.push(0x63);
    v.push(0x6f);
    v.push(0x6e);
    v.push(0x74);
    v.push(0x65);
    v.push(0x6e);
    v.push(0x74);
    v.push(0x22);
    v.push(0x3a);
    proof {
        assert(v@ =~= t_msg_content());
    }
    v
}

/// `{"peer_id":`
pub open spec fn t_conn_open() -> Seq<u8> {
    seq![0x7bu8, 0x22u8, 0x70u8, 0x65u8, 0x65u8, 0x72u8, 0x5fu8, 0x69u8, 0x64u8, 0x22u8, 0x3au8]
}

/// `{"peer_id":`, as a vector.
pub fn tv_conn_open() -> (r: Vec<u8>)
    ensures
        r@ == t_conn_open(),
{
    let mut v: Vec<u8> = Vec::new();
    v.push(0x7b);
    v.push(0x22);
    v.push(0x70);
    v.push(0x65);
    v.push(0x65);
    v.push(0x72);
    v.push(0x5f);
    v.push(0x69);
    v.push(0x64);
    v.push(0x22);
    v.push(0x3a);
    proof {
        assert(v@ =~= t_conn_open());
    }
    v
}

/// `,"self_id":`
pub open spec fn t_conn_self() -> Seq<u8> {
    seq![0x2cu8, 0x22u8, 0x73u8, 0x65u8, 0x6cu8, 0x66u8, 0x5fu8, 0x69u8, 0x64u8, 0x22u8, 0x3au8]
}

/// `,"self_id":`, as a vector.
pub fn tv_conn_self() -> (r: Vec<u8>)
    ensures
        r@ == t_conn_self(),
{
    let mut v: Vec<u8> = Vec::new();
    v.push(0x2c);
    v.push(0x22);
    v.push(0x73);
    v.push(0x65);
    v.push(0x6c);
    v.push(0x66);
    v.push(0x5f);
    v.push(0x69);
    v.push(0x64);
    v.push(0x22);
    v.push(0x3a);
    proof {
        assert(v@ =~= t_conn_self());
    }
    v
}

/// `,"peer_name":`
pub open spec fn t_conn_name() -> Seq<u8> {
    seq![0x2cu8, 0x22u8, 0x70u8, 0x65u8, 0x65u8, 0x72u8, 0x5fu8, 0x6eu8, 0x61u8, 0x6du8, 0x65u8, 0x22u8, 0x3au8]
}

/// `,"peer_name":`, as a vector.
pub fn tv_conn_name() -> (r: Vec<u8>)
    ensures
        r@ == t_conn_name(),
{
    let mut v: Vec<u8> = Vec::new();
    v.push(0x2c);
    v.push(0x22);
    v.push(0x70);
    v.push(0x65);
    v.push(0x65);
    v.push(0x72);
    v.push(0x5f);
    v.push(0x6e);
    v.push(0x61);
    v.push(0x6d);
    v.push(0x65);
    v.push(0x22);
    v.push(0x3a);
    proof {
        assert(v@ =~= t_conn_name());
    }
    v
}

/// `,"peer_addr":"`
pub open spec fn t_conn_addr() -> Seq<u8> {
    seq![0x2cu8, 0x22u8, 0x70u8, 0x65u8, 0x65u8, 0x72u8, 0x5fu8, 0x61u8, 0x64u8, 0x64u8, 0x72u8, 0x22u8, 0x3au8, 0x22u8]
}

/// `,"peer_addr":"`, as a vector.
pub fn tv_conn_addr() -> (r: Vec<u8>)
    ensures
        r@ == t_conn_addr(),
{
    let mut v: Vec<u8> = Vec::new();
    v.push(0x2c);
    v.push(0x22);
    v.push(0x70);
    v.push(0x65);
    v.push(0x65);
    v.push(0x72);
    v.push(0x5f);
    v.push(0x61);
    v.push(0x64);
    v.push(0x64);
    v.push(0x72);
    v.push(0x22);
    v.push(0x3a);
    v.push(0x22);
    proof {
        assert(v@ =~= t_conn_addr());
    }
    v
}

/// `","online":`
pub open spec fn t_conn_online() -> Seq<u8> {
    seq![0x22u8, 0x2cu8, 0x22u8, 0x6fu8, 0x6eu8, 0x6cu8, 0x69u8, 0x6eu8, 0x65u8, 0x22u8, 0x3au8]
}

/// `","online":`, as a vector.
pub fn tv_conn_online() -> (r: Vec<u8>)
    ensures
        r@ == t_conn_online(),
{
    let mut v: Vec<u8> = Vec::new();
    v.push(0x22);
    v.push(0x2c);
    v.push(0x22);
    v.push(0x6f);
    v.push(0x6e);
    v.push(0x6c);
    v.push(0x69);
    v.push(0x6e);
    v.push(0x65);
    v.push(0x22);
    v.push(0x3a);
    proof {
        assert(v@ =~= t_conn_online());
    }
    v
}

/// `,"time_established":"`
pub open spec fn t_conn_test() -> Seq<u8> {
    seq![0x2cu8, 0x22u8, 0x74u8, 0x69u8, 0x6du8, 0x65u8, 0x5fu8, 0x65u8, 0x73u8, 0x74u8, 0x61u8, 0x62u8, 0x6cu8, 0x69u8, 0x73u8, 0x68u8, 0x65u8, 0x64u8, 0x22u8, 0x3au8, 0x22u8]
}

/// `,"time_established":"`, as a vector.
pub fn tv_conn_test() -> (r: Vec<u8>)
    ensures
        r@ == t_conn_test(),
{
    let mut v: Vec<u8> = Vec::new();
    v.push(0x2c);
    v.push(0x22);
    v.push(0x74);
    v.push(0x69);
    v.push(0x6d);
    v.push(0x65);
    v.push(0x5f);
    v.push(0x65);
    v.push(0x73);
    v.push(0x74);
    v.push(0x61);
    v.push(0x62);
    v.push(0x6c);
    v.push(0x69);
    v.push(0x73);
    v.push(0x68);
    v.push(0x65);
    v.push(0x64);
    v.push(0x22);
    v.push(0x3a);
    v.push(0x22);
    proof {
        assert(v@ =~= t_conn_test());
    }
    v
}

/// `true`
pub open spec fn t_true() -> Seq<u8> {
    seq![0x74u8, 0x72u8, 0x75u8, 0x65u8]
}

/// `true`, as a vector.
pub fn tv_true() -> (r: Vec<u8>)
    ensures
        r@ == t_true(),
{
    let mut v: Vec<u8> = Vec::new();
    v.push(0x74);
    v.push(0x72);
    v.push(0x75);
    v.push(0x65);
    proof {
        assert(v@ =~= t_true());
    }
    v
}

/// `false`
pub open spec fn t_false() -> Seq<u8> {
    seq![0x66u8, 0x61u8, 0x6cu8, 0x73u8, 0x65u8]
}

/// `false`, as a vector.
pub fn tv_false() -> (r: Vec<u8>)
    ensures
        r@ == t_false(),
{
    let mut v: Vec<u8> = Vec::new();
    v.push(0x66);
    v.push(0x61);
    v.push(0x6c);
    v.push(0x73);
    v.push(0x65);
    proof {
        assert(v@ =~= t_false());
    }
    v
}

/// `null`
pub open spec fn t_null() -> Seq<u8> {
    seq![0x6eu8, 0x75u8, 0x6cu8, 0x6cu8]
}

/// `null`, as a vector.
pub fn tv_null() -> (r: Vec<u8>)
    ensures
        r@ == t_null(),
{
    let mut v: Vec<u8> = Vec::new();
    v.push(0x6e);
    v.push(0x75);
    v.push(0x6c);
    v.push(0x6c);
    proof {
        assert(v@ =~= t_null());
    }
    v
}

/// `"}`
pub open spec fn t_close_qt_brace() -> Seq<u8> {
    seq![0x22u8, 0x7du8]
}

/// `"}`, as a vector.
pub fn tv_close_qt_brace() -> (r: Vec<u8>)
    ensures
        r@ == t_close_qt_brace(),
{
    let mut v: Vec<u8> = Vec::new();
    v.push(0x22);
    v.push(0x7d);
    proof {
        assert(v@ =~= t_close_qt_brace());
    }
    v
}

/// `]}`
pub open spec fn t_close_bracket_brace() -> Seq<u8> {
    seq![0x5du8, 0x7du8]
}

/// `]}`, as a vector.
pub fn tv_close_bracket_brace() -> (r: Vec<u8>)
    ensures
        r@ == t_close_bracket_brace(),
{
    let mut v: Vec<u8> = Vec::new();
    v.push(0x5d);
    v.push(0x7d);
    proof {
        assert(v@ =~= t_close_bracket_brace());
    }
    v
}

} // verus!
