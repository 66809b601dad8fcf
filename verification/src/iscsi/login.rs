//! Login: the negotiation of a session, one request at a time.
use vstd::prelude::*;
use vstd::string::*;

use crate::error::{Error, ErrorKind};
use crate::iscsi::header::{
    Header, COMMAND_WINDOW, MAX_SEGMENT, OP_LOGIN_REQUEST, OP_LOGIN_RESPONSE,
};
use crate::iscsi::keys::{append_text, text_pairs};
use crate::text::{decimal, parse_unsigned, str_eq};

verus! {

/// What is known of a session while it is being negotiated.
#[derive(Clone, Copy, Debug)]
pub struct LoginState {
    pub stat_sn: u32,
    pub discovery: bool,
    pub target_seen: bool,
}

/// A session that has been negotiated.
#[derive(Clone, Copy, Debug)]
pub struct Session {
    pub discovery: bool,
    pub stat_sn: u32,
    pub exp_cmd_sn: u32,
}

/// The answer to a login request, with the session where the negotiation is over.
#[derive(Debug)]
pub struct LoginReply {
    pub response: Header,
    pub text: Vec<u8>,
    pub session: Option<Session>,
}

/// The burst length that is agreed on for an offer: what is offered, at most the longest segment;
/// an offer that is no number counts as the longest segment.
pub open spec fn burst_length(offer: Seq<char>) -> nat {
    match crate::text::unsigned_value(offer, u32::MAX as nat) {
        Some(n) => if n < MAX_SEGMENT {
            n
        } else {
            MAX_SEGMENT as nat
        },
        None => MAX_SEGMENT as nat,
    }
}

/// What a key is answered with; the keys that only inform get no answer.
pub open spec fn reply_value(key: Seq<char>, value: Seq<char>) -> Option<Seq<char>> {
    if key == "SessionType"@ || key == "TargetName"@ || key == "InitiatorName"@ || key
        == "InitiatorAlias"@ {
        None
    } else if key == "AuthMethod"@ || key == "HeaderDigest"@ || key == "DataDigest"@ {
        Some("None"@)
    } else if key == "MaxConnections"@ {
        Some("1"@)
    } else if key == "InitialR2T"@ || key == "ImmediateData"@ {
        Some("Yes"@)
    } else if key == "DefaultTime2Wait"@ {
        Some("2"@)
    } else if key == "DefaultTime2Retain"@ {
        Some("0"@)
    } else if key == "MaxOutstandingR2T"@ {
        Some("1"@)
    } else if key == "DataPDUInOrder"@ || key == "DataSequenceInOrder"@ {
        Some("Yes"@)
    } else if key == "ErrorRecoveryLevel"@ {
        Some("0"@)
    } else if key == "IFMarker"@ || key == "OFMarker"@ || key == "RDMAExtensions"@ {
        Some("No"@)
    } else if key == "MaxRecvDataSegmentLength"@ {
        Some(crate::text::decimal_text(MAX_SEGMENT as nat))
    } else if key == "MaxBurstLength"@ || key == "FirstBurstLength"@ {
        Some(crate::text::decimal_text(burst_length(value)))
    } else {
        Some("NotUnderstood"@)
    }
}

fn answer_key(key: &str, value: &str) -> (reply: Option<String>)
    ensures
        match reply {
            Some(s) => reply_value(key@, value@) == Some(s@),
            None => reply_value(key@, value@) is None,
        },
{
    if str_eq(key, "SessionType") || str_eq(key, "TargetName") || str_eq(key, "InitiatorName")
        || str_eq(key, "InitiatorAlias") {
        None
    } else if str_eq(key, "AuthMethod") || str_eq(key, "HeaderDigest") || str_eq(key, "DataDigest") {
        Some(String::from_str("None"))
    } else if str_eq(key, "MaxConnections") {
        Some(String::from_str("1"))
    } else if str_eq(key, "InitialR2T") || str_eq(key, "ImmediateData") {
        Some(String::from_str("Yes"))
    } else if str_eq(key, "DefaultTime2Wait") {
        Some(String::from_str("2"))
    } else if str_eq(key, "DefaultTime2Retain") {
        Some(String::from_str("0"))
    } else if str_eq(key, "MaxOutstandingR2T") {
        Some(String::from_str("1"))
    } else if str_eq(key, "DataPDUInOrder") || str_eq(key, "DataSequenceInOrder") {
        Some(String::from_str("Yes"))
    } else if str_eq(key, "ErrorRecoveryLevel") {
        Some(String::from_str("0"))
    } else if str_eq(key, "IFMarker") || str_eq(key, "OFMarker") || str_eq(key, "RDMAExtensions") {
        Some(String::from_str("No"))
    } else if str_eq(key, "MaxRecvDataSegmentLength") {
        Some(decimal(MAX_SEGMENT as u64))
    } else if str_eq(key, "MaxBurstLength") || str_eq(key, "FirstBurstLength") {
        let offered: u64 = match parse_unsigned(value, u32::MAX as u64) {
            Some(n) => n,
            None => MAX_SEGMENT as u64,
        };
        Some(
            decimal(
                if offered < MAX_SEGMENT as u64 {
                    offered
                } else {
                    MAX_SEGMENT as u64
                },
            ),
        )
    } else {
        Some(String::from_str("NotUnderstood"))
    }
}

/// The text that answers a list of keys.
pub open spec fn reply_text(pairs: Seq<(Seq<char>, Seq<char>)>) -> Seq<u8>
    decreases pairs.len(),
{
    if pairs.len() == 0 {
        Seq::empty()
    } else {
        let head = reply_text(pairs.drop_last());
        match reply_value(pairs.last().0, pairs.last().1) {
            Some(reply) => head + crate::iscsi::keys::pair_bytes(pairs.last().0, reply),
            None => head,
        }
    }
}

/// What the last pair with key `key` says: whether its value is `wanted`; `before` where there is
/// no such pair.
pub open spec fn last_says(
    pairs: Seq<(Seq<char>, Seq<char>)>,
    key: Seq<char>,
    wanted: Seq<char>,
    before: bool,
) -> bool
    decreases pairs.len(),
{
    if pairs.len() == 0 {
        before
    } else if pairs.last().0 == key {
        pairs.last().1 == wanted
    } else {
        last_says(pairs.drop_last(), key, wanted, before)
    }
}

/// The stage that a login request is in.
pub open spec fn login_stage(request: Seq<u8>) -> u8 {
    (request[1] >> 2u8) & 0x3
}

/// Whether a login request ends the negotiation.
pub open spec fn is_final(request: Seq<u8>) -> bool {
    request[1] & 0x80 != 0 && request[1] & 0x3 == 3
}

/// The whole text of the answer to `data`: the answers to its keys and, in the operational stage,
/// the tag of the portal group.
pub open spec fn login_text(request: Seq<u8>, data: Seq<u8>) -> Seq<u8> {
    let text = reply_text(crate::iscsi::keys::key_values(data));
    if login_stage(request) == 1 {
        text + crate::iscsi::keys::pair_bytes("TargetPortalGroupTag"@, "1"@)
    } else {
        text
    }
}

/// The header of the answer to `request`, which carries `len` bytes of text.
pub open spec fn login_header(request: Seq<u8>, stat_sn: u32, len: nat) -> Seq<u8> {
    let stage = login_stage(request);
    let flags: u8 = if is_final(request) {
        (stage << 2u8) | 0x83
    } else {
        (stage << 2u8) | 0
    };
    let cmd_sn = crate::iscsi::header::field(request, 24, 4) as u32;
    let s = crate::bytes::splice(
        crate::iscsi::header::blank(OP_LOGIN_RESPONSE).update(1, flags),
        8,
        request.subrange(8, 14),
    );
    let s = crate::iscsi::header::with_u16(
        s,
        14,
        if is_final(request) {
            1
        } else {
            crate::iscsi::header::field(request, 14, 2) as u16
        },
    );
    let s = crate::iscsi::header::with_u32(
        s,
        16,
        crate::iscsi::header::field(request, 16, 4) as u32,
    );
    let s = crate::iscsi::header::with_serials(s, stat_sn, cmd_sn);
    crate::iscsi::header::with_data_len(s, len)
}

/// Answers one login request.
pub fn login(state: LoginState, request: &Header, data: &[u8], target: &str) -> (r: Result<
    (LoginState, LoginReply),
    Error,
>)
    ensures
        ({
            let pairs = crate::iscsi::keys::key_values(data@);
            let discovery = last_says(pairs, "SessionType"@, "Discovery"@, state.discovery);
            let target_seen = last_says(pairs, "TargetName"@, target@, state.target_seen);
            let text = login_text(request@, data@);
            let denied = !discovery && login_stage(request@) != 0 && !target_seen;
            match r {
                Ok((next, reply)) => {
                    &&& request@[0] & 0x3f == OP_LOGIN_REQUEST
                    &&& !denied
                    &&& text.len() <= 0xff_ffff
                    &&& next == (LoginState {
                        stat_sn: crate::iscsi::header::wrapping_next(state.stat_sn, 1),
                        discovery,
                        target_seen,
                    })
                    &&& reply.text@ == text
                    &&& reply.response@ == login_header(request@, state.stat_sn, text.len())
                    &&& reply.session == if is_final(request@) {
                        Some(
                            Session {
                                discovery,
                                stat_sn: next.stat_sn,
                                exp_cmd_sn: crate::iscsi::header::field(request@, 24, 4) as u32,
                            },
                        )
                    } else {
                        None
                    }
                },
                Err(e) => {
                    if request@[0] & 0x3f != OP_LOGIN_REQUEST {
                        e@ == (
                            ErrorKind::InvalidData,
                            "first iSCSI PDU is not a Login Request"@,
                        )
                    } else if denied {
                        e@ == (
                            ErrorKind::PermissionDenied,
                            "normal-session login did not name this target"@,
                        )
                    } else {
                        text.len() > 0xff_ffff && e@ == (
                            ErrorKind::InvalidInput,
                            "iSCSI data segment exceeds 24-bit length"@,
                        )
                    }
                },
            }
        }),
{
    if request.opcode() != OP_LOGIN_REQUEST {
        return Err(Error::of(ErrorKind::InvalidData, "first iSCSI PDU is not a Login Request"));
    }
    let ghost pairs_spec = crate::iscsi::keys::key_values(data@);
    let flags: u8 = request.0[1];
    let current_stage: u8 = (flags >> 2u8) & 0x3;
    let next_stage: u8 = flags & 0x3;
    let transit: bool = flags & 0x80 != 0;
    let pairs: Vec<(String, String)> = text_pairs(data);
    let mut discovery: bool = state.discovery;
    let mut target_seen: bool = state.target_seen;
    let mut text: Vec<u8> = Vec::new();
    let mut i: usize = 0;
    proof {
        assert(pairs_spec.subrange(0, 0) =~= Seq::<(Seq<char>, Seq<char>)>::empty());
        assert(text@ =~= Seq::<u8>::empty());
    }
    while i < pairs.len()
        invariant
            i <= pairs@.len(),
            pairs_spec == crate::iscsi::keys::pairs_view(pairs@),
            discovery == last_says(
                pairs_spec.subrange(0, i as int),
                "SessionType"@,
                "Discovery"@,
                state.discovery,
            ),
            target_seen == last_says(
                pairs_spec.subrange(0, i as int),
                "TargetName"@,
                target@,
                state.target_seen,
            ),
            text@ == reply_text(pairs_spec.subrange(0, i as int)),
        decreases pairs@.len() - i,
    {
        let key: &str = pairs[i].0.as_str();
        let value: &str = pairs[i].1.as_str();
        proof {
            let grown = pairs_spec.subrange(0, i + 1);
            assert(grown.drop_last() =~= pairs_spec.subrange(0, i as int));
            assert(grown.last() == (key@, value@));
        }
        if str_eq(key, "SessionType") {
            discovery = str_eq(value, "Discovery");
        }
        if str_eq(key, "TargetName") {
            target_seen = str_eq(value, target);
        }
        match answer_key(key, value) {
            Some(reply) => {
                append_text(&mut text, key, reply.as_str());
            },
            None => {},
        }
        i = i + 1;
    }
    proof {
        assert(pairs_spec.subrange(0, i as int) =~= pairs_spec);
    }
    if current_stage == 1 {
        append_text(&mut text, "TargetPortalGroupTag", "1");
    }
    if !discovery && current_stage != 0 && !target_seen {
        return Err(
            Error::of(
                ErrorKind::PermissionDenied,
                "normal-session login did not name this target",
            ),
        );
    }
    let last: bool = transit && next_stage == 3;
    let mut response: Header = Header::zeroed(OP_LOGIN_RESPONSE);
    response.put_byte(
        1,
        if last {
            (current_stage << 2u8) | 0x83
        } else {
            (current_stage << 2u8) | 0
        },
    );
    let mut k: usize = 8;
    let ghost base = response@;
    proof {
        assert(base =~= crate::bytes::splice(base, 8, request@.subrange(8, 8)));
    }
    while k < 14
        invariant
            8 <= k <= 14,
            base.len() == 48,
            response@ == crate::bytes::splice(base, 8, request@.subrange(8, k as int)),
        decreases 14 - k,
    {
        response.put_byte(k, request.0[k]);
        proof {
            assert(response@ =~= crate::bytes::splice(base, 8, request@.subrange(8, k + 1)));
        }
        k = k + 1;
    }
    response.put_u16(
        14,
        if last {
            1
        } else {
            request.u16(14)
        },
    );
    response.put_u32(16, request.u32(16));
    let cmd_sn: u32 = request.u32(24);
    response.put_u32(24, state.stat_sn);
    response.put_u32(28, cmd_sn);
    response.put_u32(32, cmd_sn.wrapping_add(COMMAND_WINDOW - 1));
    match response.set_data_len(text.len()) {
        Ok(_) => {},
        Err(e) => {
            return Err(e);
        },
    }
    let stat_sn: u32 = state.stat_sn.wrapping_add(1);
    let session: Option<Session> = if last {
        Some(Session { discovery, stat_sn, exp_cmd_sn: cmd_sn })
    } else {
        None
    };
    Ok((LoginState { stat_sn, discovery, target_seen }, LoginReply { response, text, session }))
}

/// The answer to a login goes back under the request's own session identifier and task tag, says how long
/// its text is, and stays in the request's stage; it moves to the full feature phase, with a session handle
/// of one, exactly where the request asks for that.
#[verifier::rlimit(40)]
pub proof fn law_logins_are_answered_in_kind(request: Seq<u8>, stat_sn: u32, len: nat)
    requires
        request.len() == 48,
        len <= 0xff_ffff,
    ensures
        ({
            let h = login_header(request, stat_sn, len);
            let last = request[1] >= 128 && request[1] % 4 == 3;
            let stage = request[1] / 4 % 4;
            &&& h.len() == 48
            &&& h[0] == 0x23
            &&& is_final(request) == last
            &&& login_stage(request) == stage
            &&& h[1] == stage * 4 + if last {
                0x83int
            } else {
                0
            }
            &&& h.subrange(8, 14) == request.subrange(8, 14)
            &&& h.subrange(16, 20) == request.subrange(16, 20)
            &&& crate::iscsi::header::field(h, 14, 2) == if last {
                1
            } else {
                crate::iscsi::header::field(request, 14, 2)
            }
            &&& crate::iscsi::header::data_segment_len(h) == len
            &&& crate::iscsi::header::field(h, 24, 4) == stat_sn
            &&& crate::iscsi::header::field(h, 28, 4) == crate::iscsi::header::field(request, 24, 4)
            &&& h[36] == 0 && h[37] == 0
        }),
{
    let h = login_header(request, stat_sn, len);
    let b = request[1];
    assert((b & 0x80 != 0 && b & 0x3 == 3) == (b >= 128 && b % 4 == 3)) by (bit_vector);
    assert((b >> 2u8) & 0x3 == b / 4 % 4) by (bit_vector);
    let stage = (b >> 2u8) & 0x3;
    assert(((b >> 2u8) & 0x3) << 2u8 | 0x83 == (b / 4 % 4) * 4 + 0x83) by (bit_vector);
    assert(((b >> 2u8) & 0x3) << 2u8 | 0 == (b / 4 % 4) * 4) by (bit_vector);
    crate::bytes::lemma_byte_ranges();
    let tag = crate::iscsi::header::field(request, 16, 4);
    let number = crate::iscsi::header::field(request, 24, 4);
    let handle = if is_final(request) {
        1
    } else {
        crate::iscsi::header::field(request, 14, 2)
    };
    crate::bytes::lemma_be_value_bound(request.subrange(16, 20));
    crate::bytes::lemma_be_value_bound(request.subrange(24, 28));
    crate::bytes::lemma_be_value_bound(request.subrange(14, 16));
    let top = crate::iscsi::header::wrapping_next(number as u32, 4095);
    crate::bytes::lemma_be_bytes_len(tag, 4);
    crate::bytes::lemma_be_bytes_len(number, 4);
    crate::bytes::lemma_be_bytes_len(stat_sn as nat, 4);
    crate::bytes::lemma_be_bytes_len(handle, 2);
    crate::bytes::lemma_be_bytes_len(len, 3);
    crate::bytes::lemma_be_bytes_len(top as nat, 4);
    crate::bytes::lemma_be_round_trip(tag, 4);
    crate::bytes::lemma_be_round_trip(number, 4);
    crate::bytes::lemma_be_round_trip(stat_sn as nat, 4);
    crate::bytes::lemma_be_round_trip(handle, 2);
    crate::bytes::lemma_be_round_trip(len, 3);
    assert(h.subrange(14, 16) =~= crate::bytes::be_bytes(handle, 2));
    assert(h.subrange(16, 20) =~= crate::bytes::be_bytes(tag, 4));
    assert(h.subrange(24, 28) =~= crate::bytes::be_bytes(stat_sn as nat, 4));
    assert(h.subrange(28, 32) =~= crate::bytes::be_bytes(number, 4));
    assert(h.subrange(5, 8) =~= crate::bytes::be_bytes(len, 3));
    assert(h.subrange(8, 14) =~= request.subrange(8, 14));
    lemma_same_bytes(h.subrange(16, 20), request.subrange(16, 20));
}

proof fn lemma_same_bytes(a: Seq<u8>, b: Seq<u8>)
    requires
        a.len() == b.len(),
        crate::bytes::be_value(a) == crate::bytes::be_value(b),
    ensures
        a == b,
    decreases a.len(),
{
    if a.len() > 0 {
        lemma_same_bytes(a.drop_last(), b.drop_last());
        assert(a =~= a.drop_last().push(a.last()));
        assert(b =~= b.drop_last().push(b.last()));
    } else {
        assert(a =~= b);
    }
}

/// What the last pair of a key says counts; without such a pair, what was known before counts.
pub proof fn law_the_last_pair_of_a_key_counts(
    pairs: Seq<(Seq<char>, Seq<char>)>,
    key: Seq<char>,
    wanted: Seq<char>,
    before: bool,
)
    ensures
        (forall|j: int| 0 <= j < pairs.len() ==> (#[trigger] pairs[j]).0 != key) ==> last_says(
            pairs,
            key,
            wanted,
            before,
        ) == before,
        forall|i: int|
            0 <= i < pairs.len() && (#[trigger] pairs[i]).0 == key && (forall|j: int|
                i < j < pairs.len() ==> (#[trigger] pairs[j]).0 != key) ==> last_says(
                pairs,
                key,
                wanted,
                before,
            ) == (pairs[i].1 == wanted),
    decreases pairs.len(),
{
    if pairs.len() > 0 {
        let head = pairs.drop_last();
        law_the_last_pair_of_a_key_counts(head, key, wanted, before);
        assert(forall|j: int| 0 <= j < head.len() ==> #[trigger] head[j] == pairs[j]);
        assert(pairs[pairs.len() - 1] == pairs.last());
        assert forall|i: int|
            0 <= i < pairs.len() && (#[trigger] pairs[i]).0 == key && (forall|j: int|
                i < j < pairs.len() ==> (#[trigger] pairs[j]).0 != key) implies last_says(
            pairs,
            key,
            wanted,
            before,
        ) == (pairs[i].1 == wanted) by {
            if i < head.len() {
                assert(head[i] == pairs[i]);
            }
        }
    }
}

/// An offered burst length is taken as it is up to the largest segment of the target, and cut to that
/// otherwise.
pub proof fn law_burst_lengths_fit_a_segment(offer: Seq<char>)
    ensures
        burst_length(offer) <= 262144,
        crate::text::unsigned_value(offer, u32::MAX as nat) matches Some(n) ==> burst_length(offer)
            <= n && (n <= 262144 ==> burst_length(offer) == n),
{
}

/// The keys of a login are answered in the order in which they come, each on its own.
pub proof fn law_keys_are_answered_in_order(
    first: Seq<(Seq<char>, Seq<char>)>,
    second: Seq<(Seq<char>, Seq<char>)>,
)
    ensures
        reply_text(first + second) == reply_text(first) + reply_text(second),
    decreases second.len(),
{
    if second.len() == 0 {
        assert(first + second =~= first);
    } else {
        law_keys_are_answered_in_order(first, second.drop_last());
        assert((first + second).drop_last() =~= first + second.drop_last());
        assert(reply_text(first + second) =~= reply_text(first) + reply_text(second));
    }
}

} // verus!
