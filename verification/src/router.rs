use crate::acl::{policy_allows, AclEngine};
use crate::message::parse_message;
use crate::rate_limit::{spec_check, RrlAction, RrlEngine};
use crate::resolver::{ResolveError, ResolveResponse};
use crate::response::{
    build_authoritative_response, build_formerr, build_recursive_response, build_refused,
    build_servfail, response_base, spec_authoritative_response,
};
use crate::types::{empty_message, records_view, DnsMessage, IpAddress, MessageType, MessageV, ResponseCode};
use crate::wire::{encode_message, wire_bytes, wire_message};
use crate::zone_store::{spec_find_zone, spec_store_lookup, ZoneStore};
use vstd::prelude::*;

verus! {

/// The id a FORMERR answer carries: the first two bytes of the query, big
/// endian, or 0 when there are fewer.
pub open spec fn spec_formerr_id(raw: Seq<u8>) -> u16 {
    if raw.len() >= 2 { (raw[0] as u16 * 256 + raw[1] as u16) as u16 } else { 0 }
}

pub fn formerr_id(raw: &[u8]) -> (r: u16)
    ensures
        r == spec_formerr_id(raw@),
{
    if raw.len() >= 2 {
        raw[0] as u16 * 256 + raw[1] as u16
    } else {
        0
    }
}

/// What the router does with a query, before any upstream work.
#[derive(Debug)]
pub enum RouteDecision {
    /// Send this response, through response rate limiting.
    Reply(DnsMessage),
    /// Send this response as it is: FORMERR for a query that cannot be read
    /// and REFUSED for one the ACL refuses are answered before rate limiting
    /// and do not count against the source.
    ReplyUnlimited(DnsMessage),
    /// Resolve this query recursively, then answer with `recursion_reply`.
    Recurse(DnsMessage),
    /// Send nothing.
    NoReply,
}

pub enum RouteV {
    Reply(MessageV),
    ReplyUnlimited(MessageV),
    Recurse(MessageV),
    NoReply,
}

impl View for RouteDecision {
    type V = RouteV;

    open spec fn view(&self) -> RouteV {
        match self {
            RouteDecision::Reply(m) => RouteV::Reply(m@),
            RouteDecision::ReplyUnlimited(m) => RouteV::ReplyUnlimited(m@),
            RouteDecision::Recurse(m) => RouteV::Recurse(m@),
            RouteDecision::NoReply => RouteV::NoReply,
        }
    }
}

/// The central query router: authoritative zones, access control, recursion
/// and response rate limiting.
pub struct Router {
    pub zone_store: ZoneStore,
    pub acl: AclEngine,
    pub rrl: Option<RrlEngine>,
    pub has_resolver: bool,
}

/// The router's decision for the query in `raw` from `src` (RFC 1034 section
/// 4.3.2 in the small): unreadable queries get FORMERR and queries the ACL
/// refuses get REFUSED, both outside rate limiting; names in a zone of the
/// store get the authoritative answer; queries asking for recursion, from
/// sources that may have it, are resolved (SERVFAIL without a resolver);
/// anything else is REFUSED.
pub open spec fn spec_route(
    zones: Seq<crate::zone::ZoneV>,
    acl: AclEngine,
    has_resolver: bool,
    raw: Seq<u8>,
    src: IpAddress,
) -> RouteV {
    match wire_message(raw) {
        None => RouteV::ReplyUnlimited(MessageV {
            id: spec_formerr_id(raw),
            message_type: MessageType::Response,
            response_code: ResponseCode::FormErr,
            ..empty_message()
        }),
        Some(q) => if q.queries.len() != 1 {
            RouteV::ReplyUnlimited(MessageV {
                id: spec_formerr_id(raw),
                message_type: MessageType::Response,
                response_code: ResponseCode::FormErr,
                ..empty_message()
            })
        } else if !policy_allows(acl.named_groups@, acl.allow_query@, src) {
            RouteV::ReplyUnlimited(response_base(q, ResponseCode::Refused))
        } else if spec_find_zone(zones, q.queries[0].name) is Some {
            match spec_store_lookup(zones, q.queries[0].name, q.queries[0].qtype) {
                Some(a) => RouteV::Reply(spec_authoritative_response(q, a)),
                None => RouteV::NoReply,
            }
        } else if q.recursion_desired && policy_allows(acl.named_groups@, acl.allow_recursion@, src) {
            if has_resolver { RouteV::Recurse(q) } else { RouteV::Reply(response_base(q, ResponseCode::ServFail)) }
        } else {
            RouteV::Reply(response_base(q, ResponseCode::Refused))
        },
    }
}

/// The first 12 bytes of a response (its header), with the TC bit set: what
/// a rate-limited source is sent to make it retry over TCP.
pub open spec fn spec_truncate_bytes(b: Seq<u8>) -> Seq<u8> {
    let h = if b.len() < 12 { b } else { b.subrange(0, 12) };
    h.update(2, h[2] | 2)
}

/// The TC-flagged header of a response of at least 4 bytes.
pub fn truncate_bytes(b: &Vec<u8>) -> (r: Vec<u8>)
    requires
        b@.len() >= 4,
    ensures
        r@ == spec_truncate_bytes(b@),
{
    let n = if b.len() < 12 { b.len() } else { 12 };
    let mut out: Vec<u8> = Vec::new();
    let mut i: usize = 0;
    while i < n
        invariant
            i <= n <= b@.len(),
            n == (if b@.len() < 12 { b@.len() } else { 12 }),
            out@ == b@.subrange(0, i as int),
        decreases n - i,
    {
        out.push(b[i]);
        assert(out@ =~= b@.subrange(0, i + 1));
        i = i + 1;
    }
    let flags = out[2] | 2;
    out.set(2, flags);
    proof {
        let h = if b@.len() < 12 { b@ } else { b@.subrange(0, 12) };
        assert(b@.subrange(0, n as int) =~= h);
    }
    out
}

/// What response rate limiting makes of the bytes of a response to `src`
/// (only checked when there is a response): sent, dropped, or cut to its
/// TC-flagged header (left whole when under 4 bytes).
pub open spec fn spec_rrl_filter(action: RrlAction, b: Seq<u8>) -> Option<Seq<u8>> {
    match action {
        RrlAction::Allow => Some(b),
        RrlAction::Drop => None,
        RrlAction::Truncate => if b.len() >= 4 { Some(spec_truncate_bytes(b)) } else { Some(b) },
    }
}

pub open spec fn opt_bytes_view(o: Option<Vec<u8>>) -> Option<Seq<u8>> {
    match o {
        Some(b) => Some(b@),
        None => None,
    }
}

impl Router {
    /// A router without rate limiting.
    pub fn new(zone_store: ZoneStore, has_resolver: bool, acl: AclEngine) -> (r: Router)
        ensures
            r.zone_store.spec_zones() == zone_store.spec_zones(),
            r.zone_store.wf() == zone_store.wf(),
            r.rrl is None,
            r.has_resolver == has_resolver,
    {
        Router { zone_store, acl, rrl: None, has_resolver }
    }

    /// The same router with response rate limiting.
    pub fn with_rrl(self, rrl: RrlEngine) -> (r: Router)
        ensures
            r.zone_store.spec_zones() == self.zone_store.spec_zones(),
            r.zone_store.wf() == self.zone_store.wf(),
            r.rrl == Some(rrl),
            r.has_resolver == self.has_resolver,
    {
        Router { zone_store: self.zone_store, acl: self.acl, rrl: Some(rrl), has_resolver: self.has_resolver }
    }

    /// The zones the router answers for.
    pub fn zone_store(&self) -> (r: &ZoneStore)
        ensures
            r == &self.zone_store,
    {
        &self.zone_store
    }

    /// Decide what to do with the query in `raw` from `src`.
    pub fn route(&self, raw: &[u8], src: &IpAddress) -> (r: RouteDecision)
        requires
            self.zone_store.wf(),
        ensures
            r@ == spec_route(self.zone_store.spec_zones(), self.acl, self.has_resolver, raw@, *src),
    {
        let query = match parse_message(raw) {
            Ok(m) => m,
            Err(_) => {
                return RouteDecision::ReplyUnlimited(build_formerr(formerr_id(raw)));
            },
        };
        if !self.acl.is_query_allowed(src) {
            return RouteDecision::ReplyUnlimited(build_refused(&query));
        }
        let q = &query.queries[0];
        assert(query@.queries[0].name == q.name@);
        if self.zone_store.is_authoritative_for(&q.name) {
            match self.zone_store.lookup(&q.name, q.qtype) {
                Some(auth) => RouteDecision::Reply(build_authoritative_response(&query, &auth)),
                None => RouteDecision::NoReply,
            }
        } else if query.recursion_desired && self.acl.is_recursion_allowed(src) {
            if self.has_resolver {
                RouteDecision::Recurse(query)
            } else {
                RouteDecision::Reply(build_servfail(&query))
            }
        } else {
            RouteDecision::Reply(build_refused(&query))
        }
    }

    /// Put the bytes of a response through response rate limiting, when it
    /// is configured.
    pub fn apply_rrl(&mut self, result: Option<Vec<u8>>, src: IpAddress) -> (r: Option<Vec<u8>>)
        ensures
            final(self).zone_store == old(self).zone_store,
            final(self).has_resolver == old(self).has_resolver,
            result is None ==> r is None && final(self).rrl == old(self).rrl,
            old(self).rrl is None ==> opt_bytes_view(r) == opt_bytes_view(result) && final(self).rrl is None,
            result matches Some(b) ==> (old(self).rrl matches Some(e) ==> exists|now: u64| {
                let (s2, act) = #[trigger] spec_check(e@, src, now);
                &&& final(self).rrl matches Some(e2) && e2@ == s2
                &&& opt_bytes_view(r) == spec_rrl_filter(act, b@)
            }),
    {
        let bytes = match result {
            Some(b) => b,
            None => {
                return None;
            },
        };
        match &mut self.rrl {
            None => Some(bytes),
            Some(engine) => {
                let action = engine.check(src);
                match action {
                    RrlAction::Allow => Some(bytes),
                    RrlAction::Drop => None,
                    RrlAction::Truncate => {
                        if bytes.len() >= 4 {
                            Some(truncate_bytes(&bytes))
                        } else {
                            Some(bytes)
                        }
                    },
                }
            },
        }
    }
}

/// The answer to a query that was resolved recursively: the answers found,
/// or SERVFAIL when resolution failed.
pub fn recursion_reply(query: &DnsMessage, result: Result<ResolveResponse, ResolveError>) -> (r: DnsMessage)
    ensures
        match result {
            Ok(resp) => r@ == (MessageV {
                recursion_available: true,
                answers: records_view(resp.answers@),
                ..response_base(query@, ResponseCode::NoError)
            }),
            Err(_) => r@ == response_base(query@, ResponseCode::ServFail),
        },
{
    match result {
        Ok(resp) => build_recursive_response(query, resp.answers),
        Err(_) => build_servfail(query),
    }
}

/// The bytes of a response, `None` where it cannot be encoded.
pub fn response_bytes(msg: &DnsMessage) -> (r: Option<Vec<u8>>)
    ensures
        opt_bytes_view(r) == wire_bytes(msg@),
{
    match encode_message(msg) {
        Ok(b) => Some(b),
        Err(_) => None,
    }
}

/// Every reply the router gives to a readable query of one question echoes
/// its id, opcode and question and is marked a response; a query the ACL
/// refuses is answered REFUSED, and a query that cannot be read, or is not a
/// query of one question, FORMERR, both outside rate limiting.
pub proof fn lemma_replies_echo_query(
    zones: Seq<crate::zone::ZoneV>,
    acl: AclEngine,
    has_resolver: bool,
    raw: Seq<u8>,
    src: IpAddress,
)
    ensures
        match wire_message(raw) {
            Some(q) => if q.queries.len() == 1 {
                &&& match spec_route(zones, acl, has_resolver, raw, src) {
                    RouteV::Reply(m) => {
                        &&& m.id == q.id
                        &&& m.op_code == q.op_code
                        &&& m.queries == q.queries
                        &&& m.message_type == MessageType::Response
                    },
                    RouteV::ReplyUnlimited(m) => {
                        &&& m.id == q.id
                        &&& m.op_code == q.op_code
                        &&& m.queries == q.queries
                        &&& m.message_type == MessageType::Response
                    },
                    _ => true,
                }
                &&& !policy_allows(acl.named_groups@, acl.allow_query@, src)
                    ==> spec_route(zones, acl, has_resolver, raw, src) == RouteV::ReplyUnlimited(response_base(q, ResponseCode::Refused))
            } else {
                spec_route(zones, acl, has_resolver, raw, src) == RouteV::ReplyUnlimited(MessageV {
                    id: spec_formerr_id(raw),
                    message_type: MessageType::Response,
                    response_code: ResponseCode::FormErr,
                    ..empty_message()
                })
            },
            None => spec_route(zones, acl, has_resolver, raw, src) == RouteV::ReplyUnlimited(MessageV {
                id: spec_formerr_id(raw),
                message_type: MessageType::Response,
                response_code: ResponseCode::FormErr,
                ..empty_message()
            }),
        },
{
}

} // verus!
