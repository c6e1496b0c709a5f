use crate::name::{lemma_minimized_is_suffix, minimized_qname, spec_minimized_qname, DnsName};
use crate::resolver::{
    a_servers, chase_result, forward_result, process_response, servers_from_answers, spec_response_step,
    ResolveError, ResolveResponse, ResolveResponseV, Resolver, ResponseStep, ResponseStepV,
};
use crate::types::{records_view, DnsMessage, MessageV, Record, RecordType, RecordV, SocketAddress};
use vstd::prelude::*;

verus! {

/// What a resolution in progress waits for.
pub enum Waiting {
    /// An answer from `servers[next]` (the `attempt`-th try), asked from zone
    /// cut `zone_cut` at depth `depth`.
    Servers { zone_cut: DnsName, depth: u32, servers: Vec<SocketAddress>, next: usize, attempt: u64 },
    /// The addresses of name server `ns_names[next]` of a referral to
    /// `zone_cut` that came without glue, looked up by the resolution above.
    NsNames { zone_cut: DnsName, depth: u32, ns_names: Vec<DnsName>, next: usize },
    /// The records of a CNAME target, looked up by the resolution above, to
    /// follow `answers`.
    Chasing { depth: u32, answers: Vec<Record> },
    /// An answer from forwarder `servers[next]` (the `attempt`-th try).
    Forwarding { servers: Vec<SocketAddress>, next: usize, attempt: u64 },
}

pub enum WaitingV {
    Servers { zone_cut: Seq<Seq<u8>>, depth: u32, servers: Seq<SocketAddress>, next: int, attempt: u64 },
    NsNames { zone_cut: Seq<Seq<u8>>, depth: u32, ns_names: Seq<Seq<Seq<u8>>>, next: int },
    Chasing { depth: u32, answers: Seq<RecordV> },
    Forwarding { servers: Seq<SocketAddress>, next: int, attempt: u64 },
}

/// One resolution: the name and type it resolves and what it waits for.
pub struct Frame {
    pub qname: DnsName,
    pub qtype: RecordType,
    pub waiting: Waiting,
}

pub struct FrameV {
    pub qname: Seq<Seq<u8>>,
    pub qtype: RecordType,
    pub waiting: WaitingV,
}

pub open spec fn names_of(v: Seq<DnsName>) -> Seq<Seq<Seq<u8>>> {
    v.map_values(|n: DnsName| n@)
}

impl View for Frame {
    type V = FrameV;

    open spec fn view(&self) -> FrameV {
        FrameV {
            qname: self.qname@,
            qtype: self.qtype,
            waiting: match &self.waiting {
                Waiting::Servers { zone_cut, depth, servers, next, attempt } => WaitingV::Servers {
                    zone_cut: zone_cut@,
                    depth: *depth,
                    servers: servers@,
                    next: *next as int,
                    attempt: *attempt,
                },
                Waiting::NsNames { zone_cut, depth, ns_names, next } => WaitingV::NsNames {
                    zone_cut: zone_cut@,
                    depth: *depth,
                    ns_names: names_of(ns_names@),
                    next: *next as int,
                },
                Waiting::Chasing { depth, answers } => WaitingV::Chasing { depth: *depth, answers: records_view(answers@) },
                Waiting::Forwarding { servers, next, attempt } => WaitingV::Forwarding {
                    servers: servers@,
                    next: *next as int,
                    attempt: *attempt,
                },
            },
        }
    }
}

/// A recursive resolution in progress: the resolutions that wait on one
/// another, innermost last, and the resolver's settings.
pub struct Resolution {
    frames: Vec<Frame>,
    max_depth: u32,
    minimize: bool,
    attempts: u64,
    roots: Vec<SocketAddress>,
}

/// The resolver settings a resolution runs with: the depth limit, QNAME
/// minimisation, tries per server, and the root servers.
pub struct Settings {
    pub max_depth: u32,
    pub minimize: bool,
    pub attempts: u64,
    pub roots: Seq<SocketAddress>,
}

pub struct ResolutionV {
    pub frames: Seq<FrameV>,
    pub settings: Settings,
}

pub open spec fn frames_view(v: Seq<Frame>) -> Seq<FrameV> {
    v.map_values(|f: Frame| f@)
}

impl View for Resolution {
    type V = ResolutionV;

    closed spec fn view(&self) -> ResolutionV {
        ResolutionV {
            frames: frames_view(self.frames@),
            settings: Settings { max_depth: self.max_depth, minimize: self.minimize, attempts: self.attempts, roots: self.roots@ },
        }
    }
}

/// The error of a resolution, as the library produces it.
pub enum ResolveErrorV {
    MaxDepthExceeded,
    Upstream,
    NoNameservers(Seq<Seq<u8>>),
    ServFail,
}

pub open spec fn error_view(e: ResolveError) -> ResolveErrorV {
    match e {
        ResolveError::MaxDepthExceeded => ResolveErrorV::MaxDepthExceeded,
        ResolveError::Upstream(_) => ResolveErrorV::Upstream,
        ResolveError::NoNameservers(n) => ResolveErrorV::NoNameservers(n@),
        ResolveError::ServFail => ResolveErrorV::ServFail,
    }
}

pub open spec fn result_view(r: Result<ResolveResponse, ResolveError>) -> Result<ResolveResponseV, ResolveErrorV> {
    match r {
        Ok(x) => Ok(x@),
        Err(e) => Err(error_view(e)),
    }
}

/// What the resolution needs next.
pub enum ResolveAction {
    /// Ask `server` for `qname` and `qtype`, then report the answer or the failure.
    Query { server: SocketAddress, qname: DnsName, qtype: RecordType },
    /// The resolution is over, with this result.
    Finished(Result<ResolveResponse, ResolveError>),
}

pub enum ActionV {
    Query { server: SocketAddress, qname: Seq<Seq<u8>>, qtype: RecordType },
    Finished(Result<ResolveResponseV, ResolveErrorV>),
}

impl View for ResolveAction {
    type V = ActionV;

    open spec fn view(&self) -> ActionV {
        match self {
            ResolveAction::Query { server, qname, qtype } => ActionV::Query { server: *server, qname: qname@, qtype: *qtype },
            ResolveAction::Finished(r) => ActionV::Finished(result_view(*r)),
        }
    }
}

/// The depth of a resolution: how many CNAME, name server and referral steps
/// led to it.
pub open spec fn depth_of(f: FrameV) -> int {
    match f.waiting {
        WaitingV::Servers { depth, .. } => depth as int,
        WaitingV::NsNames { depth, .. } => depth as int,
        WaitingV::Chasing { depth, .. } => depth as int,
        WaitingV::Forwarding { .. } => 0,
    }
}

/// The next depth, kept within 32 bits.
pub open spec fn deeper(depth: u32) -> u32 {
    if depth < u32::MAX { (depth + 1) as u32 } else { depth }
}

/// A resolution that waits for an upstream answer.
pub open spec fn asking(f: FrameV, attempts: u64) -> bool {
    match f.waiting {
        WaitingV::Servers { servers, next, attempt, .. } => 0 <= next < servers.len() && attempt < attempts,
        WaitingV::Forwarding { servers, next, attempt } => 0 <= next < servers.len() && attempt < attempts,
        _ => false,
    }
}

/// A resolution that waits on the one above it.
pub open spec fn waiting_on_inner(f: FrameV, max_depth: u32) -> bool {
    &&& depth_of(f) + 1 < max_depth
    &&& match f.waiting {
        WaitingV::NsNames { ns_names, next, .. } => 0 <= next < ns_names.len(),
        WaitingV::Chasing { .. } => true,
        _ => false,
    }
}

/// The resolutions in progress are consistent: the innermost waits for an
/// answer, every other waits on the one after it, depths increase inwards,
/// and forwarding is never nested.
pub open spec fn stack_wf(frames: Seq<FrameV>, max_depth: u32, attempts: u64) -> bool {
    &&& frames.len() > 0 ==> asking(frames.last(), attempts)
    &&& forall|i: int| 0 <= i < frames.len() - 1 ==> waiting_on_inner(#[trigger] frames[i], max_depth)
    &&& forall|i: int, j: int| 0 <= i < j < frames.len() ==> depth_of(#[trigger] frames[i]) < depth_of(#[trigger] frames[j])
}

pub open spec fn resolution_wf(m: ResolutionV) -> bool {
    &&& m.settings.attempts > 0
    &&& stack_wf(m.frames, m.settings.max_depth, m.settings.attempts)
}

/// The name asked from zone cut `cut` while resolving `qname`.
pub open spec fn asked_name(st: Settings, qname: Seq<Seq<u8>>, cut: Seq<Seq<u8>>) -> Seq<Seq<u8>> {
    if st.minimize { spec_minimized_qname(qname, cut) } else { qname }
}

/// The query a resolution that waits for an answer sends.
pub open spec fn frame_action(st: Settings, f: FrameV) -> ActionV {
    match f.waiting {
        WaitingV::Servers { zone_cut, servers, next, .. } => ActionV::Query {
            server: servers[next],
            qname: asked_name(st, f.qname, zone_cut),
            qtype: f.qtype,
        },
        WaitingV::Forwarding { servers, next, .. } => ActionV::Query { server: servers[next], qname: f.qname, qtype: f.qtype },
        _ => ActionV::Finished(Err(ResolveErrorV::ServFail)),
    }
}

/// A new resolution of `qname` at `depth`: from the root servers, or the
/// depth error past the limit.
pub open spec fn start_frame(st: Settings, qname: Seq<Seq<u8>>, qtype: RecordType, depth: u32) -> Result<FrameV, ResolveErrorV> {
    if depth >= st.max_depth {
        Err(ResolveErrorV::MaxDepthExceeded)
    } else if st.roots.len() == 0 {
        Err(ResolveErrorV::NoNameservers(Seq::empty()))
    } else {
        Ok(FrameV {
            qname,
            qtype,
            waiting: WaitingV::Servers { zone_cut: Seq::empty(), depth, servers: st.roots, next: 0, attempt: 0 },
        })
    }
}

/// The answers of a CNAME chase: the CNAME answers, then those of the target.
pub open spec fn chased(answers: Seq<RecordV>, c: ResolveResponseV) -> ResolveResponseV {
    ResolveResponseV { answers: answers + c.answers, ..c }
}

/// The innermost resolution of `frames` has ended with `r`; hand it to the
/// one that waits on it, and so on outwards while they end too.
pub open spec fn settle(st: Settings, frames: Seq<FrameV>, r: Result<ResolveResponseV, ResolveErrorV>) -> (Seq<FrameV>, ActionV)
    decreases frames.len(),
{
    if frames.len() == 0 {
        (frames, ActionV::Finished(r))
    } else {
        let p = frames.last();
        let rest = frames.drop_last();
        match p.waiting {
            WaitingV::Chasing { answers, .. } => match r {
                Ok(c) => settle(st, rest, Ok(chased(answers, c))),
                Err(e) => settle(st, rest, Err(e)),
            },
            WaitingV::NsNames { zone_cut, depth, ns_names, next } => {
                let found = match r {
                    Ok(x) => a_servers(x.answers),
                    Err(_) => Seq::empty(),
                };
                if found.len() > 0 {
                    let g = FrameV {
                        waiting: WaitingV::Servers { zone_cut, depth: deeper(depth), servers: found, next: 0, attempt: 0 },
                        ..p
                    };
                    (rest.push(g), frame_action(st, g))
                } else if next < ns_names.len() - 1 {
                    match start_frame(st, ns_names[next + 1], RecordType::A, deeper(depth)) {
                        Ok(c) => (
                            rest.push(FrameV { waiting: WaitingV::NsNames { zone_cut, depth, ns_names, next: next + 1 }, ..p }).push(c),
                            frame_action(st, c),
                        ),
                        Err(_) => settle(st, rest, Err(ResolveErrorV::NoNameservers(zone_cut))),
                    }
                } else {
                    settle(st, rest, Err(ResolveErrorV::NoNameservers(zone_cut)))
                }
            },
            _ => (frames, ActionV::Finished(r)),
        }
    }
}

/// The state and next action after the innermost resolution's query got
/// `resp`: a forwarder's answer is the result; otherwise the answer is done,
/// chased, or followed as a referral (to its glue, else to the addresses of
/// its name servers).
pub open spec fn spec_on_answer(m: ResolutionV, resp: MessageV) -> (Seq<FrameV>, ActionV) {
    if m.frames.len() == 0 {
        (m.frames, ActionV::Finished(Err(ResolveErrorV::ServFail)))
    } else {
        let f = m.frames.last();
        let rest = m.frames.drop_last();
        match f.waiting {
            WaitingV::Forwarding { .. } => settle(m.settings, rest, Ok(ResolveResponseV {
                answers: resp.answers,
                authority: resp.name_servers,
                additional: resp.additionals,
                response_code: resp.response_code,
            })),
            WaitingV::Servers { zone_cut, depth, .. } => match spec_response_step(resp, f.qname, f.qtype, zone_cut) {
                ResponseStepV::Done(r) => settle(m.settings, rest, Ok(r)),
                ResponseStepV::Chase { answers, target } => match start_frame(m.settings, target, f.qtype, deeper(depth)) {
                    Ok(c) => (rest.push(FrameV { waiting: WaitingV::Chasing { depth, answers }, ..f }).push(c), frame_action(m.settings, c)),
                    Err(e) => settle(m.settings, rest, Err(e)),
                },
                ResponseStepV::Referral { zone_cut: cut, servers, ns_names } => if servers.len() > 0 {
                    let g = FrameV {
                        waiting: WaitingV::Servers { zone_cut: cut, depth: deeper(depth), servers, next: 0, attempt: 0 },
                        ..f
                    };
                    (rest.push(g), frame_action(m.settings, g))
                } else if ns_names.len() > 0 {
                    match start_frame(m.settings, ns_names[0], RecordType::A, deeper(depth)) {
                        Ok(c) => (
                            rest.push(FrameV { waiting: WaitingV::NsNames { zone_cut: cut, depth, ns_names, next: 0 }, ..f }).push(c),
                            frame_action(m.settings, c),
                        ),
                        Err(_) => settle(m.settings, rest, Err(ResolveErrorV::NoNameservers(cut))),
                    }
                } else {
                    settle(m.settings, rest, Err(ResolveErrorV::NoNameservers(cut)))
                },
            },
            _ => (m.frames, ActionV::Finished(Err(ResolveErrorV::ServFail))),
        }
    }
}

/// The state and next action after the innermost resolution's query failed:
/// the same server again while tries are left, then the next server; with
/// none left, no name server could answer (a forwarder: SERVFAIL).
pub open spec fn spec_on_failure(m: ResolutionV) -> (Seq<FrameV>, ActionV) {
    if m.frames.len() == 0 {
        (m.frames, ActionV::Finished(Err(ResolveErrorV::ServFail)))
    } else {
        let f = m.frames.last();
        let rest = m.frames.drop_last();
        match f.waiting {
            WaitingV::Servers { zone_cut, depth, servers, next, attempt } => if attempt + 1 < m.settings.attempts {
                let g = FrameV { waiting: WaitingV::Servers { zone_cut, depth, servers, next, attempt: (attempt + 1) as u64 }, ..f };
                (rest.push(g), frame_action(m.settings, g))
            } else if next + 1 < servers.len() {
                let g = FrameV { waiting: WaitingV::Servers { zone_cut, depth, servers, next: next + 1, attempt: 0 }, ..f };
                (rest.push(g), frame_action(m.settings, g))
            } else {
                settle(m.settings, rest, Err(ResolveErrorV::NoNameservers(zone_cut)))
            },
            WaitingV::Forwarding { servers, next, attempt } => if attempt + 1 < m.settings.attempts {
                let g = FrameV { waiting: WaitingV::Forwarding { servers, next, attempt: (attempt + 1) as u64 }, ..f };
                (rest.push(g), frame_action(m.settings, g))
            } else if next + 1 < servers.len() {
                let g = FrameV { waiting: WaitingV::Forwarding { servers, next: next + 1, attempt: 0 }, ..f };
                (rest.push(g), frame_action(m.settings, g))
            } else {
                settle(m.settings, rest, Err(ResolveErrorV::ServFail))
            },
            _ => (m.frames, ActionV::Finished(Err(ResolveErrorV::ServFail))),
        }
    }
}

/// The settings a resolution takes from the resolver, with nothing in progress.
pub open spec fn settings_of(r: &Resolver) -> Settings {
    Settings {
        max_depth: r.max_depth,
        minimize: r.qname_minimization,
        attempts: (r.upstream.config.retries + 1) as u64,
        roots: r.root_hints.servers@,
    }
}

impl Resolution {
    fn frame_action_exec(&self, f: &Frame) -> (a: ResolveAction)
        requires
            asking(f@, self@.settings.attempts),
        ensures
            a@ == frame_action(self@.settings, f@),
    {
        match &f.waiting {
            Waiting::Servers { zone_cut, servers, next, .. } => {
                let q = if self.minimize { minimized_qname(&f.qname, zone_cut) } else { f.qname.clone() };
                ResolveAction::Query { server: servers[*next], qname: q, qtype: f.qtype }
            },
            Waiting::Forwarding { servers, next, .. } => ResolveAction::Query {
                server: servers[*next],
                qname: f.qname.clone(),
                qtype: f.qtype,
            },
            _ => ResolveAction::Finished(Err(ResolveError::ServFail)),
        }
    }

    fn start_frame_exec(&self, qname: DnsName, qtype: RecordType, depth: u32) -> (r: Result<Frame, ResolveError>)
        ensures
            match (start_frame(self@.settings, qname@, qtype, depth), r) {
                (Ok(fv), Ok(f)) => f@ == fv,
                (Err(ev), Err(e)) => error_view(e) == ev,
                _ => false,
            },
    {
        if depth >= self.max_depth {
            return Err(ResolveError::MaxDepthExceeded);
        }
        if self.roots.len() == 0 {
            return Err(ResolveError::NoNameservers(DnsName::root()));
        }
        Ok(Frame {
            qname,
            qtype,
            waiting: Waiting::Servers { zone_cut: DnsName::root(), depth, servers: self.roots.clone(), next: 0, attempt: 0 },
        })
    }

    fn push_frame(&mut self, f: Frame)
        ensures
            final(self)@ == (ResolutionV { frames: old(self)@.frames.push(f@), ..old(self)@ }),
    {
        let ghost before = frames_view(self.frames@);
        self.frames.push(f);
        assert(frames_view(self.frames@) =~= before.push(f@));
    }

    fn pop_frame(&mut self) -> (f: Frame)
        requires
            old(self)@.frames.len() > 0,
        ensures
            f@ == old(self)@.frames.last(),
            final(self)@ == (ResolutionV { frames: old(self)@.frames.drop_last(), ..old(self)@ }),
    {
        let ghost before = frames_view(self.frames@);
        let f = self.frames.pop().unwrap();
        assert(frames_view(self.frames@) =~= before.drop_last());
        f
    }

    /// Hand the result `r` of the resolution that just ended to the ones
    /// waiting on it.
    fn settle_exec(&mut self, r: Result<ResolveResponse, ResolveError>) -> (a: ResolveAction)
        requires
            old(self)@.settings.attempts > 0,
            forall|i: int| 0 <= i < old(self)@.frames.len() ==> waiting_on_inner(#[trigger] old(self)@.frames[i], old(self)@.settings.max_depth),
            forall|i: int, j: int| 0 <= i < j < old(self)@.frames.len() ==> depth_of(#[trigger] old(self)@.frames[i]) < depth_of(#[trigger] old(self)@.frames[j]),
        ensures
            final(self)@ == (ResolutionV { frames: settle(old(self)@.settings, old(self)@.frames, result_view(r)).0, ..old(self)@ }),
            a@ == settle(old(self)@.settings, old(self)@.frames, result_view(r)).1,
            resolution_wf(final(self)@),
        decreases old(self)@.frames.len(),
    {
        if self.frames.len() == 0 {
            return ResolveAction::Finished(r);
        }
        let ghost m = self@;
        let Frame { qname, qtype, waiting } = self.pop_frame();
        match waiting {
            Waiting::Chasing { depth, answers } => match r {
                Ok(c) => self.settle_exec(Ok(chase_result(answers, c))),
                Err(e) => self.settle_exec(Err(e)),
            },
            Waiting::NsNames { zone_cut, depth, ns_names, next } => {
                assert(waiting_on_inner(m.frames[m.frames.len() - 1], m.settings.max_depth));
                assert(next < ns_names@.len());
                let found = match &r {
                    Ok(x) => servers_from_answers(&x.answers),
                    Err(_) => Vec::new(),
                };
                if found.len() > 0 {
                    let g = Frame {
                        qname,
                        qtype,
                        waiting: Waiting::Servers { zone_cut, depth: depth + 1, servers: found, next: 0, attempt: 0 },
                    };
                    let a = self.frame_action_exec(&g);
                    self.push_frame(g);
                    a
                } else if next < ns_names.len() - 1 {
                    assert(names_of(ns_names@)[next + 1] == ns_names@[next + 1]@);
                    let child_name = ns_names[next + 1].clone();
                    match self.start_frame_exec(child_name, RecordType::A, depth + 1) {
                        Ok(c) => {
                            let a = self.frame_action_exec(&c);
                            self.push_frame(Frame { qname, qtype, waiting: Waiting::NsNames { zone_cut, depth, ns_names, next: next + 1 } });
                            self.push_frame(c);
                            a
                        },
                        Err(_) => self.settle_exec(Err(ResolveError::NoNameservers(zone_cut))),
                    }
                } else {
                    self.settle_exec(Err(ResolveError::NoNameservers(zone_cut)))
                }
            },
            Waiting::Servers { .. } => {
                assert(false);
                ResolveAction::Finished(r)
            },
            Waiting::Forwarding { .. } => {
                assert(false);
                ResolveAction::Finished(r)
            },
        }
    }
    /// Take the answer `resp` to the query last asked for: the next query,
    /// or the result.
    pub fn on_answer(&mut self, resp: &DnsMessage) -> (a: ResolveAction)
        requires
            resolution_wf(old(self)@),
        ensures
            resolution_wf(final(self)@),
            final(self)@.settings == old(self)@.settings,
            final(self)@.frames == spec_on_answer(old(self)@, resp@).0,
            a@ == spec_on_answer(old(self)@, resp@).1,
    {
        if self.frames.len() == 0 {
            return ResolveAction::Finished(Err(ResolveError::ServFail));
        }
        let ghost m = self@;
        let Frame { qname, qtype, waiting } = self.pop_frame();
        proof {
            assert forall|i: int| 0 <= i < self@.frames.len() implies waiting_on_inner(#[trigger] self@.frames[i], m.settings.max_depth) by {
                assert(self@.frames[i] == m.frames[i]);
            }
            assert forall|i: int, j: int| 0 <= i < j < self@.frames.len() implies depth_of(#[trigger] self@.frames[i]) < depth_of(#[trigger] self@.frames[j]) by {
                assert(self@.frames[i] == m.frames[i] && self@.frames[j] == m.frames[j]);
            }
        }
        match waiting {
            Waiting::Forwarding { servers, next, attempt } => self.settle_exec(Ok(forward_result(resp))),
            Waiting::Servers { zone_cut, depth, servers, next, attempt } => {
                proof {
                    assert forall|i: int| 0 <= i < self@.frames.len() implies depth_of(#[trigger] self@.frames[i]) < depth by {
                        assert(self@.frames[i] == m.frames[i]);
                        assert(depth_of(m.frames[i]) < depth_of(m.frames[m.frames.len() - 1]));
                    }
                }
                let next_depth = if depth < u32::MAX { depth + 1 } else { depth };
                match process_response(resp, &qname, qtype, &zone_cut) {
                    ResponseStep::Done(r) => self.settle_exec(Ok(r)),
                    ResponseStep::Chase { answers, target } => match self.start_frame_exec(target, qtype, next_depth) {
                        Ok(c) => {
                            let a = self.frame_action_exec(&c);
                            self.push_frame(Frame { qname, qtype, waiting: Waiting::Chasing { depth, answers } });
                            self.push_frame(c);
                            proof {
                                lemma_push_two(m, self@.frames);
                            }
                            a
                        },
                        Err(e) => self.settle_exec(Err(e)),
                    },
                    ResponseStep::Referral { zone_cut: cut, servers: glue, ns_names } => {
                        if glue.len() > 0 {
                            let g = Frame {
                                qname,
                                qtype,
                                waiting: Waiting::Servers { zone_cut: cut, depth: next_depth, servers: glue, next: 0, attempt: 0 },
                            };
                            let a = self.frame_action_exec(&g);
                            self.push_frame(g);
                            a
                        } else if ns_names.len() > 0 {
                            assert(names_of(ns_names@)[0] == ns_names@[0]@);
                            let first = ns_names[0].clone();
                            match self.start_frame_exec(first, RecordType::A, next_depth) {
                                Ok(c) => {
                                    let a = self.frame_action_exec(&c);
                                    self.push_frame(Frame { qname, qtype, waiting: Waiting::NsNames { zone_cut: cut, depth, ns_names, next: 0 } });
                                    self.push_frame(c);
                                    proof {
                                        lemma_push_two(m, self@.frames);
                                    }
                                    a
                                },
                                Err(_) => self.settle_exec(Err(ResolveError::NoNameservers(cut))),
                            }
                        } else {
                            self.settle_exec(Err(ResolveError::NoNameservers(cut)))
                        }
                    },
                }
            },
            Waiting::NsNames { .. } => {
                assert(false);
                ResolveAction::Finished(Err(ResolveError::ServFail))
            },
            Waiting::Chasing { .. } => {
                assert(false);
                ResolveAction::Finished(Err(ResolveError::ServFail))
            },
        }
    }

    /// The query last asked for failed (no answer, or none usable): the
    /// next query, or the result.
    pub fn on_failure(&mut self) -> (a: ResolveAction)
        requires
            resolution_wf(old(self)@),
        ensures
            resolution_wf(final(self)@),
            final(self)@.settings == old(self)@.settings,
            final(self)@.frames == spec_on_failure(old(self)@).0,
            a@ == spec_on_failure(old(self)@).1,
    {
        if self.frames.len() == 0 {
            return ResolveAction::Finished(Err(ResolveError::ServFail));
        }
        let ghost m = self@;
        let Frame { qname, qtype, waiting } = self.pop_frame();
        proof {
            assert forall|i: int| 0 <= i < self@.frames.len() implies waiting_on_inner(#[trigger] self@.frames[i], m.settings.max_depth) by {
                assert(self@.frames[i] == m.frames[i]);
            }
            assert forall|i: int, j: int| 0 <= i < j < self@.frames.len() implies depth_of(#[trigger] self@.frames[i]) < depth_of(#[trigger] self@.frames[j]) by {
                assert(self@.frames[i] == m.frames[i] && self@.frames[j] == m.frames[j]);
            }
            assert forall|i: int| 0 <= i < self@.frames.len() implies depth_of(#[trigger] self@.frames[i]) < depth_of(m.frames.last()) by {
                assert(self@.frames[i] == m.frames[i]);
            }
        }
        match waiting {
            Waiting::Servers { zone_cut, depth, servers, next, attempt } => {
                if attempt < self.attempts - 1 {
                    let g = Frame { qname, qtype, waiting: Waiting::Servers { zone_cut, depth, servers, next, attempt: attempt + 1 } };
                    let a = self.frame_action_exec(&g);
                    self.push_frame(g);
                    a
                } else if next < servers.len() - 1 {
                    let g = Frame { qname, qtype, waiting: Waiting::Servers { zone_cut, depth, servers, next: next + 1, attempt: 0 } };
                    let a = self.frame_action_exec(&g);
                    self.push_frame(g);
                    a
                } else {
                    self.settle_exec(Err(ResolveError::NoNameservers(zone_cut)))
                }
            },
            Waiting::Forwarding { servers, next, attempt } => {
                if attempt < self.attempts - 1 {
                    let g = Frame { qname, qtype, waiting: Waiting::Forwarding { servers, next, attempt: attempt + 1 } };
                    let a = self.frame_action_exec(&g);
                    self.push_frame(g);
                    a
                } else if next < servers.len() - 1 {
                    let g = Frame { qname, qtype, waiting: Waiting::Forwarding { servers, next: next + 1, attempt: 0 } };
                    let a = self.frame_action_exec(&g);
                    self.push_frame(g);
                    a
                } else {
                    self.settle_exec(Err(ResolveError::ServFail))
                }
            },
            Waiting::NsNames { .. } => {
                assert(false);
                ResolveAction::Finished(Err(ResolveError::ServFail))
            },
            Waiting::Chasing { .. } => {
                assert(false);
                ResolveAction::Finished(Err(ResolveError::ServFail))
            },
        }
    }
}

/// Pushing a waiting resolution and its inner one onto a consistent stack
/// of waiting resolutions keeps it consistent.
proof fn lemma_push_two(m: ResolutionV, frames: Seq<FrameV>)
    requires
        frames.len() >= 2,
        m.settings.attempts > 0,
        asking(frames.last(), m.settings.attempts),
        forall|i: int| 0 <= i < frames.len() - 1 ==> waiting_on_inner(#[trigger] frames[i], m.settings.max_depth),
        forall|i: int, j: int| 0 <= i < j < frames.len() ==> depth_of(#[trigger] frames[i]) < depth_of(#[trigger] frames[j]),
    ensures
        stack_wf(frames, m.settings.max_depth, m.settings.attempts),
{
}

/// The resolution and first action of iterating for `qname` from the root.
pub open spec fn spec_begin_iteration(st: Settings, qname: Seq<Seq<u8>>, qtype: RecordType) -> (Seq<FrameV>, ActionV) {
    match start_frame(st, qname, qtype, 0) {
        Ok(f) => (seq![f], frame_action(st, f)),
        Err(e) => (Seq::empty(), ActionV::Finished(Err(e))),
    }
}

/// The resolution and first action of asking the forwarders `servers`.
pub open spec fn spec_begin_forwarding(st: Settings, qname: Seq<Seq<u8>>, qtype: RecordType, servers: Seq<SocketAddress>) -> (Seq<FrameV>, ActionV) {
    if servers.len() > 0 {
        let f = FrameV { qname, qtype, waiting: WaitingV::Forwarding { servers, next: 0, attempt: 0 } };
        (seq![f], frame_action(st, f))
    } else {
        (Seq::empty(), ActionV::Finished(Err(ResolveErrorV::ServFail)))
    }
}

impl Resolver {
    fn settings(&self) -> (r: Resolution)
        ensures
            r@.settings == settings_of(self),
            r@.frames.len() == 0,
    {
        let r = Resolution {
            frames: Vec::new(),
            max_depth: self.max_depth,
            minimize: self.qname_minimization,
            attempts: self.upstream.config.retries as u64 + 1,
            roots: self.root_hints.servers.clone(),
        };
        assert(frames_view(r.frames@) =~= Seq::<FrameV>::empty());
        r
    }

    /// Start resolving `qname` iteratively from the root servers (RFC 1034
    /// section 5.3.3): the resolution and the first query to send.
    pub fn begin_iteration(&self, qname: &DnsName, qtype: RecordType) -> (r: (Resolution, ResolveAction))
        ensures
            resolution_wf(r.0@),
            r.0@.settings == settings_of(self),
            (r.0@.frames, r.1@) == spec_begin_iteration(settings_of(self), qname@, qtype),
    {
        let mut res = self.settings();
        match res.start_frame_exec(qname.clone(), qtype, 0) {
            Ok(f) => {
                let a = res.frame_action_exec(&f);
                res.push_frame(f);
                assert(res@.frames =~= seq![f@]);
                (res, a)
            },
            Err(e) => (res, ResolveAction::Finished(Err(e))),
        }
    }

    /// Start resolving `qname` through the forwarders `servers`: the
    /// resolution and the first query to send (SERVFAIL without forwarders).
    pub fn begin_forwarding(&self, qname: &DnsName, qtype: RecordType, servers: Vec<SocketAddress>) -> (r: (Resolution, ResolveAction))
        ensures
            resolution_wf(r.0@),
            r.0@.settings == settings_of(self),
            (r.0@.frames, r.1@) == spec_begin_forwarding(settings_of(self), qname@, qtype, servers@),
    {
        let mut res = self.settings();
        if servers.len() == 0 {
            return (res, ResolveAction::Finished(Err(ResolveError::ServFail)));
        }
        let f = Frame { qname: qname.clone(), qtype, waiting: Waiting::Forwarding { servers, next: 0, attempt: 0 } };
        let a = res.frame_action_exec(&f);
        res.push_frame(f);
        assert(res@.frames =~= seq![f@]);
        (res, a)
    }
}

proof fn lemma_depth_at_least_index(frames: Seq<FrameV>, i: int)
    requires
        0 <= i < frames.len(),
        forall|a: int, b: int| 0 <= a < b < frames.len() ==> depth_of(#[trigger] frames[a]) < depth_of(#[trigger] frames[b]),
    ensures
        depth_of(frames[i]) >= i,
    decreases i,
{
    if i > 0 {
        lemma_depth_at_least_index(frames, i - 1);
        assert(depth_of(frames[i - 1]) < depth_of(frames[i]));
    } else {
        match frames[0].waiting {
            WaitingV::Servers { depth, .. } => assert(depth >= 0),
            WaitingV::NsNames { depth, .. } => assert(depth >= 0),
            WaitingV::Chasing { depth, .. } => assert(depth >= 0),
            WaitingV::Forwarding { .. } => {},
        }
    }
}

/// Resolutions nest at most `max_depth` deep: a CNAME chase or a name
/// server lookup starts a resolution only below the depth limit, so however
/// the upstream servers answer, no more than `max_depth` resolutions are in
/// progress at once (one, when the limit is 0).
pub proof fn lemma_nesting_bounded(m: ResolutionV)
    requires
        resolution_wf(m),
    ensures
        m.frames.len() <= 1 || m.frames.len() <= m.settings.max_depth,
{
    let n = m.frames.len();
    if n >= 2 {
        lemma_depth_at_least_index(m.frames, n - 2);
        assert(waiting_on_inner(m.frames[n - 2], m.settings.max_depth));
    }
}

/// Every upstream query asks for the name being resolved or, with QNAME
/// minimisation, for one of its suffixes: no other name is revealed to the
/// servers asked.
pub proof fn lemma_queries_ask_suffixes(m: ResolutionV)
    requires
        resolution_wf(m),
        m.frames.len() > 0,
    ensures
        frame_action(m.settings, m.frames.last()) matches ActionV::Query { qname: q, qtype: t, .. } && ({
            let f = m.frames.last();
            &&& t == f.qtype
            &&& q.len() <= f.qname.len()
            &&& q == f.qname.subrange(f.qname.len() - q.len(), f.qname.len() as int)
        }),
{
    let f = m.frames.last();
    match f.waiting {
        WaitingV::Servers { zone_cut, .. } => {
            lemma_minimized_is_suffix(f.qname, zone_cut);
            assert(f.qname.subrange(0, f.qname.len() as int) =~= f.qname);
        },
        _ => {
            assert(f.qname.subrange(0, f.qname.len() as int) =~= f.qname);
        },
    }
}

/// Answers without IPv4 address records give no name server addresses.
proof fn lemma_no_a_records_no_servers(answers: Seq<RecordV>)
    requires
        forall|i: int| 0 <= i < answers.len() ==> !((#[trigger] answers[i]).data is A),
    ensures
        a_servers(answers).len() == 0,
    decreases answers.len(),
{
    if answers.len() > 0 {
        let d = answers.drop_last();
        assert forall|i: int| 0 <= i < d.len() implies !((#[trigger] d[i]).data is A) by {
            assert(d[i] == answers[i]);
        }
        lemma_no_a_records_no_servers(d);
        assert(!(answers[answers.len() - 1].data is A));
    }
}

/// A glueless referral's name servers are tried in turn: when the address
/// lookup of one of them ends without an IPv4 address (it failed, or its
/// answers hold no A record) and the referral names more name servers, the
/// resolution does not give up but looks up the A records of the next name
/// server, from the root servers, as long as the depth limit allows.
pub proof fn lemma_next_name_server_tried(st: Settings, frames: Seq<FrameV>, r: Result<ResolveResponseV, ResolveErrorV>)
    requires
        frames.len() > 0,
        frames.last().waiting matches WaitingV::NsNames { depth, ns_names, next, .. }
            && next + 1 < ns_names.len() && deeper(depth) < st.max_depth,
        st.roots.len() > 0,
        r matches Ok(x) ==> forall|i: int| 0 <= i < x.answers.len() ==> !((#[trigger] x.answers[i]).data is A),
    ensures
        frames.last().waiting matches WaitingV::NsNames { ns_names, next, .. } && {
            let (fs, act) = settle(st, frames, r);
            &&& act == (ActionV::Query { server: st.roots[0], qname: asked_name(st, ns_names[next + 1], Seq::empty()), qtype: RecordType::A })
            &&& fs.len() == frames.len() + 1
            &&& fs.last().qname == ns_names[next + 1]
            &&& fs.last().qtype == RecordType::A
        },
{
    match r {
        Ok(x) => {
            lemma_no_a_records_no_servers(x.answers);
        },
        Err(_) => {},
    }
}

} // verus!
