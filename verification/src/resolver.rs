use vstd::prelude::*;
use vstd::string::StringExecFns;
use crate::protocol::address::Ipv4Address;
use crate::protocol::dnsheader::DnsHeader;
use crate::protocol::dnspacket::{delegations, first_address, glue, DnsPacket, PacketView};
use crate::protocol::dnsquestion::{DnsQuestion, QuestionView};
use crate::protocol::error::DnsError;
use crate::protocol::querytype::QueryType;
use crate::protocol::resultcode::ResultCode;

verus! {

/// The port that name servers listen on.
pub const DNS_PORT: u16 = 53;

/// The transaction id of every query that the resolver sends.
pub const QUERY_ID: u16 = 6666;

/// The address of `a.root-servers.net`, where resolution begins unless told otherwise.
pub fn root_server() -> (r: Ipv4Address)
    ensures
        r == Ipv4Address::of(198, 41, 0, 4),
{
    Ipv4Address::new(198, 41, 0, 4)
}

/// A query that is to be sent to a name server.
#[derive(Debug, Clone, PartialEq, Eq)]
pub struct Query {
    pub server: Ipv4Address,
    pub name: String,
    pub qtype: QueryType,
}

/// A query as a value.
pub struct QueryView {
    pub server: Ipv4Address,
    pub name: Seq<char>,
    pub qtype: QueryType,
}

impl View for Query {
    type V = QueryView;

    open spec fn view(&self) -> QueryView {
        QueryView { server: self.server, name: self.name@, qtype: self.qtype }
    }
}

/// The message that asks for `name` and `qtype`: one question, recursion desired.
pub open spec fn query_packet(name: Seq<char>, qtype: QueryType) -> PacketView {
    PacketView {
        header: DnsHeader {
            id: QUERY_ID,
            questions: 1,
            recursion_desired: true,
            ..DnsHeader::blank()
        },
        questions: seq![QuestionView { name, qtype }],
        answers: Seq::empty(),
        authorities: Seq::empty(),
        resources: Seq::empty(),
    }
}

impl Query {
    /// The message to send for this query.
    pub fn packet(&self) -> (r: DnsPacket)
        ensures
            r@ == query_packet(self.name@, self.qtype),
    {
        let mut packet = DnsPacket::new();
        packet.header.id = QUERY_ID;
        packet.header.questions = 1;
        packet.header.recursion_desired = true;
        packet.questions.push(DnsQuestion::new(self.name.clone(), self.qtype));
        proof {
            assert(packet@.questions =~= seq![QuestionView { name: self.name@, qtype: self.qtype }]);
            assert(packet@.answers =~= Seq::empty());
            assert(packet@.authorities =~= Seq::empty());
            assert(packet@.resources =~= Seq::empty());
        }
        packet
    }
}

/// A lookup in progress: what is asked, the name server that is asked, and, while the
/// lookup waits for the address of a name server, the referral that named that server.
#[derive(Debug, Clone)]
struct Lookup {
    name: String,
    qtype: QueryType,
    server: Ipv4Address,
    referral: Option<DnsPacket>,
}

/// A lookup in progress, as a value.
pub struct LookupView {
    pub name: Seq<char>,
    pub qtype: QueryType,
    pub server: Ipv4Address,
    pub referral: Option<PacketView>,
}

impl View for Lookup {
    type V = LookupView;

    closed spec fn view(&self) -> LookupView {
        LookupView {
            name: self.name@,
            qtype: self.qtype,
            server: self.server,
            referral: match self.referral {
                Some(packet) => Some(packet@),
                None => None,
            },
        }
    }
}

/// A resolution in progress: the lookup whose query is under way, on top of the lookups that
/// wait for it.
#[derive(Debug)]
pub struct Resolver {
    root: Ipv4Address,
    max_depth: usize,
    stack: Vec<Lookup>,
}

/// A resolution in progress, as a value. The last lookup of `stack` is the one whose query is
/// under way; each one before it waits for the address of a name server.
pub struct ResolverView {
    pub root: Ipv4Address,
    pub max_depth: nat,
    pub stack: Seq<LookupView>,
}

/// What a resolution does next.
#[derive(Debug)]
pub enum Progress {
    /// Send the query and hand the reply to the resolver.
    Ask(Resolver, Query),
    /// The resolution has ended with this response.
    Done(DnsPacket),
    /// The resolution has failed.
    Failed(DnsError),
}

/// What a resolution does next, as a value.
pub enum ProgressView {
    Ask(ResolverView, QueryView),
    Done(PacketView),
    Failed(DnsError),
}

impl View for Progress {
    type V = ProgressView;

    open spec fn view(&self) -> ProgressView {
        match *self {
            Progress::Ask(resolver, query) => ProgressView::Ask(resolver@, query@),
            Progress::Done(packet) => ProgressView::Done(packet@),
            Progress::Failed(e) => ProgressView::Failed(e),
        }
    }
}

/// The reply to a query, as a value.
pub open spec fn reply_view(reply: Result<DnsPacket, DnsError>) -> Result<PacketView, DnsError> {
    match reply {
        Ok(packet) => Ok(packet@),
        Err(e) => Err(e),
    }
}

/// A response that ends a lookup by itself: it answers the question, or it says that the name
/// does not exist.
pub open spec fn is_final(response: PacketView) -> bool {
    (response.answers.len() > 0 && response.header.rescode == ResultCode::NoError)
        || response.header.rescode == ResultCode::NXDomain
}

/// The lookup `waiting` goes on with the name server at `server`.
pub open spec fn redirected(waiting: LookupView, server: Ipv4Address) -> LookupView {
    LookupView { server, referral: None, ..waiting }
}

/// The query of a lookup.
pub open spec fn query_of(lookup: LookupView) -> QueryView {
    QueryView { server: lookup.server, name: lookup.name, qtype: lookup.qtype }
}

/// A lookup has ended with `result`, and the lookups of `s` wait for it. If none waits, the
/// resolution has ended. Otherwise the last of them wanted the address of a name server: it
/// goes on with the first address among the answers, and where there is none it ends with
/// the referral that it holds.
pub open spec fn deliver(s: ResolverView, result: PacketView) -> ProgressView
    decreases s.stack.len(),
{
    if s.stack.len() == 0 {
        ProgressView::Done(result)
    } else {
        let parent = s.stack.last();
        let below = ResolverView { stack: s.stack.drop_last(), ..s };
        match first_address(result.answers, 0) {
            Some(addr) => ProgressView::Ask(
                ResolverView { stack: below.stack.push(redirected(parent, addr)), ..s },
                query_of(redirected(parent, addr)),
            ),
            None => match parent.referral {
                Some(referral) => deliver(below, referral),
                None => ProgressView::Done(result),
            },
        }
    }
}

/// What a resolution in the state `s` does when the reply to its query is `reply`.
///
/// A failure to get a reply ends the whole resolution. A final response ends the lookup. A
/// referral with the address of one of its name servers sends the lookup on to that
/// address. A referral without one starts a lookup of the address of its first name server,
/// at the root, unless that would nest lookups deeper than `max_depth`. Any other response
/// ends the lookup as it is.
pub open spec fn next(s: ResolverView, reply: Result<PacketView, DnsError>) -> ProgressView {
    match reply {
        Err(e) => ProgressView::Failed(e),
        Ok(response) => if s.stack.len() == 0 {
            ProgressView::Done(response)
        } else {
            let top = s.stack.last();
            let waiting = ResolverView { stack: s.stack.drop_last(), ..s };
            let servers = delegations(response.authorities, top.name);
            if is_final(response) {
                deliver(waiting, response)
            } else {
                match glue(servers, response.resources, 0) {
                    Some(addr) => ProgressView::Ask(
                        ResolverView { stack: waiting.stack.push(redirected(top, addr)), ..s },
                        query_of(redirected(top, addr)),
                    ),
                    None => if servers.len() > 0 && s.stack.len() <= s.max_depth {
                        let sub = LookupView {
                            name: servers[0].host,
                            qtype: QueryType::A,
                            server: s.root,
                            referral: None,
                        };
                        ProgressView::Ask(
                            ResolverView {
                                stack: waiting.stack.push(LookupView { referral: Some(response), ..top }).push(
                                    sub,
                                ),
                                ..s
                            },
                            query_of(sub),
                        )
                    } else {
                        deliver(waiting, response)
                    },
                }
            }
        },
    }
}

/// A resolution with nothing but the lookup of `name` and `qtype` at the name server
/// `server`.
pub open spec fn single(root: Ipv4Address, max_depth: nat, lookup: LookupView) -> ResolverView {
    ResolverView { root, max_depth, stack: seq![lookup] }
}

/// A response with an answer and no error code ends the resolution: it is handed back as it
/// is and no further query is sent.
pub proof fn theorem_answer_ends(
    root: Ipv4Address,
    max_depth: nat,
    lookup: LookupView,
    response: PacketView,
)
    requires
        response.answers.len() > 0,
        response.header.rescode == ResultCode::NoError,
    ensures
        next(single(root, max_depth, lookup), Ok(response)) == ProgressView::Done(response),
{
    assert(single(root, max_depth, lookup).stack.drop_last() =~= Seq::empty());
}

/// A response that says that the name does not exist ends the resolution: it is handed back
/// as it is and no further query is sent.
pub proof fn theorem_nxdomain_ends(
    root: Ipv4Address,
    max_depth: nat,
    lookup: LookupView,
    response: PacketView,
)
    requires
        response.header.rescode == ResultCode::NXDomain,
    ensures
        next(single(root, max_depth, lookup), Ok(response)) == ProgressView::Done(response),
{
    assert(single(root, max_depth, lookup).stack.drop_last() =~= Seq::empty());
}

/// A referral that brings the address of one of its name servers sends the same question to
/// that address: one more query, and no lookup is begun or ended.
pub proof fn theorem_glue_redirects(s: ResolverView, response: PacketView, addr: Ipv4Address)
    requires
        s.stack.len() > 0,
        !is_final(response),
        glue(delegations(response.authorities, s.stack.last().name), response.resources, 0) == Some(
            addr,
        ),
    ensures
        next(s, Ok(response)) == ProgressView::Ask(
            ResolverView {
                stack: s.stack.update(s.stack.len() - 1, redirected(s.stack.last(), addr)),
                ..s
            },
            QueryView { server: addr, name: s.stack.last().name, qtype: s.stack.last().qtype },
        ),
{
    assert(s.stack.drop_last().push(redirected(s.stack.last(), addr)) =~= s.stack.update(
        s.stack.len() - 1,
        redirected(s.stack.last(), addr),
    ));
}

/// A referral that brings no address of a name server begins a lookup of the address of its
/// first name server at the root, provided the depth limit allows it; the lookup that got
/// the referral waits, holding the referral.
pub proof fn theorem_missing_glue_nests(s: ResolverView, response: PacketView)
    requires
        s.stack.len() > 0,
        s.stack.len() <= s.max_depth,
        !is_final(response),
        delegations(response.authorities, s.stack.last().name).len() > 0,
        glue(delegations(response.authorities, s.stack.last().name), response.resources, 0) is None,
    ensures
        next(s, Ok(response)) matches ProgressView::Ask(after, query) && {
            &&& query == (QueryView {
                server: s.root,
                name: delegations(response.authorities, s.stack.last().name)[0].host,
                qtype: QueryType::A,
            })
            &&& after.stack.len() == s.stack.len() + 1
            &&& after.stack[s.stack.len() - 1].referral == Some(response)
        },
{
}

/// When the lookup of a name server's address ends with an address, the lookup that waited
/// for it goes on at the first such address with its own question.
pub proof fn theorem_address_resumes(
    s: ResolverView,
    response: PacketView,
    addr: Ipv4Address,
)
    requires
        s.stack.len() >= 2,
        is_final(response),
        first_address(response.answers, 0) == Some(addr),
    ensures
        next(s, Ok(response)) matches ProgressView::Ask(after, query) && {
            &&& query == (QueryView {
                server: addr,
                name: s.stack[s.stack.len() - 2].name,
                qtype: s.stack[s.stack.len() - 2].qtype,
            })
            &&& after.stack.len() == s.stack.len() - 1
        },
{
}

/// A response without an answer that names no name server for the name ends the resolution:
/// it is handed back as it is and no further query is sent.
pub proof fn theorem_stall_ends(
    root: Ipv4Address,
    max_depth: nat,
    lookup: LookupView,
    response: PacketView,
)
    requires
        delegations(response.authorities, lookup.name).len() == 0,
    ensures
        next(single(root, max_depth, lookup), Ok(response)) == ProgressView::Done(response),
{
    assert(single(root, max_depth, lookup).stack.drop_last() =~= Seq::empty());
}

/// A failure to get a reply ends the whole resolution with that failure, however many
/// lookups wait.
pub proof fn theorem_failure_ends(s: ResolverView, e: DnsError)
    ensures
        next(s, Err(e)) == ProgressView::Failed(e),
{
}

/// The state that a resolution goes on with keeps its root and its depth limit.
pub open spec fn keeps_limits(s: ResolverView, progress: ProgressView) -> bool {
    progress matches ProgressView::Ask(after, _) ==> {
        &&& after.root == s.root
        &&& after.max_depth == s.max_depth
        &&& 0 < after.stack.len() <= s.max_depth + 1
    }
}

/// Handing on the result of a lookup nests no lookup deeper.
pub proof fn lemma_deliver_keeps_limits(s: ResolverView, result: PacketView)
    requires
        s.stack.len() <= s.max_depth + 1,
    ensures
        keeps_limits(s, deliver(s, result)),
    decreases s.stack.len(),
{
    if s.stack.len() > 0 && first_address(result.answers, 0) is None && s.stack.last().referral is Some {
        let below = ResolverView { stack: s.stack.drop_last(), ..s };
        lemma_deliver_keeps_limits(below, s.stack.last().referral->Some_0);
    }
}

/// However a resolution goes on, it never nests more lookups of name server addresses than
/// its depth limit allows.
pub proof fn theorem_depth_is_bounded(s: ResolverView, reply: Result<PacketView, DnsError>)
    requires
        s.stack.len() <= s.max_depth + 1,
    ensures
        keeps_limits(s, next(s, reply)),
{
    if reply is Ok && s.stack.len() > 0 {
        let waiting = ResolverView { stack: s.stack.drop_last(), ..s };
        lemma_deliver_keeps_limits(waiting, reply->Ok_0);
    }
}

/// The lookups as values.
spec fn lookup_views(stack: Seq<Lookup>) -> Seq<LookupView> {
    stack.map_values(|l: Lookup| l@)
}

impl Resolver {
    /// A query is under way, and no more lookups are nested than the depth limit allows.
    #[verifier::type_invariant]
    spec fn active(self) -> bool {
        0 < self.stack@.len() <= self.max_depth + 1
    }

    /// The resolution as a value.
    pub closed spec fn view(&self) -> ResolverView {
        ResolverView {
            root: self.root,
            max_depth: self.max_depth as nat,
            stack: lookup_views(self.stack@),
        }
    }

    /// Number of lookups in progress: one, and one more for each lookup that waits; never
    /// more than the depth limit allows.
    pub fn depth(&self) -> (r: usize)
        ensures
            r == self@.stack.len(),
            0 < r <= self@.max_depth + 1,
    {
        proof {
            use_type_invariant(self);
        }
        self.stack.len()
    }

    /// Begins the resolution of `qname` and `qtype` at the name server `root`, with at most
    /// `max_depth` lookups of name server addresses nested in one another. The first query
    /// goes to `root`.
    pub fn start(
        root: Ipv4Address,
        max_depth: usize,
        qname: &str,
        qtype: QueryType,
    ) -> (r: (Resolver, Query))
        ensures
            r.0@ == (ResolverView {
                root,
                max_depth: max_depth as nat,
                stack: seq![LookupView { name: qname@, qtype, server: root, referral: None }],
            }),
            r.1@ == (QueryView { server: root, name: qname@, qtype }),
    {
        let mut stack: Vec<Lookup> = Vec::new();
        stack.push(Lookup { name: String::from_str(qname), qtype, server: root, referral: None });
        let resolver = Resolver { root, max_depth, stack };
        proof {
            assert(resolver@.stack =~= seq![LookupView { name: qname@, qtype, server: root, referral: None }]);
        }
        (resolver, Query { server: root, name: String::from_str(qname), qtype })
    }

    /// Hands the lookups that wait the result of the lookup that has ended.
    fn deliver(
        root: Ipv4Address,
        max_depth: usize,
        waiting: Vec<Lookup>,
        ended: DnsPacket,
    ) -> (r: Progress)
        requires
            waiting@.len() <= max_depth,
        ensures
            r@ == deliver(
                ResolverView { root, max_depth: max_depth as nat, stack: lookup_views(waiting@) },
                ended@,
            ),
    {
        let ghost goal = deliver(
            ResolverView { root, max_depth: max_depth as nat, stack: lookup_views(waiting@) },
            ended@,
        );
        let mut stack = waiting;
        let mut result = ended;
        loop
            invariant
                goal == deliver(
                    ResolverView { root, max_depth: max_depth as nat, stack: lookup_views(waiting@) },
                    ended@,
                ),
                goal == deliver(
                    ResolverView { root, max_depth: max_depth as nat, stack: lookup_views(stack@) },
                    result@,
                ),
                stack@.len() <= max_depth,
            decreases stack@.len(),
        {
            let ghost before = lookup_views(stack@);
            match stack.pop() {
                None => {
                    return Progress::Done(result);
                },
                Some(parent) => {
                    proof {
                        assert(lookup_views(stack@) =~= before.drop_last());
                        assert(before.last() == parent@);
                    }
                    let Lookup { name, qtype, server: _, referral } = parent;
                    match result.get_random_a() {
                        Some(addr) => {
                            let query = Query { server: addr, name: name.clone(), qtype };
                            stack.push(Lookup { name, qtype, server: addr, referral: None });
                            let resolver = Resolver { root, max_depth, stack };
                            proof {
                                assert(resolver@.stack =~= before.drop_last().push(
                                    redirected(before.last(), addr),
                                ));
                            }
                            return Progress::Ask(resolver, query);
                        },
                        None => {
                            match referral {
                                Some(last) => {
                                    result = last;
                                },
                                None => {
                                    return Progress::Done(result);
                                },
                            }
                        },
                    }
                },
            }
        }
    }

    /// Takes the reply to the query that is under way and says what to do next: send another
    /// query, or end with a response or a failure.
    pub fn step(self, reply: Result<DnsPacket, DnsError>) -> (r: Progress)
        ensures
            r@ == next(self@, reply_view(reply)),
    {
        proof {
            use_type_invariant(&self);
        }
        let Resolver { root, max_depth, stack } = self;
        let mut stack = stack;
        let ghost before = lookup_views(stack@);
        let response = match reply {
            Err(e) => {
                return Progress::Failed(e);
            },
            Ok(response) => response,
        };
        let top = match stack.pop() {
            None => {
                return Progress::Done(response);
            },
            Some(top) => top,
        };
        proof {
            assert(lookup_views(stack@) =~= before.drop_last());
            assert(before.last() == top@);
        }
        let Lookup { name, qtype, server, referral } = top;
        if (response.answers.len() > 0 && response.header.rescode == ResultCode::NoError)
            || response.header.rescode == ResultCode::NXDomain {
            return Self::deliver(root, max_depth, stack, response);
        }
        match response.get_resolved_ns(name.as_str()) {
            Some(addr) => {
                let query = Query { server: addr, name: name.clone(), qtype };
                stack.push(Lookup { name, qtype, server: addr, referral: None });
                let resolver = Resolver { root, max_depth, stack };
                proof {
                    assert(resolver@.stack =~= before.drop_last().push(redirected(before.last(), addr)));
                }
                return Progress::Ask(resolver, query);
            },
            None => {},
        }
        let host: Option<String> = match response.get_unresolved_ns(name.as_str()) {
            Some(host) => Some(String::from_str(host)),
            None => None,
        };
        match host {
            Some(host) => {
                if stack.len() < max_depth {
                    let query = Query { server: root, name: host.clone(), qtype: QueryType::A };
                    let ghost waiting = LookupView { referral: Some(response@), ..before.last() };
                    let ghost sub = LookupView { name: host@, qtype: QueryType::A, server: root, referral: None };
                    stack.push(Lookup { name, qtype, server, referral: Some(response) });
                    stack.push(Lookup { name: host, qtype: QueryType::A, server: root, referral: None });
                    let resolver = Resolver { root, max_depth, stack };
                    proof {
                        assert(resolver@.stack =~= before.drop_last().push(waiting).push(sub));
                    }
                    return Progress::Ask(resolver, query);
                }
            },
            None => {},
        }
        Self::deliver(root, max_depth, stack, response)
    }
}

} // verus!
