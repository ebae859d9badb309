//! Resource records (RR) of mDNS and the names they carry.
use crate::index_min_pq::{attention_ordering, CompareAttention};
use crate::vec_map::{KeyEq, VecMap};
use std::cmp::Ordering;
use vstd::prelude::*;

verus! {

/// The text `.` as a sequence of characters.
pub open spec fn dot() -> Seq<char> {
    seq!['.']
}

/// `a` and `b` joined by a dot.
pub open spec fn dotted(a: Seq<char>, b: Seq<char>) -> Seq<char> {
    a + dot() + b
}

/// Builds the string `a.b`.
fn join_dot(a: &str, b: &str) -> (s: String)
    ensures
        s@ == dotted(a@, b@),
{
    let mut s = String::from_str(a);
    proof {
        reveal_strlit(".");
    }
    s.append(".");
    s.append(b);
    s
}

/// A service type followed by its domain, e.g. `_adb-tls-connect._tcp.local`.
#[derive(Debug)]
pub struct ServiceTypeWithLocal(pub String);

impl View for ServiceTypeWithLocal {
    type V = Seq<char>;

    open spec fn view(&self) -> Seq<char> {
        self.0@
    }
}

impl KeyEq for ServiceTypeWithLocal {
    fn key_eq(&self, other: &Self) -> (b: bool) {
        self.0 == other.0
    }

    fn key_clone(&self) -> (c: Self) {
        ServiceTypeWithLocal(self.0.clone())
    }
}

impl ServiceTypeWithLocal {
    /// Wraps a string.
    pub fn from(s: String) -> (r: Self)
        ensures
            r@ == s@,
    {
        ServiceTypeWithLocal(s)
    }
}

/// The name of a service instance, e.g. `adb-XYZ._adb-tls-connect._tcp.local`.
#[derive(Debug)]
pub struct FQServiceName {
    pub instance_name: String,
    pub service_type: String,
    pub service_type_with_local: ServiceTypeWithLocal,
    pub local_domain: String,
}

/// The parts of a service instance name.
pub struct FQServiceNameView {
    pub instance_name: Seq<char>,
    pub service_type: Seq<char>,
    pub service_type_with_local: Seq<char>,
    pub local_domain: Seq<char>,
}

impl View for FQServiceName {
    type V = FQServiceNameView;

    open spec fn view(&self) -> FQServiceNameView {
        FQServiceNameView {
            instance_name: self.instance_name@,
            service_type: self.service_type@,
            service_type_with_local: self.service_type_with_local@,
            local_domain: self.local_domain@,
        }
    }
}

/// The full name of a service instance: `instance.service_type.domain`.
pub open spec fn fq_name_of(n: FQServiceNameView) -> Seq<char> {
    dotted(dotted(n.instance_name, n.service_type), n.local_domain)
}

/// The name of instance `instance_name` of `service_type` in `domain`.
pub open spec fn fq_service_name(
    instance_name: Seq<char>,
    service_type: Seq<char>,
    domain: Seq<char>,
) -> FQServiceNameView {
    FQServiceNameView {
        instance_name,
        service_type,
        service_type_with_local: dotted(service_type, domain),
        local_domain: domain,
    }
}

impl KeyEq for FQServiceName {
    fn key_eq(&self, other: &Self) -> (b: bool) {
        self.instance_name == other.instance_name && self.service_type == other.service_type
            && self.service_type_with_local.0 == other.service_type_with_local.0
            && self.local_domain == other.local_domain
    }

    fn key_clone(&self) -> (c: Self) {
        FQServiceName {
            instance_name: self.instance_name.clone(),
            service_type: self.service_type.clone(),
            service_type_with_local: self.service_type_with_local.key_clone(),
            local_domain: self.local_domain.clone(),
        }
    }
}

impl FQServiceName {
    /// The name of instance `instance_name` of `service_type` in `domain`.
    pub fn new(instance_name: String, service_type: String, domain: String) -> (n: FQServiceName)
        ensures
            n@ == fq_service_name(instance_name@, service_type@, domain@),
    {
        let with_local = join_dot(service_type.as_str(), domain.as_str());
        FQServiceName {
            instance_name,
            service_type_with_local: ServiceTypeWithLocal(with_local),
            service_type,
            local_domain: domain,
        }
    }

    /// The full name `instance.service_type.domain`.
    pub fn fq_name(&self) -> (s: String)
        ensures
            s@ == fq_name_of(self@),
    {
        let first = join_dot(self.instance_name.as_str(), self.service_type.as_str());
        join_dot(first.as_str(), self.local_domain.as_str())
    }

    /// The name made of the labels of a DNS name `instance.service.protocol.domain`,
    /// or `None` where the DNS name does not have four labels.
    pub fn try_from(labels: &Vec<String>) -> (r: Option<FQServiceName>)
        ensures
            r is Some <==> labels@.len() == 4,
            r matches Some(n) ==> n@ == fq_service_name(
                labels@[0]@,
                dotted(labels@[1]@, labels@[2]@),
                labels@[3]@,
            ),
    {
        if labels.len() != 4 {
            return None;
        }
        let instance_name = labels[0].clone();
        let service_type = join_dot(labels[1].as_str(), labels[2].as_str());
        let domain = labels[3].clone();
        Some(FQServiceName::new(instance_name, service_type, domain))
    }
}

/// The attributes of a TXT record: keys mapped to values.
pub type TxtAttributes = VecMap<String, String>;

/// The data of a resource record.
#[derive(Debug)]
pub enum RRPayload {
    A { name: String, addr: u32 },
    AAAA { name: String, addr: u128 },
    SRV { name: FQServiceName, target: String, port: u16 },
    TXT { name: FQServiceName, attributes: TxtAttributes },
    PTR { name: String, pointer: FQServiceName },
}

/// What tells two resource records apart: an address record by its name and
/// address, a SRV or TXT record by the instance it describes, and a PTR record
/// by the instance it points to.
pub enum PayloadIdentity {
    A(Seq<char>, u32),
    AAAA(Seq<char>, u128),
    SRV(FQServiceNameView),
    TXT(FQServiceNameView),
    PTR(FQServiceNameView),
}

/// The data of a payload, as plain values.
pub enum PayloadView {
    A { name: Seq<char>, addr: u32 },
    AAAA { name: Seq<char>, addr: u128 },
    SRV { name: FQServiceNameView, target: Seq<char>, port: u16 },
    TXT { name: FQServiceNameView, attributes: Map<Seq<char>, Seq<char>> },
    PTR { name: Seq<char>, pointer: FQServiceNameView },
}

impl View for RRPayload {
    type V = PayloadView;

    open spec fn view(&self) -> PayloadView {
        match self {
            RRPayload::A { name, addr } => PayloadView::A { name: name@, addr: *addr },
            RRPayload::AAAA { name, addr } => PayloadView::AAAA { name: name@, addr: *addr },
            RRPayload::SRV { name, target, port } => PayloadView::SRV {
                name: name@,
                target: target@,
                port: *port,
            },
            RRPayload::TXT { name, attributes } => PayloadView::TXT {
                name: name@,
                attributes: attributes@,
            },
            RRPayload::PTR { name, pointer } => PayloadView::PTR { name: name@, pointer: pointer@ },
        }
    }
}


/// The identity of a payload.
pub open spec fn view_identity(p: PayloadView) -> PayloadIdentity {
    match p {
        PayloadView::A { name, addr } => PayloadIdentity::A(name, addr),
        PayloadView::AAAA { name, addr } => PayloadIdentity::AAAA(name, addr),
        PayloadView::SRV { name, .. } => PayloadIdentity::SRV(name),
        PayloadView::TXT { name, .. } => PayloadIdentity::TXT(name),
        PayloadView::PTR { pointer, .. } => PayloadIdentity::PTR(pointer),
    }
}

/// The identity of a payload.
pub open spec fn payload_identity(p: RRPayload) -> PayloadIdentity {
    view_identity(p@)
}

/// A payload is well formed when its TXT attributes are.
pub open spec fn payload_wf(p: RRPayload) -> bool {
    match p {
        RRPayload::TXT { attributes, .. } => attributes.wf(),
        _ => true,
    }
}

impl RRPayload {
    /// Whether two payloads have the same identity.
    pub fn same_identity(&self, other: &RRPayload) -> (b: bool)
        ensures
            b == (payload_identity(*self) == payload_identity(*other)),
    {
        match (self, other) {
            (RRPayload::A { name, addr }, RRPayload::A { name: other_name, addr: other_addr }) => {
                *name == *other_name && *addr == *other_addr
            },
            (
                RRPayload::AAAA { name, addr },
                RRPayload::AAAA { name: other_name, addr: other_addr },
            ) => *name == *other_name && *addr == *other_addr,
            (RRPayload::SRV { name, .. }, RRPayload::SRV { name: other_name, .. }) => {
                name.key_eq(other_name)
            },
            (RRPayload::TXT { name, .. }, RRPayload::TXT { name: other_name, .. }) => {
                name.key_eq(other_name)
            },
            (RRPayload::PTR { pointer, .. }, RRPayload::PTR { pointer: other_pointer, .. }) => {
                pointer.key_eq(other_pointer)
            },
            _ => false,
        }
    }

    /// A copy of the payload.
    pub fn copy(&self) -> (c: RRPayload)
        requires
            payload_wf(*self),
        ensures
            c@ == self@,
            payload_wf(c),
            payload_identity(c) == payload_identity(*self),
    {
        match self {
            RRPayload::A { name, addr } => RRPayload::A { name: name.clone(), addr: *addr },
            RRPayload::AAAA { name, addr } => RRPayload::AAAA { name: name.clone(), addr: *addr },
            RRPayload::SRV { name, target, port } => RRPayload::SRV {
                name: name.key_clone(),
                target: target.clone(),
                port: *port,
            },
            RRPayload::TXT { name, attributes } => RRPayload::TXT {
                name: name.key_clone(),
                attributes: attributes.copy(),
            },
            RRPayload::PTR { name, pointer } => RRPayload::PTR {
                name: name.clone(),
                pointer: pointer.key_clone(),
            },
        }
    }
}

impl PartialEq for RRPayload {
    fn eq(&self, other: &Self) -> (r: bool) {
        self.same_identity(other)
    }
}

impl vstd::std_specs::cmp::PartialEqSpecImpl for RRPayload {
    open spec fn obeys_eq_spec() -> bool {
        true
    }

    open spec fn eq_spec(&self, other: &Self) -> bool {
        payload_identity(*self) == payload_identity(*other)
    }
}

/// Where a resource record stands in its lifecycle (RFC 6762, 5.2): the querier
/// plans to query at 80% of the record lifetime, and then, if no answer is
/// received, at 85%, 90% and 95%.
#[derive(Debug, PartialEq, Eq, Clone, Copy)]
pub enum RRLifecycle {
    Created,
    Probed80,
    Probed85,
    Probed90,
    Probed95,
}

/// The fraction of its lifetime, in thousandths, at which a record in state `s`
/// next needs attention.
pub open spec fn next_permille(s: RRLifecycle) -> nat {
    match s {
        RRLifecycle::Created => 800,
        RRLifecycle::Probed80 => 850,
        RRLifecycle::Probed85 => 900,
        RRLifecycle::Probed90 => 950,
        RRLifecycle::Probed95 => 1000,
    }
}

impl RRLifecycle {
    /// The fraction of its lifetime, in thousandths, at which a record in this
    /// state next needs attention.
    pub fn next_ttl_fraction(&self) -> (f: u64)
        ensures
            f == next_permille(*self),
    {
        match *self {
            RRLifecycle::Created => 800,
            RRLifecycle::Probed80 => 850,
            RRLifecycle::Probed85 => 900,
            RRLifecycle::Probed90 => 950,
            RRLifecycle::Probed95 => 1000,
        }
    }
}

/// Nanoseconds in a millisecond.
pub const NANOS_PER_MILLI: u64 = 1_000_000;

/// The latest instant, in nanoseconds, that the state machine handles.
pub const MAX_INSTANT: u64 = 0x7fff_ffff_ffff_ffff;

/// The instant, in nanoseconds, at which a record created at `created_on` with a
/// lifetime of `ttl` seconds reaches `permille` thousandths of its lifetime.
pub open spec fn instant_at(created_on: int, ttl: int, permille: int) -> int {
    created_on + ttl * permille * NANOS_PER_MILLI
}

/// A received resource record and the instants of its lifecycle. Instants are
/// nanoseconds on a monotonic clock; the lifetime is in seconds.
#[derive(Debug)]
pub struct RR {
    pub attention_needed_on: u64,
    pub created_on: u64,
    pub ttl: u32,
    pub next_lifecycle_state: RRLifecycle,
    pub payload: RRPayload,
}


/// A resource record, as plain values.
pub struct RRView {
    pub attention_needed_on: u64,
    pub created_on: u64,
    pub ttl: u32,
    pub next_lifecycle_state: RRLifecycle,
    pub payload: PayloadView,
}

impl View for RR {
    type V = RRView;

    open spec fn view(&self) -> RRView {
        RRView {
            attention_needed_on: self.attention_needed_on,
            created_on: self.created_on,
            ttl: self.ttl,
            next_lifecycle_state: self.next_lifecycle_state,
            payload: self.payload@,
        }
    }
}

impl CompareAttention for RR {
    type Identity = PayloadIdentity;

    open spec fn attention(&self) -> int {
        self.attention_needed_on as int
    }

    open spec fn identity(&self) -> PayloadIdentity {
        payload_identity(self.payload)
    }

    fn cmp_attention(&self, other: &Self) -> (o: Ordering) {
        if self.attention_needed_on < other.attention_needed_on {
            Ordering::Less
        } else if self.attention_needed_on == other.attention_needed_on {
            Ordering::Equal
        } else {
            Ordering::Greater
        }
    }

    fn same_identity(&self, other: &Self) -> (b: bool) {
        self.payload.same_identity(&other.payload)
    }
}

impl RR {
    /// A record received at `now` with a lifetime of `ttl` seconds: it first
    /// needs attention at 80% of its lifetime.
    pub fn new(now: u64, ttl: u32, payload: RRPayload) -> (rr: RR)
        requires
            now <= MAX_INSTANT,
        ensures
            rr.created_on == now,
            rr.ttl == ttl,
            rr.next_lifecycle_state == RRLifecycle::Created,
            rr.attention_needed_on == instant_at(now as int, ttl as int, 800),
            rr.payload == payload,
    {
        let state = RRLifecycle::Created;
        let permille = state.next_ttl_fraction();
        let duration_next_attention = (ttl as u64) * permille * NANOS_PER_MILLI;
        RR {
            created_on: now,
            ttl,
            next_lifecycle_state: state,
            attention_needed_on: now + duration_next_attention,
            payload,
        }
    }
}

impl PartialEq for RR {
    fn eq(&self, other: &Self) -> (r: bool) {
        self.payload.same_identity(&other.payload)
    }
}

impl vstd::std_specs::cmp::PartialEqSpecImpl for RR {
    open spec fn obeys_eq_spec() -> bool {
        true
    }

    open spec fn eq_spec(&self, other: &Self) -> bool {
        payload_identity(self.payload) == payload_identity(other.payload)
    }
}


/// What tells two records apart: an A or AAAA record by its name and its
/// address (so each address keeps its own lifetime), a SRV or TXT record by the
/// instance it describes, a PTR record by the instance it points to; records of
/// different kinds are always told apart.
pub proof fn lemma_identity_tells_apart(p: PayloadView, q: PayloadView)
    ensures
        match (p, q) {
            (PayloadView::A { name: n1, addr: a1 }, PayloadView::A { name: n2, addr: a2 }) => (
            view_identity(p) == view_identity(q)) == (n1 == n2 && a1 == a2),
            (PayloadView::AAAA { name: n1, addr: a1 }, PayloadView::AAAA { name: n2, addr: a2 }) => (
            view_identity(p) == view_identity(q)) == (n1 == n2 && a1 == a2),
            (PayloadView::SRV { name: n1, .. }, PayloadView::SRV { name: n2, .. }) => (view_identity(p)
                == view_identity(q)) == (n1 == n2),
            (PayloadView::TXT { name: n1, .. }, PayloadView::TXT { name: n2, .. }) => (view_identity(p)
                == view_identity(q)) == (n1 == n2),
            (PayloadView::PTR { pointer: t1, .. }, PayloadView::PTR { pointer: t2, .. }) => (
            view_identity(p) == view_identity(q)) == (t1 == t2),
            _ => view_identity(p) != view_identity(q),
        },
{
}

} // verus!
