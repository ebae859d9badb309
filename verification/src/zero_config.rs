//! The core of the mDNS client: a state machine that receives resource records
//! and the time, tracks the lifecycle of every record (probing it when it is
//! about to expire, forgetting it when it expires), and turns the changes of
//! the set of reachable services into commands for its driver.
use crate::index_min_pq::{
    distinct_identities, identity_map, is_min_attention, lemma_identity_map_entry,
    lemma_identity_map_finite, lemma_identity_map_pushed, lemma_identity_map_removed, pushed,
    CompareAttention, IndexMinPQ,
};
use crate::rr::{
    dot, dotted, fq_name_of, fq_service_name, instant_at, next_permille, payload_wf,
    view_identity, FQServiceName, FQServiceNameView, PayloadIdentity, PayloadView, RRLifecycle,
    RRPayload, RRView, ServiceTypeWithLocal, TxtAttributes, MAX_INSTANT, NANOS_PER_MILLI, RR,
};
use crate::store::{
    snapshot_of, store_add, store_holds, store_remove, InstanceDetails, InstanceDetailsView,
    Services, Store, StoreView,
};
use crate::vec_map::{KeyEq, VecMap, VecSet};
use simple_dns::rdata::RData::{A, AAAA, PTR, SRV, TXT};
use simple_dns::{Name, Packet, ResourceRecord as DnsRecord};
use vstd::prelude::*;
use vstd::multiset::Multiset;

verus! {

/// The data of a received resource record, as plain values. Names are lists of
/// labels, each label in its text form.
#[derive(Debug)]
pub enum RecordData {
    A { address: u32 },
    AAAA { address: u128 },
    PTR { pointer: Vec<String> },
    SRV { port: u16, target: Vec<String> },
    TXT { attributes: Vec<(String, Option<String>)> },
    Other,
}

/// A received resource record: the labels of its name, its lifetime in seconds,
/// and its data.
#[derive(Debug)]
pub struct ResourceRecord {
    pub name: Vec<String>,
    pub ttl: u32,
    pub rdata: RecordData,
}

/// The type of a DNS question.
#[derive(Debug, PartialEq, Eq, Clone, Copy)]
pub enum QueryType {
    A,
    AAAA,
    SRV,
    TXT,
    PTR,
    ANY,
}

/// The class of a DNS question.
#[derive(Debug, PartialEq, Eq, Clone, Copy)]
pub enum QueryClass {
    ANY,
}

/// What the state machine asks its driver to do.
#[derive(Debug)]
pub enum ZeroConfigCommand {
    DnsQuery { query: String, qtype: QueryType, qclass: QueryClass },
    CreateService {
        instance_name: String,
        service_type: String,
        ipv4s: VecSet<u32>,
        ipv6s: VecSet<u128>,
        port: u16,
        txt: TxtAttributes,
    },
    UpdateService {
        instance_name: String,
        service_type: String,
        ipv4s: VecSet<u32>,
        ipv6s: VecSet<u128>,
        port: u16,
        txt: TxtAttributes,
    },
    DeleteService { instance_name: String, service_type: String },
    Restart {},
}

/// A command, as plain values.
pub enum CommandView {
    DnsQuery { query: Seq<char>, qtype: QueryType, qclass: QueryClass },
    CreateService {
        instance_name: Seq<char>,
        service_type: Seq<char>,
        ipv4s: Set<u32>,
        ipv6s: Set<u128>,
        port: u16,
        txt: Map<Seq<char>, Seq<char>>,
    },
    UpdateService {
        instance_name: Seq<char>,
        service_type: Seq<char>,
        ipv4s: Set<u32>,
        ipv6s: Set<u128>,
        port: u16,
        txt: Map<Seq<char>, Seq<char>>,
    },
    DeleteService { instance_name: Seq<char>, service_type: Seq<char> },
    Restart,
}

impl View for ZeroConfigCommand {
    type V = CommandView;

    open spec fn view(&self) -> CommandView {
        match self {
            ZeroConfigCommand::DnsQuery { query, qtype, qclass } => CommandView::DnsQuery {
                query: query@,
                qtype: *qtype,
                qclass: *qclass,
            },
            ZeroConfigCommand::CreateService {
                instance_name,
                service_type,
                ipv4s,
                ipv6s,
                port,
                txt,
            } => CommandView::CreateService {
                instance_name: instance_name@,
                service_type: service_type@,
                ipv4s: ipv4s@,
                ipv6s: ipv6s@,
                port: *port,
                txt: txt@,
            },
            ZeroConfigCommand::UpdateService {
                instance_name,
                service_type,
                ipv4s,
                ipv6s,
                port,
                txt,
            } => CommandView::UpdateService {
                instance_name: instance_name@,
                service_type: service_type@,
                ipv4s: ipv4s@,
                ipv6s: ipv6s@,
                port: *port,
                txt: txt@,
            },
            ZeroConfigCommand::DeleteService { instance_name, service_type } =>
                CommandView::DeleteService {
                instance_name: instance_name@,
                service_type: service_type@,
            },
            ZeroConfigCommand::Restart {  } => CommandView::Restart,
        }
    }
}

/// The views of a list of commands.
pub open spec fn commands_view(s: Seq<ZeroConfigCommand>) -> Seq<CommandView> {
    s.map_values(|c: ZeroConfigCommand| c@)
}

/// The data of a received resource record, as plain values.
pub enum RecordDataView {
    A { address: u32 },
    AAAA { address: u128 },
    PTR { pointer: Seq<Seq<char>> },
    SRV { port: u16, target: Seq<Seq<char>> },
    TXT { attributes: Map<Seq<char>, Option<Seq<char>>> },
    Other,
}

/// A received resource record, as plain values: the labels of its name, its
/// lifetime in seconds, and its data.
pub struct RecordView {
    pub name: Seq<Seq<char>>,
    pub ttl: u32,
    pub rdata: RecordDataView,
}

/// The texts of labels.
pub open spec fn label_views(l: Seq<String>) -> Seq<Seq<char>> {
    l.map_values(|s: String| s@)
}

/// The attributes of a TXT record, by key: where a key comes twice, the later
/// one wins.
pub open spec fn attributes_view(a: Seq<(String, Option<String>)>) -> Map<Seq<char>, Option<Seq<char>>>
    decreases a.len(),
{
    if a.len() == 0 {
        Map::empty()
    } else {
        attributes_view(a.drop_last()).insert(
            a.last().0@,
            match a.last().1 {
                Some(v) => Some(v@),
                None => None,
            },
        )
    }
}

impl View for RecordData {
    type V = RecordDataView;

    open spec fn view(&self) -> RecordDataView {
        match self {
            RecordData::A { address } => RecordDataView::A { address: *address },
            RecordData::AAAA { address } => RecordDataView::AAAA { address: *address },
            RecordData::PTR { pointer } => RecordDataView::PTR { pointer: label_views(pointer@) },
            RecordData::SRV { port, target } => RecordDataView::SRV {
                port: *port,
                target: label_views(target@),
            },
            RecordData::TXT { attributes } => RecordDataView::TXT {
                attributes: attributes_view(attributes@),
            },
            RecordData::Other => RecordDataView::Other,
        }
    }
}

impl View for ResourceRecord {
    type V = RecordView;

    open spec fn view(&self) -> RecordView {
        RecordView { name: label_views(self.name@), ttl: self.ttl, rdata: self.rdata@ }
    }
}

/// The views of a list of records.
pub open spec fn records_view(s: Seq<ResourceRecord>) -> Seq<RecordView> {
    s.map_values(|r: ResourceRecord| r@)
}

/// The text of a DNS name: its labels joined by dots.
pub open spec fn labels_text(l: Seq<Seq<char>>) -> Seq<char>
    decreases l.len(),
{
    if l.len() == 0 {
        Seq::empty()
    } else if l.len() == 1 {
        l[0]
    } else {
        dotted(labels_text(l.drop_last()), l.last())
    }
}

/// The service instance named by the four labels `instance.service.protocol.domain`.
pub open spec fn fq_of_labels(l: Seq<Seq<char>>) -> FQServiceNameView {
    fq_service_name(l[0], dotted(l[1], l[2]), l[3])
}

/// The attributes of a TXT record as kept: a key without a value maps to the
/// empty text.
pub open spec fn txt_text(m: Map<Seq<char>, Option<Seq<char>>>) -> Map<Seq<char>, Seq<char>> {
    m.map_values(
        |o: Option<Seq<char>>|
            match o {
                Some(v) => v,
                None => Seq::empty(),
            },
    )
}

/// The name `l` names an instance of a watched service type.
pub open spec fn names_tracked(watched: Set<Seq<char>>, l: Seq<Seq<char>>) -> bool {
    l.len() == 4 && watched.contains(fq_of_labels(l).service_type_with_local)
}

/// The payload that a received record gives, if it is kept: address records
/// always are; PTR, SRV and TXT records only when they name an instance of a
/// watched service type.
pub open spec fn record_payload(watched: Set<Seq<char>>, r: RecordView) -> Option<PayloadView> {
    match r.rdata {
        RecordDataView::PTR { pointer } => if names_tracked(watched, pointer) {
            Some(PayloadView::PTR { name: labels_text(r.name), pointer: fq_of_labels(pointer) })
        } else {
            None
        },
        RecordDataView::SRV { port, target } => if names_tracked(watched, r.name) {
            Some(PayloadView::SRV { name: fq_of_labels(r.name), target: labels_text(target), port })
        } else {
            None
        },
        RecordDataView::A { address } => Some(
            PayloadView::A { name: labels_text(r.name), addr: address },
        ),
        RecordDataView::AAAA { address } => Some(
            PayloadView::AAAA { name: labels_text(r.name), addr: address },
        ),
        RecordDataView::TXT { attributes } => if names_tracked(watched, r.name) {
            Some(PayloadView::TXT { name: fq_of_labels(r.name), attributes: txt_text(attributes) })
        } else {
            None
        },
        RecordDataView::Other => None,
    }
}

/// A record received at `now` with a lifetime of `ttl` seconds.
pub open spec fn new_rr_view(now: u64, ttl: u32, p: PayloadView) -> RRView {
    RRView {
        attention_needed_on: instant_at(now as int, ttl as int, 800) as u64,
        created_on: now,
        ttl,
        next_lifecycle_state: RRLifecycle::Created,
        payload: p,
    }
}

/// The records of an attention list, by identity.
pub open spec fn attention_model(c: Multiset<RR>) -> Map<PayloadIdentity, RRView> {
    identity_map(c).map_values(|r: RR| r@)
}


/// The record next needs attention at the fraction of its lifetime that its
/// lifecycle state sets.
pub open spec fn on_schedule(r: RRView) -> bool {
    r.attention_needed_on == lifetime_instant(r, next_permille(r.next_lifecycle_state) as int)
}

/// The record needs attention at `now`.
pub open spec fn is_due(r: RRView, now: u64) -> bool {
    r.attention_needed_on <= now
}

/// The instant, in nanoseconds, at which record `r` reaches `permille`
/// thousandths of its lifetime.
pub open spec fn lifetime_instant(r: RRView, permille: int) -> int {
    instant_at(r.created_on as int, r.ttl as int, permille)
}

/// Where a record that needs attention at `now` moves in its lifecycle: `None`
/// if it is dropped, because its lifetime is over (or empty), or because it is
/// not yet at 80% of its lifetime, which should never happen.
pub open spec fn probe_state(r: RRView, now: u64) -> Option<RRLifecycle> {
    if r.ttl == 0 || now >= lifetime_instant(r, 1000) {
        None
    } else if now >= lifetime_instant(r, 950) {
        Some(RRLifecycle::Probed95)
    } else if now >= lifetime_instant(r, 900) {
        Some(RRLifecycle::Probed90)
    } else if now >= lifetime_instant(r, 850) {
        Some(RRLifecycle::Probed85)
    } else if now >= lifetime_instant(r, 800) {
        Some(RRLifecycle::Probed80)
    } else {
        None
    }
}

/// Record `r` after being probed, in state `s`: it next needs attention at the
/// fraction of its lifetime for `s`.
pub open spec fn probed(r: RRView, s: RRLifecycle) -> RRView {
    RRView {
        attention_needed_on: lifetime_instant(r, next_permille(s) as int) as u64,
        next_lifecycle_state: s,
        ..r
    }
}

/// The query that probes a record with payload `p`.
pub open spec fn query_command(p: PayloadView) -> CommandView {
    match p {
        PayloadView::A { name, .. } => CommandView::DnsQuery {
            query: name,
            qtype: QueryType::A,
            qclass: QueryClass::ANY,
        },
        PayloadView::AAAA { name, .. } => CommandView::DnsQuery {
            query: name,
            qtype: QueryType::AAAA,
            qclass: QueryClass::ANY,
        },
        PayloadView::SRV { name, .. } => CommandView::DnsQuery {
            query: fq_name_of(name),
            qtype: QueryType::SRV,
            qclass: QueryClass::ANY,
        },
        PayloadView::TXT { name, .. } => CommandView::DnsQuery {
            query: fq_name_of(name),
            qtype: QueryType::TXT,
            qclass: QueryClass::ANY,
        },
        PayloadView::PTR { name, .. } => CommandView::DnsQuery {
            query: name,
            qtype: QueryType::PTR,
            qclass: QueryClass::ANY,
        },
    }
}

/// The probe of a record asks again for that very record: for an A record an
/// A query for its name, for an AAAA record an AAAA query for its name, for a
/// PTR record a PTR query for its name, for a SRV or TXT record a query of the
/// same type for the full name of the instance it describes; always of class
/// ANY. So each kind of record is refreshed by its own query.
pub proof fn lemma_probe_asks_for_the_record(p: PayloadView)
    ensures
        query_command(p) matches CommandView::DnsQuery { query, qtype, qclass } && qclass
            == QueryClass::ANY && match p {
            PayloadView::A { name, .. } => qtype == QueryType::A && query == name,
            PayloadView::AAAA { name, .. } => qtype == QueryType::AAAA && query == name,
            PayloadView::SRV { name, .. } => qtype == QueryType::SRV && query == dotted(
                dotted(name.instance_name, name.service_type),
                name.local_domain,
            ),
            PayloadView::TXT { name, .. } => qtype == QueryType::TXT && query == dotted(
                dotted(name.instance_name, name.service_type),
                name.local_domain,
            ),
            PayloadView::PTR { name, .. } => qtype == QueryType::PTR && query == name,
        },
{
}

/// Receiving a record refreshes only the record with the same identity: every
/// other record of the attention list keeps its lifecycle, so (by
/// `lemma_identity_tells_apart`) an address that is not received again keeps
/// its own lifetime and expires with it.
pub proof fn lemma_receive_refreshes_only_its_own(z: ZeroConfigView, r: RecordView, id: PayloadIdentity)
    requires
        z.attention.contains_key(id),
        record_payload(z.watched, r) matches Some(p) ==> view_identity(p) != id,
    ensures
        add_record(z, r).attention.contains_key(id),
        add_record(z, r).attention[id] == z.attention[id],
{
}


/// The attention list after every record due at `now` got attention: dropped
/// records leave, probed ones move on in their lifecycle.
pub open spec fn tick_attention(a: Map<PayloadIdentity, RRView>, now: u64) -> Map<
    PayloadIdentity,
    RRView,
> {
    Map::new(
        |id: PayloadIdentity|
            a.contains_key(id) && (is_due(a[id], now) ==> probe_state(a[id], now) is Some),
        |id: PayloadIdentity|
            if is_due(a[id], now) {
                probed(a[id], probe_state(a[id], now).unwrap())
            } else {
                a[id]
            },
    )
}

/// The store after the records `order` of `a` got attention at `now`, in that
/// order: the payload of each dropped record is removed.
pub open spec fn tick_store(
    s: StoreView,
    a: Map<PayloadIdentity, RRView>,
    now: u64,
    order: Seq<PayloadIdentity>,
) -> StoreView
    decreases order.len(),
{
    if order.len() == 0 {
        s
    } else {
        let prev = tick_store(s, a, now, order.drop_last());
        let r = a[order.last()];
        if probe_state(r, now) is None {
            store_remove(prev, r.payload)
        } else {
            prev
        }
    }
}

/// The queries issued when the records `order` of `a` got attention at `now`,
/// in that order: one for each record probed.
pub open spec fn tick_queries(a: Map<PayloadIdentity, RRView>, now: u64, order: Seq<PayloadIdentity>) -> Seq<
    CommandView,
>
    decreases order.len(),
{
    if order.len() == 0 {
        Seq::empty()
    } else {
        let prev = tick_queries(a, now, order.drop_last());
        let r = a[order.last()];
        if probe_state(r, now) is Some {
            prev.push(query_command(r.payload))
        } else {
            prev
        }
    }
}

/// `order` lists each record of `a` due at `now` once, earliest first.
pub open spec fn is_attention_order(
    a: Map<PayloadIdentity, RRView>,
    now: u64,
    order: Seq<PayloadIdentity>,
) -> bool {
    &&& order.no_duplicates()
    &&& forall|id: PayloadIdentity|
        #[trigger] order.contains(id) <==> (a.contains_key(id) && is_due(a[id], now))
    &&& forall|i: int, j: int|
        #![trigger order[i], order[j]]
        0 <= i < j < order.len() ==> a[order[i]].attention_needed_on
            <= a[order[j]].attention_needed_on
}

/// The command that reports service `e` as created (or, if `create` is false, updated).
pub open spec fn service_command(
    fq: FQServiceNameView,
    d: InstanceDetailsView,
    create: bool,
) -> CommandView {
    if create {
        CommandView::CreateService {
            instance_name: fq.instance_name,
            service_type: fq.service_type,
            ipv4s: d.ipv4s,
            ipv6s: d.ipv6s,
            port: d.port,
            txt: d.txt,
        }
    } else {
        CommandView::UpdateService {
            instance_name: fq.instance_name,
            service_type: fq.service_type,
            ipv4s: d.ipv4s,
            ipv6s: d.ipv6s,
            port: d.port,
            txt: d.txt,
        }
    }
}

/// The commands for the services of `current` that are new or changed with
/// respect to `last`, in the order of `current`.
pub open spec fn changes(
    current: Seq<(FQServiceName, InstanceDetails)>,
    last: Map<FQServiceNameView, InstanceDetailsView>,
) -> Seq<CommandView>
    decreases current.len(),
{
    if current.len() == 0 {
        Seq::empty()
    } else {
        let prev = changes(current.drop_last(), last);
        let e = current.last();
        if !last.contains_key(e.0@) {
            prev.push(service_command(e.0@, e.1@, true))
        } else if last[e.0@] != e.1@ {
            prev.push(service_command(e.0@, e.1@, false))
        } else {
            prev
        }
    }
}

/// The commands for the services of `last` that `current` no longer lists, in
/// the order of `last`.
pub open spec fn deletions(
    last: Seq<(FQServiceName, InstanceDetails)>,
    current: Map<FQServiceNameView, InstanceDetailsView>,
) -> Seq<CommandView>
    decreases last.len(),
{
    if last.len() == 0 {
        Seq::empty()
    } else {
        let prev = deletions(last.drop_last(), current);
        let e = last.last();
        if !current.contains_key(e.0@) {
            prev.push(
                CommandView::DeleteService {
                    instance_name: e.0@.instance_name,
                    service_type: e.0@.service_type,
                },
            )
        } else {
            prev
        }
    }
}

/// Sixty seconds, in nanoseconds: how long to wait when no record needs attention.
pub const IDLE_WAIT: u64 = 60_000_000_000;

/// `t` is the earliest instant at which a record of `a` needs attention.
pub open spec fn is_earliest(a: Map<PayloadIdentity, RRView>, t: u64) -> bool {
    &&& exists|id: PayloadIdentity| #[trigger] a.contains_key(id) && a[id].attention_needed_on == t
    &&& forall|id: PayloadIdentity| #[trigger] a.contains_key(id) ==> t <= a[id].attention_needed_on
}

/// The earliest instant at which a record of `a` needs attention.
pub open spec fn earliest_attention(a: Map<PayloadIdentity, RRView>) -> u64 {
    choose|t: u64| #[trigger] is_earliest(a, t)
}

/// How long to wait, from `now`, until a record of `a` needs attention.
pub open spec fn next_attention_duration(a: Map<PayloadIdentity, RRView>, now: u64) -> u64 {
    if a.dom().len() == 0 {
        IDLE_WAIT
    } else if earliest_attention(a) >= now {
        (earliest_attention(a) - now) as u64
    } else {
        0
    }
}

/// The number of records of `c` due at `now`.
pub open spec fn due_count(c: Multiset<RR>, now: u64) -> nat {
    c.filter(|x: RR| x.attention_needed_on <= now).len()
}


/// The attention list after the records `order` of `a` got attention at `now`.
pub open spec fn partly_ticked(
    a: Map<PayloadIdentity, RRView>,
    now: u64,
    order: Seq<PayloadIdentity>,
) -> Map<PayloadIdentity, RRView> {
    Map::new(
        |id: PayloadIdentity|
            a.contains_key(id) && (order.contains(id) ==> probe_state(a[id], now) is Some),
        |id: PayloadIdentity|
            if order.contains(id) {
                probed(a[id], probe_state(a[id], now).unwrap())
            } else {
                a[id]
            },
    )
}

/// A probed record next needs attention after `now`.
proof fn lemma_probed_later(r: RRView, now: u64)
    requires
        probe_state(r, now) is Some,
        r.created_on <= MAX_INSTANT,
    ensures
        probed(r, probe_state(r, now).unwrap()).attention_needed_on > now,
        lifetime_instant(r, 1000) <= u64::MAX,
{
}

/// Taking a due record out of the attention list leaves fewer due records.
proof fn lemma_due_count_remove(c: Multiset<RR>, x: RR, now: u64)
    requires
        c.contains(x),
        x.attention_needed_on <= now,
    ensures
        due_count(c.remove(x), now) < due_count(c, now),
{
    let f = |r: RR| r.attention_needed_on <= now;
    assert(c.remove(x).filter(f) =~= c.filter(f).remove(x));
    assert(c.filter(f).count(x) > 0);
    assert(c.filter(f).remove(x).len() == c.filter(f).len() - 1) by {
        assert(c.filter(f).remove(x).insert(x) =~= c.filter(f));
    }
}

/// Taking a due record out of the attention list, and putting back one that is
/// not due, leaves fewer due records.
proof fn lemma_due_count_step(c: Multiset<RR>, x: RR, y: RR, now: u64)
    requires
        c.contains(x),
        x.attention_needed_on <= now,
        y.attention_needed_on > now,
    ensures
        due_count(c.remove(x), now) < due_count(c, now),
        due_count(c.remove(x).insert(y), now) < due_count(c, now),
{
    let f = |r: RR| r.attention_needed_on <= now;
    assert(c.remove(x).filter(f) =~= c.filter(f).remove(x));
    assert(c.remove(x).insert(y).filter(f) =~= c.filter(f).remove(x));
    assert(c.filter(f).count(x) > 0);
    assert(c.filter(f).remove(x).len() == c.filter(f).len() - 1) by {
        assert(c.filter(f).remove(x).insert(x) =~= c.filter(f));
    }
}

/// Every record of `a` was received at an instant the state machine handles.
pub open spec fn records_in_range(a: Map<PayloadIdentity, RRView>) -> bool {
    forall|id: PayloadIdentity| #[trigger] a.contains_key(id) ==> a[id].created_on <= MAX_INSTANT
}

/// After a tick at `now`, no record of the attention list needs attention
/// before a later instant, and a second tick at the same instant leaves the
/// attention list as it is.
pub proof fn lemma_tick_settles(a: Map<PayloadIdentity, RRView>, now: u64)
    requires
        records_in_range(a),
    ensures
        forall|id: PayloadIdentity| #[trigger]
            tick_attention(a, now).contains_key(id) ==> !is_due(tick_attention(a, now)[id], now),
        records_in_range(tick_attention(a, now)),
        tick_attention(tick_attention(a, now), now) == tick_attention(a, now),
{
    let t = tick_attention(a, now);
    assert forall|id: PayloadIdentity| #[trigger] t.contains_key(id) implies !is_due(t[id], now)
        && t[id].created_on <= MAX_INSTANT by {
        if is_due(a[id], now) {
            lemma_probed_later(a[id], now);
        }
    }
    assert(tick_attention(t, now) =~= t);
}

/// Every record of `a` next needs attention at the fraction of its lifetime
/// that its lifecycle state sets.
pub open spec fn records_on_schedule(a: Map<PayloadIdentity, RRView>) -> bool {
    forall|id: PayloadIdentity| #[trigger] a.contains_key(id) ==> on_schedule(a[id])
}

/// No record outlives its time to live: once the lifetime of a record is
/// over, the next tick drops it from the attention list.
pub proof fn lemma_expired_dropped(a: Map<PayloadIdentity, RRView>, now: u64, id: PayloadIdentity)
    requires
        records_on_schedule(a),
        a.contains_key(id),
        now >= lifetime_instant(a[id], 1000),
    ensures
        is_due(a[id], now),
        !tick_attention(a, now).contains_key(id),
{
    let r = a[id];
    assert(on_schedule(r));
    let p = next_permille(r.next_lifecycle_state) as int;
    assert(p <= 1000);
    assert(r.ttl * p * NANOS_PER_MILLI <= r.ttl * 1000 * NANOS_PER_MILLI) by (nonlinear_arith)
        requires
            0 <= p <= 1000,
            r.ttl >= 0,
    ;
}

/// When no record needs attention at `now`, a tick gives attention to none:
/// it issues no query and leaves the attention list and the store as they are.
pub proof fn lemma_nothing_due_quiet(
    a: Map<PayloadIdentity, RRView>,
    s: StoreView,
    now: u64,
    order: Seq<PayloadIdentity>,
)
    requires
        forall|id: PayloadIdentity| #[trigger] a.contains_key(id) ==> !is_due(a[id], now),
        is_attention_order(a, now, order),
    ensures
        order.len() == 0,
        tick_queries(a, now, order) == Seq::<CommandView>::empty(),
        tick_store(s, a, now, order) == s,
        tick_attention(a, now) == a,
{
    if order.len() > 0 {
        assert(order.contains(order[0]));
    }
    assert(tick_queries(a, now, order) =~= Seq::<CommandView>::empty());
    assert(tick_attention(a, now) =~= a);
}

/// What comparing the services `current` with `last` reports: a creation for
/// each service of `current` that `last` does not hold, an update for each one
/// whose details changed, and nothing else.
pub proof fn lemma_changes_listed(
    current: Seq<(FQServiceName, InstanceDetails)>,
    last: Map<FQServiceNameView, InstanceDetailsView>,
)
    ensures
        changes(current, last).len() <= current.len(),
        forall|i: int|
            0 <= i < current.len() && !last.contains_key(#[trigger] current[i].0@) ==> changes(
                current,
                last,
            ).contains(service_command(current[i].0@, current[i].1@, true)),
        forall|i: int|
            0 <= i < current.len() && last.contains_key(#[trigger] current[i].0@) && last[current[i].0@]
                != current[i].1@ ==> changes(current, last).contains(
                service_command(current[i].0@, current[i].1@, false),
            ),
        forall|c: CommandView| #[trigger]
            changes(current, last).contains(c) ==> exists|i: int|
                0 <= i < current.len() && ((!last.contains_key(current[i].0@) && c
                    == service_command(current[i].0@, current[i].1@, true)) || (last.contains_key(
                    current[i].0@,
                ) && last[current[i].0@] != current[i].1@ && c == service_command(
                    current[i].0@,
                    current[i].1@,
                    false,
                ))),
    decreases current.len(),
{
    if current.len() > 0 {
        let prefix = current.drop_last();
        let n = current.len() - 1;
        lemma_changes_listed(prefix, last);
        let prev = changes(prefix, last);
        let c = changes(current, last);
        assert forall|k: int| 0 <= k < prev.len() implies c.contains(#[trigger] prev[k]) by {
            assert(c[k] == prev[k]);
        }
        assert forall|i: int|
            0 <= i < current.len() && !last.contains_key(#[trigger] current[i].0@) implies c.contains(
            service_command(current[i].0@, current[i].1@, true),
        ) by {
            if i < n {
                assert(prefix[i] == current[i]);
                let x = service_command(current[i].0@, current[i].1@, true);
                assert(prev.contains(x));
                let k = choose|k: int| 0 <= k < prev.len() && prev[k] == x;
                assert(c[k] == x);
            } else {
                assert(c.last() == service_command(current[i].0@, current[i].1@, true));
            }
        }
        assert forall|i: int|
            0 <= i < current.len() && last.contains_key(#[trigger] current[i].0@) && last[current[i].0@]
                != current[i].1@ implies c.contains(
            service_command(current[i].0@, current[i].1@, false),
        ) by {
            if i < n {
                assert(prefix[i] == current[i]);
                let x = service_command(current[i].0@, current[i].1@, false);
                assert(prev.contains(x));
                let k = choose|k: int| 0 <= k < prev.len() && prev[k] == x;
                assert(c[k] == x);
            } else {
                assert(c.last() == service_command(current[i].0@, current[i].1@, false));
            }
        }
        assert forall|x: CommandView| #[trigger] c.contains(x) implies exists|i: int|
            0 <= i < current.len() && ((!last.contains_key(current[i].0@) && x == service_command(
                current[i].0@,
                current[i].1@,
                true,
            )) || (last.contains_key(current[i].0@) && last[current[i].0@] != current[i].1@ && x
                == service_command(current[i].0@, current[i].1@, false))) by {
            let k = choose|k: int| 0 <= k < c.len() && c[k] == x;
            if k < prev.len() {
                assert(prev[k] == x);
                assert(prev.contains(x));
                let i = choose|i: int|
                    0 <= i < prefix.len() && ((!last.contains_key(prefix[i].0@) && x
                        == service_command(prefix[i].0@, prefix[i].1@, true)) || (last.contains_key(
                        prefix[i].0@,
                    ) && last[prefix[i].0@] != prefix[i].1@ && x == service_command(
                        prefix[i].0@,
                        prefix[i].1@,
                        false,
                    )));
                assert(prefix[i] == current[i]);
            } else {
                assert(current[n] == current.last());
            }
        }
    }
}

/// The command that reports service `fq` as deleted.
pub open spec fn deletion_command(fq: FQServiceNameView) -> CommandView {
    CommandView::DeleteService { instance_name: fq.instance_name, service_type: fq.service_type }
}

/// What comparing the services `last` with `current` reports: a deletion for
/// each service of `last` that `current` no longer holds, and nothing else.
pub proof fn lemma_deletions_listed(
    last: Seq<(FQServiceName, InstanceDetails)>,
    current: Map<FQServiceNameView, InstanceDetailsView>,
)
    ensures
        deletions(last, current).len() <= last.len(),
        forall|i: int|
            0 <= i < last.len() && !current.contains_key(#[trigger] last[i].0@) ==> deletions(
                last,
                current,
            ).contains(
                deletion_command(last[i].0@),
            ),
        forall|c: CommandView| #[trigger]
            deletions(last, current).contains(c) ==> exists|i: int|
                0 <= i < last.len() && !current.contains_key(last[i].0@) && c
                    == deletion_command(last[i].0@),
    decreases last.len(),
{
    if last.len() > 0 {
        let prefix = last.drop_last();
        let n = last.len() - 1;
        lemma_deletions_listed(prefix, current);
        let prev = deletions(prefix, current);
        let d = deletions(last, current);
        assert forall|k: int| 0 <= k < prev.len() implies d.contains(#[trigger] prev[k]) by {
            assert(d[k] == prev[k]);
        }
        assert forall|i: int| 0 <= i < last.len() && !current.contains_key(#[trigger] last[i].0@) implies d.contains(
            deletion_command(last[i].0@),
        ) by {
            let x = deletion_command(last[i].0@);
            if i < n {
                assert(prefix[i] == last[i]);
                assert(prev.contains(x));
                let k = choose|k: int| 0 <= k < prev.len() && prev[k] == x;
                assert(d[k] == x);
            } else {
                assert(d.last() == x);
            }
        }
        assert forall|x: CommandView| #[trigger] d.contains(x) implies exists|i: int|
            0 <= i < last.len() && !current.contains_key(last[i].0@) && x
                == deletion_command(last[i].0@) by {
            let k = choose|k: int| 0 <= k < d.len() && d[k] == x;
            if k < prev.len() {
                assert(prev[k] == x);
                assert(prev.contains(x));
                let i = choose|i: int|
                    0 <= i < prefix.len() && !current.contains_key(prefix[i].0@) && x
                        == deletion_command(prefix[i].0@);
                assert(prefix[i] == last[i]);
            } else {
                assert(last[n] == last.last());
            }
        }
    }
}

/// Comparing the services of `current` with a map that already holds each of
/// them, as it is, gives no command.
proof fn lemma_no_changes(
    current: Seq<(FQServiceName, InstanceDetails)>,
    last: Map<FQServiceNameView, InstanceDetailsView>,
)
    requires
        forall|i: int|
            0 <= i < current.len() ==> #[trigger] last.contains_key(current[i].0@) && last[current[i].0@]
                == current[i].1@,
    ensures
        changes(current, last) == Seq::<CommandView>::empty(),
    decreases current.len(),
{
    if current.len() > 0 {
        let prefix = current.drop_last();
        assert forall|i: int| 0 <= i < prefix.len() implies #[trigger] last.contains_key(
            prefix[i].0@,
        ) && last[prefix[i].0@] == prefix[i].1@ by {
            assert(prefix[i] == current[i]);
        }
        lemma_no_changes(prefix, last);
        assert(last.contains_key(current[current.len() - 1].0@));
    }
}

/// Comparing the services of `last` with a map that still holds each of them
/// gives no deletion.
proof fn lemma_no_deletions(
    last: Seq<(FQServiceName, InstanceDetails)>,
    current: Map<FQServiceNameView, InstanceDetailsView>,
)
    requires
        forall|i: int| 0 <= i < last.len() ==> #[trigger] current.contains_key(last[i].0@),
    ensures
        deletions(last, current) == Seq::<CommandView>::empty(),
    decreases last.len(),
{
    if last.len() > 0 {
        let prefix = last.drop_last();
        assert forall|i: int| 0 <= i < prefix.len() implies #[trigger] current.contains_key(
            prefix[i].0@,
        ) by {
            assert(prefix[i] == last[i]);
        }
        lemma_no_deletions(prefix, current);
        assert(current.contains_key(last[last.len() - 1].0@));
    }
}

/// Removing the record with payload `q` never brings back a payload `p` that
/// the store did not hold.
proof fn lemma_remove_keeps_absent(s: StoreView, q: PayloadView, p: PayloadView)
    requires
        !store_holds(s, p),
    ensures
        !store_holds(store_remove(s, q), p),
{
}

/// Once the store no longer holds `p`, the rest of a tick does not bring it back.
proof fn lemma_tick_store_absent(
    s: StoreView,
    a: Map<PayloadIdentity, RRView>,
    now: u64,
    order: Seq<PayloadIdentity>,
    k: int,
    p: PayloadView,
)
    requires
        0 <= k <= order.len(),
        !store_holds(tick_store(s, a, now, order.take(k)), p),
    ensures
        !store_holds(tick_store(s, a, now, order), p),
    decreases order.len() - k,
{
    if k < order.len() {
        let next = order.take(k + 1);
        assert(next.drop_last() =~= order.take(k));
        let r = a[next.last()];
        if probe_state(r, now) is None {
            lemma_remove_keeps_absent(tick_store(s, a, now, order.take(k)), r.payload, p);
        }
        lemma_tick_store_absent(s, a, now, order, k + 1, p);
    } else {
        assert(order.take(k) =~= order);
    }
}

/// A record received with a lifetime of zero (a goodbye) is due at once; the
/// next tick at that instant drops it from the attention list and forgets its
/// payload, whatever the order in which the due records get attention. A
/// goodbye PTR record so takes its service instance out of the snapshot.
pub proof fn lemma_goodbye_expires(z: ZeroConfigView, r: RecordView, order: Seq<PayloadIdentity>)
    requires
        r.ttl == 0,
        record_payload(z.watched, r) is Some,
        is_attention_order(add_record(z, r).attention, z.now, order),
    ensures
        ({
            let p = record_payload(z.watched, r).unwrap();
            let z2 = add_record(z, r);
            let store = tick_store(z2.store, z2.attention, z.now, order);
            &&& z2.attention.contains_key(view_identity(p))
            &&& is_due(z2.attention[view_identity(p)], z.now)
            &&& !tick_attention(z2.attention, z.now).contains_key(view_identity(p))
            &&& !store_holds(store, p)
            &&& (p matches PayloadView::PTR { pointer, .. } ==> !snapshot_of(store).contains_key(
                pointer,
            ))
        }),
{
    let p = record_payload(z.watched, r).unwrap();
    let z2 = add_record(z, r);
    let id = view_identity(p);
    let a = z2.attention;
    assert(a.contains_key(id) && a[id] == new_rr_view(z.now, 0, p));
    assert(order.contains(id));
    let k = choose|k: int| 0 <= k < order.len() && order[k] == id;
    let prefix = order.take(k + 1);
    assert(prefix.drop_last() =~= order.take(k));
    assert(prefix.last() == id);
    assert(probe_state(a[id], z.now) is None);
    crate::store::lemma_add_remove_holds(tick_store(z2.store, a, z.now, order.take(k)), p);
    lemma_tick_store_absent(z2.store, a, z.now, order, k + 1, p);
}


/// The names and lifetimes of the records of the mDNS packet whose bytes are
/// `bytes`, as `simple_dns` reads them: its answers, additional records and
/// name servers, in that order, each name as the texts of its labels; `None`
/// where the bytes are not a DNS packet.
pub uninterp spec fn dns_record_heads(bytes: Seq<u8>) -> Option<Seq<(Seq<Seq<char>>, u32)>>;

/// The data of the records of the mDNS packet whose bytes are `bytes`, as
/// `simple_dns` reads them, in the order of `dns_record_heads`, names as the
/// texts of their labels and TXT attributes by key; `None` where the bytes are
/// not a DNS packet.
pub uninterp spec fn dns_record_data(bytes: Seq<u8>) -> Option<Seq<RecordDataView>>;

/// The records of the mDNS packet whose bytes are `bytes`; `None` where the
/// bytes are not a DNS packet.
pub open spec fn dns_records(bytes: Seq<u8>) -> Option<Seq<RecordView>> {
    match (dns_record_heads(bytes), dns_record_data(bytes)) {
        (Some(h), Some(d)) => Some(
            Seq::new(h.len(), |i: int| RecordView { name: h[i].0, ttl: h[i].1, rdata: d[i] }),
        ),
        _ => None,
    }
}

/// The view of the name and lifetime of a record.
pub open spec fn head_view(h: (Vec<String>, u32)) -> (Seq<Seq<char>>, u32) {
    (label_views(h.0@), h.1)
}

/// Reads the names and lifetimes of the records of a mDNS packet with
/// `simple_dns`: `Packet::parse`, then, for each record of the three sections,
/// the text of each label of its name (`Name::get_labels`) and its ttl. The
/// contract claims only that the result is the named function of the bytes.
#[verifier::external_body]
fn decode_heads(bytes: &[u8]) -> (r: Option<Vec<(Vec<String>, u32)>>)
    ensures
        match r {
            Some(v) => dns_record_heads(bytes@) == Some(v@.map_values(|h: (Vec<String>, u32)| head_view(h))),
            None => dns_record_heads(bytes@) is None,
        },
{
    let p = Packet::parse(bytes).ok()?;
    let labels = |n: &Name| n.get_labels().iter().map(ToString::to_string).collect();
    let head = |r: &DnsRecord| (labels(&r.name), r.ttl);
    Some(p.answers.iter().chain(&p.additional_records).chain(&p.name_servers).map(head).collect())
}

/// Reads the data of the records of a mDNS packet with `simple_dns`:
/// `Packet::parse`, then, for each record of the three sections, its data,
/// names as the texts of their labels and TXT attributes with
/// `TXT::attributes`. The contract claims that the result is the named function
/// of the bytes, and, as both read the same packet, that it is there exactly
/// where the names are, one for each.
#[verifier::external_body]
fn decode_data(bytes: &[u8]) -> (r: Option<Vec<RecordData>>)
    ensures
        match r {
            Some(v) => dns_record_data(bytes@) == Some(v@.map_values(|d: RecordData| d@))
                && dns_record_heads(bytes@) is Some && dns_record_heads(bytes@).unwrap().len()
                == v@.len(),
            None => dns_record_data(bytes@) is None && dns_record_heads(bytes@) is None,
        },
{
    let p = Packet::parse(bytes).ok()?;
    let labels = |n: &Name| n.get_labels().iter().map(ToString::to_string).collect();
    Some(p.answers.iter().chain(&p.additional_records).chain(&p.name_servers).map(|r| match &r.rdata {
        A(a) => RecordData::A { address: a.address },
        AAAA(a) => RecordData::AAAA { address: a.address },
        PTR(ptr) => RecordData::PTR { pointer: labels(&ptr.0) },
        SRV(srv) => RecordData::SRV { port: srv.port, target: labels(&srv.target) },
        TXT(txt) => RecordData::TXT { attributes: txt.attributes().into_iter().collect() },
        _ => RecordData::Other,
    }).collect())
}

/// The records of a mDNS packet, each made of its name and lifetime and of
/// its data; `None` where the bytes are not a DNS packet.
pub fn decode_packet(bytes: &[u8]) -> (r: Option<Vec<ResourceRecord>>)
    ensures
        match r {
            Some(v) => dns_records(bytes@) == Some(records_view(v@)),
            None => dns_records(bytes@) is None,
        },
{
    let mut data = match decode_data(bytes) {
        Some(d) => d,
        None => {
            return None;
        },
    };
    let mut heads = match decode_heads(bytes) {
        Some(h) => h,
        None => {
            return None;
        },
    };
    let ghost hs = dns_record_heads(bytes@).unwrap();
    let ghost ds = dns_record_data(bytes@).unwrap();
    let ghost all = dns_records(bytes@).unwrap();
    let n = data.len();
    // Take the records out from the last one, then put them back in order.
    let mut reversed: Vec<ResourceRecord> = Vec::new();
    while data.len() > 0
        invariant
            hs.len() == n && ds.len() == n && all.len() == n,
            all == Seq::new(n as nat, |i: int| RecordView { name: hs[i].0, ttl: hs[i].1, rdata: ds[i] }),
            heads@.len() == data@.len(),
            data@.len() <= n,
            forall|j: int| 0 <= j < heads@.len() ==> head_view(#[trigger] heads@[j]) == hs[j],
            forall|j: int| 0 <= j < data@.len() ==> (#[trigger] data@[j])@ == ds[j],
            reversed@.len() == n - data@.len(),
            forall|j: int| 0 <= j < reversed@.len() ==> (#[trigger] reversed@[j])@ == all[n - 1 - j],
        decreases data@.len(),
    {
        let ghost k = data@.len() - 1;
        let rdata = data.pop().unwrap();
        let (name, ttl) = heads.pop().unwrap();
        let record = ResourceRecord { name, ttl, rdata };
        assert(record@ == all[k]);
        reversed.push(record);
    }
    let mut records: Vec<ResourceRecord> = Vec::new();
    while reversed.len() > 0
        invariant
            all.len() == n,
            records@.len() + reversed@.len() == n,
            forall|j: int| 0 <= j < reversed@.len() ==> (#[trigger] reversed@[j])@ == all[n - 1 - j],
            forall|j: int| 0 <= j < records@.len() ==> (#[trigger] records@[j])@ == all[j],
        decreases reversed@.len(),
    {
        let record = reversed.pop().unwrap();
        records.push(record);
    }
    assert(records_view(records@) =~= all);
    Some(records)
}

/// The state of the state machine, as plain values.
pub struct ZeroConfigView {
    /// The watched service types, with their domain.
    pub watched: Set<Seq<char>>,
    /// The records that will need attention, by identity.
    pub attention: Map<PayloadIdentity, RRView>,
    /// The records received and not expired.
    pub store: StoreView,
    /// The current instant.
    pub now: u64,
    /// The services reported to the driver so far.
    pub last_snapshot: Map<FQServiceNameView, InstanceDetailsView>,
}

/// The state after receiving record `r`.
pub open spec fn add_record(z: ZeroConfigView, r: RecordView) -> ZeroConfigView {
    match record_payload(z.watched, r) {
        Some(p) => ZeroConfigView {
            attention: z.attention.insert(view_identity(p), new_rr_view(z.now, r.ttl, p)),
            store: store_add(z.store, p),
            ..z
        },
        None => z,
    }
}

/// The state after receiving the records `rs`, in order.
pub open spec fn add_records(z: ZeroConfigView, rs: Seq<RecordView>) -> ZeroConfigView
    decreases rs.len(),
{
    if rs.len() == 0 {
        z
    } else {
        add_record(add_records(z, rs.drop_last()), rs.last())
    }
}

/// A service the state machine looks for.
#[derive(Debug)]
pub struct TrackedService {
    pub service_name: String,
    pub local: String,
}

impl View for TrackedService {
    type V = (Seq<char>, Seq<char>);

    open spec fn view(&self) -> (Seq<char>, Seq<char>) {
        (self.service_name@, self.local@)
    }
}

pub const TLS_CONNECT_SERVICE: &'static str = "_adb-tls-connect._tcp";

pub const TLS_PAIRING_SERVICE: &'static str = "_adb-tls-pairing._tcp";

pub const TCP_CONNECT_SERVICE: &'static str = "_adb._tcp";

/// The domain in which services are looked for.
pub const LOCAL_DOMAIN: &'static str = "local";

/// The three adb service types, with their domain, are three different names.
proof fn lemma_adb_types_distinct()
    ensures
        set![
            dotted(TLS_CONNECT_SERVICE@, LOCAL_DOMAIN@),
            dotted(TLS_PAIRING_SERVICE@, LOCAL_DOMAIN@),
            dotted(TCP_CONNECT_SERVICE@, LOCAL_DOMAIN@),
        ].len() == 3,
{
    reveal_strlit("_adb-tls-connect._tcp");
    reveal_strlit("_adb-tls-pairing._tcp");
    reveal_strlit("_adb._tcp");
    reveal_strlit("local");
    let a = dotted(TLS_CONNECT_SERVICE@, LOCAL_DOMAIN@);
    let b = dotted(TLS_PAIRING_SERVICE@, LOCAL_DOMAIN@);
    let c = dotted(TCP_CONNECT_SERVICE@, LOCAL_DOMAIN@);
    assert(a[9] == 'c' && b[9] == 'p');
    assert(a.len() == 27 && c.len() == 15);
    assert(a != b && a != c && b != c);
    let s0 = Set::<Seq<char>>::empty();
    assert(s0.insert(a).len() == 1);
    assert(s0.insert(a).insert(b).len() == 2);
    assert(s0.insert(a).insert(b).insert(c).len() == 3);
}

/// The state machine.
pub struct ZeroConfig {
    commands: Vec<ZeroConfigCommand>,
    // The list of watched services. e.g.: _adb-tls-connect._tcp
    tracked_services: VecMap<ServiceTypeWithLocal, TrackedService>,
    attention_list: IndexMinPQ<RR>,
    store: Store,
    now: u64,
    last_snap_shot: Services,
}

impl View for ZeroConfig {
    type V = ZeroConfigView;

    closed spec fn view(&self) -> ZeroConfigView {
        ZeroConfigView {
            watched: self.tracked_services@.dom(),
            attention: attention_model(self.attention_list.contents()),
            store: self.store@,
            now: self.now,
            last_snapshot: self.last_snap_shot@,
        }
    }
}

/// `after` is state machine `before` after a tick, which issued `commands`:
/// the records due at the current instant got attention, earliest first, in
/// some order that lists each once; the queries for those probed come first,
/// then the services created or updated since the last report, in the order of
/// the new snapshot, then those deleted, in the order of the old one.
pub open spec fn ticked(before: ZeroConfig, after: ZeroConfig, commands: Seq<CommandView>) -> bool {
    &&& after.wf()
    &&& after@.watched == before@.watched
    &&& after@.now == before@.now
    &&& after@.attention == tick_attention(before@.attention, before@.now)
    &&& after@.last_snapshot == snapshot_of(after@.store)
    &&& after.tracked_entries() == before.tracked_entries()
    &&& exists|order: Seq<PayloadIdentity>|
        {
            &&& is_attention_order(before@.attention, before@.now, order)
            &&& after@.store == tick_store(before@.store, before@.attention, before@.now, order)
            &&& commands == tick_queries(before@.attention, before@.now, order) + changes(
                after.last_snapshot_entries(),
                before@.last_snapshot,
            ) + deletions(before.last_snapshot_entries(), after@.last_snapshot)
        }
}

/// A second tick at the same instant, with nothing received in between,
/// issues no command and changes nothing.
pub proof fn lemma_second_tick_quiet(
    z0: ZeroConfig,
    z1: ZeroConfig,
    c1: Seq<CommandView>,
    z2: ZeroConfig,
    c2: Seq<CommandView>,
)
    requires
        z0.wf(),
        ticked(z0, z1, c1),
        ticked(z1, z2, c2),
    ensures
        c2 == Seq::<CommandView>::empty(),
        z2@ == z1@,
{
    z0.lemma_reported();
    lemma_tick_settles(z0@.attention, z0@.now);
    let a1 = z1@.attention;
    let now = z1@.now;
    assert(z2@.attention == a1);
    let order = choose|order: Seq<PayloadIdentity>|
        {
            &&& is_attention_order(a1, now, order)
            &&& z2@.store == tick_store(z1@.store, a1, now, order)
            &&& c2 == tick_queries(a1, now, order) + changes(
                z2.last_snapshot_entries(),
                z1@.last_snapshot,
            ) + deletions(z1.last_snapshot_entries(), z2@.last_snapshot)
        };
    lemma_nothing_due_quiet(a1, z1@.store, now, order);
    assert(z2@.store == z1@.store);
    assert(z2@.last_snapshot == z1@.last_snapshot);
    z1.lemma_reported();
    z2.lemma_reported();
    assert(c2 =~= Seq::<CommandView>::empty());
}

impl ZeroConfig {
    /// The services reported to the driver so far, in the order in which they are kept.
    pub closed spec fn last_snapshot_entries(&self) -> Seq<(FQServiceName, InstanceDetails)> {
        self.last_snap_shot.entries()
    }

    /// The service types watched, in the order in which they are kept.
    pub closed spec fn tracked_entries(&self) -> Seq<(ServiceTypeWithLocal, TrackedService)> {
        self.tracked_services.entries()
    }

    /// The records of the attention list.
    pub closed spec fn attention_contents(&self) -> Multiset<RR> {
        self.attention_list.contents()
    }

    /// The parts of the state machine are well formed; no command is pending;
    /// the records in the attention list were received at instants the state
    /// machine handles.
    pub closed spec fn wf(&self) -> bool {
        &&& self.commands@.len() == 0
        &&& self.wf_parts()
    }

    /// The parts of the state machine are well formed.
    closed spec fn wf_parts(&self) -> bool {
        &&& self.tracked_services.wf()
        &&& self.attention_list.wf()
        &&& forall|x: RR| #[trigger]
            self.attention_list.contents().contains(x) ==> payload_wf(x.payload) && x.created_on
                <= MAX_INSTANT && on_schedule(x@)
        &&& self.store.wf()
        &&& self.last_snap_shot.wf()
        &&& forall|i: int|
            0 <= i < self.last_snap_shot.entries().len() ==> (
            #[trigger] self.last_snap_shot.entries()[i]).1.wf()
        &&& self.now <= MAX_INSTANT
    }


    /// A state machine that tracks the adb services, at instant zero, with
    /// nothing received yet.
    pub fn new() -> (z: ZeroConfig)
        ensures
            z.wf(),
            z@.watched == set![
                dotted(TLS_CONNECT_SERVICE@, LOCAL_DOMAIN@),
                dotted(TLS_PAIRING_SERVICE@, LOCAL_DOMAIN@),
                dotted(TCP_CONNECT_SERVICE@, LOCAL_DOMAIN@),
            ],
            z@.watched.len() == 3,
            z@.attention == Map::<PayloadIdentity, RRView>::empty(),
            z@.store == Store::new_view(),
            z@.now == 0,
            z@.last_snapshot == Map::<FQServiceNameView, InstanceDetailsView>::empty(),
    {
        let mut zero_config = ZeroConfig {
            commands: Vec::new(),
            tracked_services: VecMap::new(),
            attention_list: IndexMinPQ::new(),
            store: Store::new(),
            now: 0,
            last_snap_shot: VecMap::new(),
        };
        proof {
            zero_config.last_snap_shot.lemma_view();
            lemma_identity_map_finite(zero_config.attention_list.contents());
            assert(zero_config@.attention =~= Map::<PayloadIdentity, RRView>::empty());
        }
        zero_config.track_service(TLS_CONNECT_SERVICE.to_owned());
        zero_config.track_service(TLS_PAIRING_SERVICE.to_owned());
        zero_config.track_service(TCP_CONNECT_SERVICE.to_owned());
        proof {
            assert(zero_config@.watched =~= set![
                dotted(TLS_CONNECT_SERVICE@, LOCAL_DOMAIN@),
                dotted(TLS_PAIRING_SERVICE@, LOCAL_DOMAIN@),
                dotted(TCP_CONNECT_SERVICE@, LOCAL_DOMAIN@),
            ]);
            lemma_adb_types_distinct();
        }
        zero_config
    }

    /// The initial queries: one for each tracked service type, of any type and class.
    pub fn on_start(&self) -> (commands: Vec<ZeroConfigCommand>)
        requires
            self.wf(),
        ensures
            commands@.len() == self.tracked_entries().len(),
            forall|i: int|
                0 <= i < commands@.len() ==> #[trigger] commands@[i]@ == (CommandView::DnsQuery {
                    query: self.tracked_entries()[i].0@,
                    qtype: QueryType::ANY,
                    qclass: QueryClass::ANY,
                }),
    {
        let mut commands: Vec<ZeroConfigCommand> = Vec::new();
        let n = self.tracked_services.len();
        let mut i: usize = 0;
        while i < n
            invariant
                self.wf(),
                n == self.tracked_entries().len(),
                i <= n,
                commands@.len() == i,
                forall|j: int|
                    0 <= j < i ==> #[trigger] commands@[j]@ == (CommandView::DnsQuery {
                        query: self.tracked_entries()[j].0@,
                        qtype: QueryType::ANY,
                        qclass: QueryClass::ANY,
                    }),
            decreases n - i,
        {
            let service = &self.tracked_services.entry_at(i).0;
            let ServiceTypeWithLocal(service_type_with_local_string) = service;
            commands.push(
                ZeroConfigCommand::DnsQuery {
                    query: service_type_with_local_string.clone(),
                    qtype: QueryType::ANY,
                    qclass: QueryClass::ANY,
                },
            );
            i = i + 1;
        }
        commands
    }

    /// The record that a received record gives, if it is kept.
    fn rr_from_record(&self, record: &ResourceRecord) -> (r: Option<RR>)
        requires
            self.wf(),
        ensures
            r is None ==> record_payload(self@.watched, record@) is None,
            r matches Some(rr) ==> record_payload(self@.watched, record@) == Some(rr.payload@)
                && rr@ == new_rr_view(self.now, record.ttl, rr.payload@) && payload_wf(rr.payload)
                && rr.created_on <= MAX_INSTANT,
    {
        let payload = match &record.rdata {
            RecordData::PTR { pointer: labels } => {
                let pointer = match FQServiceName::try_from(labels) {
                    Some(s) => s,
                    None => {
                        return None;
                    },
                };
                if !self.tracked_services.contains_key(&pointer.service_type_with_local) {
                    return None;
                }
                RRPayload::PTR { name: join_labels(&record.name), pointer }
            },
            RecordData::SRV { port, target } => {
                let name = match FQServiceName::try_from(&record.name) {
                    Some(s) => s,
                    None => {
                        return None;
                    },
                };
                if !self.tracked_services.contains_key(&name.service_type_with_local) {
                    return None;
                }
                RRPayload::SRV { name, target: join_labels(target), port: *port }
            },
            RecordData::A { address } => RRPayload::A { name: join_labels(&record.name), addr: *address },
            RecordData::AAAA { address } => RRPayload::AAAA {
                name: join_labels(&record.name),
                addr: *address,
            },
            RecordData::TXT { attributes } => {
                let attributes = txt_attributes(attributes);
                let name = match FQServiceName::try_from(&record.name) {
                    Some(s) => s,
                    None => {
                        return None;
                    },
                };
                if !self.tracked_services.contains_key(&name.service_type_with_local) {
                    return None;
                }
                RRPayload::TXT { name, attributes }
            },
            RecordData::Other => {
                return None;
            },
        };
        Some(RR::new(self.now, record.ttl, payload))
    }

    /// Queues a received record for attention and stores it.
    fn add_rr(&mut self, rr: RR)
        requires
            old(self).wf(),
            payload_wf(rr.payload),
            rr.created_on <= MAX_INSTANT,
            on_schedule(rr@),
        ensures
            final(self).wf(),
            final(self)@ == (ZeroConfigView {
                attention: old(self)@.attention.insert(view_identity(rr.payload@), rr@),
                store: store_add(old(self)@.store, rr.payload@),
                ..old(self)@
            }),
    {
        proof {
            self.attention_list.lemma_distinct_identities();
            lemma_identity_map_pushed(self.attention_list.contents(), rr);
        }
        self.store.add(&rr.payload);
        let ghost item = rr;
        self.attention_list.push(rr);
        proof {
            assert(self@.attention =~= old(self)@.attention.insert(view_identity(item.payload@), item@));
        }
    }

    /// Receives records, in order.
    fn process_records(&mut self, records: &Vec<ResourceRecord>)
        requires
            old(self).wf(),
        ensures
            final(self).wf(),
            final(self)@ == add_records(old(self)@, records_view(records@)),
    {
        let mut i: usize = 0;
        while i < records.len()
            invariant
                self.wf(),
                i <= records@.len(),
                self@ == add_records(old(self)@, records_view(records@.take(i as int))),
            decreases records@.len() - i,
        {
            proof {
                assert(records_view(records@.take(i + 1)).drop_last() =~= records_view(
                    records@.take(i as int),
                ));
                assert(records_view(records@.take(i + 1)).last() == records@[i as int]@);
            }
            let record = &records[i];
            match self.rr_from_record(record) {
                Some(rr) => {
                    self.add_rr(rr);
                },
                None => {},
            }
            i = i + 1;
        }
        proof {
            assert(records@.take(records@.len() as int) =~= records@);
        }
    }

    /// Receives the records of a mDNS packet: its answers, additional records
    /// and name servers, in that order.
    pub fn push_records(
        &mut self,
        answers: Vec<ResourceRecord>,
        additional: Vec<ResourceRecord>,
        nameserver: Vec<ResourceRecord>,
    )
        requires
            old(self).wf(),
        ensures
            final(self).wf(),
            final(self)@ == add_records(
                old(self)@,
                records_view(answers@ + additional@ + nameserver@),
            ),
    {
        // Combine all records from the mDNS packet into a single list for processing.
        // This allows finding related records (e.g., PTR, SRV, A/AAAA) that may be in
        // different sections of the packet.
        let mut all_records = answers;
        let mut additional = additional;
        let mut nameserver = nameserver;
        all_records.append(&mut additional);
        all_records.append(&mut nameserver);
        if all_records.len() == 0 {
            return;
        }
        self.process_records(&all_records);
    }


    /// Receives a mDNS packet, as the bytes read from the socket: where they
    /// are a DNS packet, its records are received as `push_records` receives
    /// them; where they are not, nothing changes.
    pub fn receive_packet(&mut self, bytes: &[u8]) -> (parsed: bool)
        requires
            old(self).wf(),
        ensures
            final(self).wf(),
            parsed == dns_records(bytes@) is Some,
            parsed ==> final(self)@ == add_records(old(self)@, dns_records(bytes@).unwrap()),
            !parsed ==> final(self)@ == old(self)@,
    {
        match decode_packet(bytes) {
            Some(records) => {
                let ghost rs = records@;
                self.push_records(records, Vec::new(), Vec::new());
                proof {
                    assert(rs + Seq::<ResourceRecord>::empty() + Seq::<ResourceRecord>::empty() =~= rs);
                }
                true
            },
            None => false,
        }
    }

    /// Issues the query that probes record `rr`.
    fn create_query_for_record(&mut self, rr: &RR)
        requires
            old(self).wf_parts(),
        ensures
            final(self).wf_parts(),
            final(self)@ == old(self)@,
            final(self).last_snapshot_entries() == old(self).last_snapshot_entries(),
            final(self).tracked_entries() == old(self).tracked_entries(),
            final(self).attention_contents() == old(self).attention_contents(),
            commands_view(final(self).commands@) == commands_view(old(self).commands@).push(
                query_command(rr.payload@),
            ),
    {
        let query = match &rr.payload {
            RRPayload::A { name, .. } => name.clone(),
            RRPayload::AAAA { name, .. } => name.clone(),
            RRPayload::SRV { name, .. } => name.fq_name(),
            RRPayload::TXT { name, .. } => name.fq_name(),
            RRPayload::PTR { name, .. } => name.clone(),
        };
        let qtype = match &rr.payload {
            RRPayload::A { .. } => QueryType::A,
            RRPayload::AAAA { .. } => QueryType::AAAA,
            RRPayload::SRV { .. } => QueryType::SRV,
            RRPayload::TXT { .. } => QueryType::TXT,
            RRPayload::PTR { .. } => QueryType::PTR,
        };
        self.commands.push(ZeroConfigCommand::DnsQuery { query, qtype, qclass: QueryClass::ANY });
        proof {
            assert(commands_view(self.commands@) =~= commands_view(old(self).commands@).push(
                query_command(rr.payload@),
            ));
        }
    }

    /// How long to wait until a record needs attention; sixty seconds if none will.
    fn calculate_next_attention_duration(&self) -> (d: u64)
        requires
            self.wf_parts(),
        ensures
            d == next_attention_duration(self@.attention, self.now),
    {
        // Calculate next attention
        let mut duration = IDLE_WAIT;
        let ghost c = self.attention_list.contents();
        proof {
            lemma_identity_map_finite(c);
            self.attention_list.lemma_distinct_identities();
        }
        match self.attention_list.peek() {
            Some(rr) => {
                proof {
                    let a = self@.attention;
                    lemma_identity_map_entry(c, *rr);
                    assert(a.contains_key(rr.identity()));
                    assert forall|id: PayloadIdentity| #[trigger] a.contains_key(id) implies rr.attention_needed_on
                        <= a[id].attention_needed_on by {
                        let y = crate::index_min_pq::entry_with_identity(c, id);
                        assert(c.contains(y));
                    }
                    assert(is_earliest(a, rr.attention_needed_on));
                    let t = earliest_attention(a);
                    assert(is_earliest(a, t));
                    let w = choose|id: PayloadIdentity| #[trigger] a.contains_key(id) && a[id].attention_needed_on == t;
                    assert(rr.attention_needed_on <= t);
                    assert(t <= rr.attention_needed_on);
                    assert(a.dom().contains(rr.identity()));
                    assert(a.dom() =~= identity_map(c).dom());
                    vstd::set_lib::lemma_set_empty_equivalency_len(a.dom());
                    assert(a.dom().len() != 0);
                }
                duration = rr.attention_needed_on.saturating_sub(self.now);
            },
            None => {
                proof {
                    assert(self@.attention.dom() =~= Set::<PayloadIdentity>::empty());
                    assert(self@.attention.dom().len() == 0);
                }
            },
        }
        duration
    }

    /// Compares a new snapshot of the store with the last one: issues a command
    /// for each service created, updated or deleted, and keeps the new snapshot.
    fn create_diff_commands(&mut self)
        requires
            old(self).wf_parts(),
        ensures
            final(self).wf_parts(),
            final(self)@ == (ZeroConfigView { last_snapshot: snapshot_of(old(self)@.store), ..old(self)@ }),
            final(self).tracked_entries() == old(self).tracked_entries(),
            final(self).attention_contents() == old(self).attention_contents(),
            commands_view(final(self).commands@) == commands_view(old(self).commands@) + changes(
                final(self).last_snapshot_entries(),
                old(self)@.last_snapshot,
            ) + deletions(old(self).last_snapshot_entries(), final(self)@.last_snapshot),
    {
        let snapshot = self.store.snapshot();
        let n = snapshot.len();
        let mut i: usize = 0;
        while i < n
            invariant
                self.wf_parts(),
                self@ == old(self)@,
                self.tracked_entries() == old(self).tracked_entries(),
                self.attention_contents() == old(self).attention_contents(),
                self.last_snapshot_entries() == old(self).last_snapshot_entries(),
                snapshot.wf(),
                n == snapshot.entries().len(),
                forall|j: int|
                    0 <= j < snapshot.entries().len() ==> (#[trigger] snapshot.entries()[j]).1.wf(),
                i <= n,
                commands_view(self.commands@) == commands_view(old(self).commands@) + changes(
                    snapshot.entries().take(i as int),
                    old(self)@.last_snapshot,
                ),
            decreases n - i,
        {
            proof {
                assert(snapshot.entries().take(i + 1).drop_last() =~= snapshot.entries().take(
                    i as int,
                ));
            }
            let ghost before = commands_view(self.commands@);
            let entry = snapshot.entry_at(i);
            let service = &entry.0;
            let details = &entry.1;
            match self.last_snap_shot.get(service) {
                None => {
                    // Detect new services
                    self.commands.push(
                        ZeroConfigCommand::CreateService {
                            instance_name: service.instance_name.clone(),
                            service_type: service.service_type.clone(),
                            ipv4s: details.ipv4s.copy(),
                            ipv6s: details.ipv6s.copy(),
                            port: details.port,
                            txt: details.txt.copy(),
                        },
                    );
                    proof {
                        assert(commands_view(self.commands@) =~= before.push(
                            service_command(service@, details@, true),
                        ));
                    }
                },
                Some(other) => {
                    // Detect updated services
                    if *details != *other {
                        self.commands.push(
                            ZeroConfigCommand::UpdateService {
                                instance_name: service.instance_name.clone(),
                                service_type: service.service_type.clone(),
                                ipv4s: details.ipv4s.copy(),
                                ipv6s: details.ipv6s.copy(),
                                port: details.port,
                                txt: details.txt.copy(),
                            },
                        );
                        proof {
                            assert(commands_view(self.commands@) =~= before.push(
                                service_command(service@, details@, false),
                            ));
                        }
                    }
                },
            }
            i = i + 1;
        }
        proof {
            assert(snapshot.entries().take(n as int) =~= snapshot.entries());
        }
        let ghost mid = commands_view(self.commands@);
        let m = self.last_snap_shot.len();
        let mut i: usize = 0;
        while i < m
            invariant
                self.wf_parts(),
                self@ == old(self)@,
                self.tracked_entries() == old(self).tracked_entries(),
                self.attention_contents() == old(self).attention_contents(),
                self.last_snapshot_entries() == old(self).last_snapshot_entries(),
                snapshot.wf(),
                m == self.last_snapshot_entries().len(),
                i <= m,
                commands_view(self.commands@) == mid + deletions(
                    self.last_snapshot_entries().take(i as int),
                    snapshot@,
                ),
            decreases m - i,
        {
            proof {
                assert(self.last_snapshot_entries().take(i + 1).drop_last()
                    =~= self.last_snapshot_entries().take(i as int));
            }
            let ghost before = commands_view(self.commands@);
            let service = &self.last_snap_shot.entry_at(i).0;
            // Detect deleted services
            if !snapshot.contains_key(service) {
                self.commands.push(
                    ZeroConfigCommand::DeleteService {
                        instance_name: service.instance_name.clone(),
                        service_type: service.service_type.clone(),
                    },
                );
                proof {
                    assert(commands_view(self.commands@) =~= before.push(
                        CommandView::DeleteService {
                            instance_name: service@.instance_name,
                            service_type: service@.service_type,
                        },
                    ));
                }
            }
            i = i + 1;
        }
        proof {
            assert(self.last_snapshot_entries().take(m as int) =~= self.last_snapshot_entries());
        }
        self.last_snap_shot = snapshot;
    }


    /// Gives attention to every record that needs it at the current instant, in
    /// order of attention instant: a record whose lifetime is over is dropped
    /// from the attention list and the store, any other is probed (a query is
    /// issued for it) and moves on in its lifecycle. Then compares the services
    /// reachable with those last reported. Returns the queries and service
    /// commands, and how long to wait until a record needs attention again.
    pub fn tick(&mut self) -> (r: (Vec<ZeroConfigCommand>, u64))
        requires
            old(self).wf(),
        ensures
            ticked(*old(self), *final(self), commands_view(r.0@)),
            r.1 == next_attention_duration(final(self)@.attention, final(self)@.now),
    {
        let ghost a0 = self@.attention;
        let ghost s0 = self@.store;
        let ghost now = self.now;
        let ghost mut order: Seq<PayloadIdentity> = Seq::empty();
        proof {
            assert(partly_ticked(a0, now, order) =~= a0);
            assert(commands_view(self.commands@) =~= Seq::<CommandView>::empty());
        }
        // Build a list of all the rr that need attention or expiration
        loop
            invariant
                self.wf_parts(),
                self.now == now,
                self@.watched == old(self)@.watched,
                self@.last_snapshot == old(self)@.last_snapshot,
                self.last_snapshot_entries() == old(self).last_snapshot_entries(),
                self.tracked_entries() == old(self).tracked_entries(),
                self@.attention == partly_ticked(a0, now, order),
                self@.store == tick_store(s0, a0, now, order),
                commands_view(self.commands@) == tick_queries(a0, now, order),
                order.no_duplicates(),
                forall|id: PayloadIdentity| #[trigger]
                    order.contains(id) ==> a0.contains_key(id) && is_due(a0[id], now),
                forall|i: int, j: int|
                    #![trigger order[i], order[j]]
                    0 <= i < j < order.len() ==> a0[order[i]].attention_needed_on
                        <= a0[order[j]].attention_needed_on,
                forall|i: int, id: PayloadIdentity|
                    #![trigger order[i], a0.contains_key(id)]
                    0 <= i < order.len() && a0.contains_key(id) && !order.contains(id)
                        ==> a0[order[i]].attention_needed_on <= a0[id].attention_needed_on,
            ensures
                self.wf_parts(),
                self.now == now,
                self@.watched == old(self)@.watched,
                self@.last_snapshot == old(self)@.last_snapshot,
                self.last_snapshot_entries() == old(self).last_snapshot_entries(),
                self.tracked_entries() == old(self).tracked_entries(),
                self@.attention == partly_ticked(a0, now, order),
                self@.store == tick_store(s0, a0, now, order),
                commands_view(self.commands@) == tick_queries(a0, now, order),
                order.no_duplicates(),
                forall|id: PayloadIdentity| #[trigger]
                    order.contains(id) ==> a0.contains_key(id) && is_due(a0[id], now),
                forall|i: int, j: int|
                    #![trigger order[i], order[j]]
                    0 <= i < j < order.len() ==> a0[order[i]].attention_needed_on
                        <= a0[order[j]].attention_needed_on,
                forall|y: RR| #[trigger]
                    self.attention_contents().contains(y) ==> y.attention_needed_on > now,
            decreases due_count(self.attention_contents(), now),
        {
            let ghost c = self.attention_list.contents();
            proof {
                self.attention_list.lemma_distinct_identities();
                assert(attention_model(c) == partly_ticked(a0, now, order));
            }
            let due = match self.attention_list.peek() {
                Some(attention_element) => attention_element.attention_needed_on <= self.now,
                None => false,
            };
            if !due {
                proof {
                    assert forall|y: RR| #[trigger] c.contains(y) implies y.attention_needed_on
                        > now by {
                        assert(c.len() > 0);
                    }
                }
                break;
            }
            let element = match self.attention_list.pop() {
                Some(element) => element,
                None => {
                    break;
                },
            };
            let ghost id = element.identity();
            let ghost m = partly_ticked(a0, now, order);
            proof {
                lemma_identity_map_entry(c, element);
                assert(m.contains_key(id) && m[id] == element@);
                if order.contains(id) {
                    lemma_probed_later(a0[id], now);
                }
                assert(!order.contains(id));
                assert(a0[id] == element@);
                lemma_identity_map_removed(c, element);
                // The element needs attention no later than any record not yet attended to.
                assert forall|id2: PayloadIdentity|
                    a0.contains_key(id2) && !order.contains(id2) implies element.attention_needed_on
                    <= #[trigger] a0[id2].attention_needed_on by {
                    assert(m.contains_key(id2));
                    assert(identity_map(c).contains_key(id2));
                    let y = crate::index_min_pq::entry_with_identity(c, id2);
                    assert(identity_map(c)[id2] == y);
                    assert(attention_model(c)[id2] == y@);
                    assert(m[id2] == a0[id2]);
                    assert(c.contains(y));
                }
            }
            let ghost new_order = order.push(id);
            proof {
                assert(new_order.drop_last() =~= order);
                assert forall|id2: PayloadIdentity| #[trigger]
                    new_order.contains(id2) <==> (order.contains(id2) || id2 == id) by {
                    if new_order.contains(id2) {
                        let k = choose|k: int| 0 <= k < new_order.len() && new_order[k] == id2;
                        if k < order.len() {
                            assert(order[k] == id2);
                        }
                    }
                    if order.contains(id2) {
                        let k = choose|k: int| 0 <= k < order.len() && order[k] == id2;
                        assert(new_order[k] == id2);
                    }
                    if id2 == id {
                        assert(new_order[order.len() as int] == id);
                    }
                }
            }
            match lifecycle_step(&element, self.now) {
                None => {
                    // The RR expired.
                    self.store.remove(&element.payload);
                    proof {
                        lemma_due_count_remove(c, element, now);
                        assert(identity_map(c.remove(element)) == identity_map(c).remove(id));
                        assert(self.attention_list.contents() == c.remove(element));
                        assert(self@.attention =~= attention_model(c).remove(id));
                        assert(self@.attention =~= partly_ticked(a0, now, new_order));
                        assert forall|x: RR| #[trigger]
                            self.attention_list.contents().contains(x) implies payload_wf(x.payload)
                            && x.created_on <= MAX_INSTANT && on_schedule(x@) by {
                            assert(c.contains(x));
                        }
                    }
                },
                Some(next_lifecycle_state) => {
                    // Calculate next attention time, issue query, and re-insert into attention priority queue.
                    let attention_needed_on = lifetime_point(
                        element.created_on,
                        element.ttl,
                        next_lifecycle_state.next_ttl_fraction(),
                    );
                    let rr = RR {
                        attention_needed_on,
                        created_on: element.created_on,
                        ttl: element.ttl,
                        next_lifecycle_state,
                        payload: element.payload,
                    };
                    proof {
                        lemma_probed_later(a0[id], now);
                        assert(rr@ == probed(a0[id], next_lifecycle_state));
                        lemma_identity_map_pushed(c.remove(element), rr);
                        lemma_due_count_step(c, element, rr, now);
                        assert forall|x: RR| #[trigger]
                            self.attention_list.contents().contains(x) implies payload_wf(x.payload)
                            && x.created_on <= MAX_INSTANT && on_schedule(x@) by {
                            assert(c.contains(x));
                        }
                    }
                    self.create_query_for_record(&rr);
                    let ghost item = rr;
                    self.attention_list.push(rr);
                    proof {
                        assert(item.identity() == id);
                        assert(self.attention_list.contents() == pushed(c.remove(element), item));
                        assert(identity_map(self.attention_list.contents()) == identity_map(c).remove(
                            id,
                        ).insert(id, item));
                        assert(self@.attention =~= attention_model(c).remove(id).insert(id, item@));
                        assert(self@.attention =~= partly_ticked(a0, now, new_order));
                        assert forall|x: RR| #[trigger]
                            self.attention_list.contents().contains(x) implies payload_wf(x.payload)
                            && x.created_on <= MAX_INSTANT && on_schedule(x@) by {
                            if x != item {
                                assert(c.remove(element).contains(x));
                                assert(c.contains(x));
                            }
                        }
                    }
                },
            }
            proof {
                order = new_order;
            }
        }
        proof {
            assert(is_attention_order(a0, now, order)) by {
                assert forall|id: PayloadIdentity|
                    a0.contains_key(id) && is_due(a0[id], now) implies #[trigger] order.contains(id) by {
                    if !order.contains(id) {
                        let c = self.attention_list.contents();
                        assert(attention_model(c) == partly_ticked(a0, now, order));
                        assert(attention_model(c).contains_key(id));
                        assert(identity_map(c).contains_key(id));
                        let y = crate::index_min_pq::entry_with_identity(c, id);
                        assert(identity_map(c)[id] == y);
                        assert(attention_model(c)[id] == y@);
                        assert(c.contains(y));
                        assert(self.attention_contents().contains(y));
                        assert(y@ == a0[id]);
                    }
                }
            }
            assert(self@.attention =~= tick_attention(a0, now));
        }
        // Generate a diff and send commands to create/delete/update
        self.create_diff_commands();
        let mut commands: Vec<ZeroConfigCommand> = Vec::new();
        std::mem::swap(&mut commands, &mut self.commands);
        let duration = self.calculate_next_attention_duration();
        proof {
            assert(is_attention_order(a0, now, order));
            assert(self@.store == tick_store(s0, a0, now, order));
            assert(commands_view(commands@) == tick_queries(a0, now, order) + changes(
                self.last_snapshot_entries(),
                old(self)@.last_snapshot,
            ) + deletions(old(self).last_snapshot_entries(), self@.last_snapshot));
        }
        (commands, duration)
    }


    /// Flushes the cache (RFC 6762, 10.3, cache flush on topology change):
    /// forgets every record, and reports every service reported so far as deleted.
    pub fn on_stop(&mut self) -> (commands: Vec<ZeroConfigCommand>)
        requires
            old(self).wf(),
        ensures
            final(self).wf(),
            final(self)@ == (ZeroConfigView {
                attention: Map::empty(),
                store: Store::new_view(),
                last_snapshot: Map::empty(),
                ..old(self)@
            }),
            commands_view(commands@) == deletions(
                old(self).last_snapshot_entries(),
                Map::<FQServiceNameView, InstanceDetailsView>::empty(),
            ),
    {
        self.attention_list.clear();
        self.store.clear();
        proof {
            lemma_identity_map_finite(self.attention_list.contents());
            assert(self@.attention =~= Map::<PayloadIdentity, RRView>::empty());
            assert(snapshot_of(self@.store) =~= Map::<FQServiceNameView, InstanceDetailsView>::empty());
            assert(tick_attention(self@.attention, self.now) =~= Map::<PayloadIdentity, RRView>::empty());
        }
        let ghost mid = *self;
        let (commands, _) = self.tick();
        proof {
            let order = choose|order: Seq<PayloadIdentity>|
                {
                    &&& is_attention_order(mid@.attention, mid@.now, order)
                    &&& self@.store == tick_store(mid@.store, mid@.attention, mid@.now, order)
                    &&& commands_view(commands@) == tick_queries(mid@.attention, mid@.now, order)
                        + changes(self.last_snapshot_entries(), mid@.last_snapshot) + deletions(
                        mid.last_snapshot_entries(),
                        self@.last_snapshot,
                    )
                };
            if order.len() > 0 {
                assert(order.contains(order[0]));
            }
            assert(order =~= Seq::<PayloadIdentity>::empty());
            assert(self@.store == mid@.store);
            assert(self@.last_snapshot =~= Map::<FQServiceNameView, InstanceDetailsView>::empty());
            self.last_snap_shot.lemma_view();
            assert(self.last_snapshot_entries().len() == 0);
            assert(changes(self.last_snapshot_entries(), mid@.last_snapshot) =~= Seq::<CommandView>::empty());
            assert(commands_view(commands@) =~= deletions(
                old(self).last_snapshot_entries(),
                Map::<FQServiceNameView, InstanceDetailsView>::empty(),
            ));
        }
        commands
    }

    /// Starts tracking instances of `service` in the local domain.
    pub fn track_service(&mut self, service: String)
        requires
            old(self).wf(),
        ensures
            final(self).wf(),
            final(self)@ == (ZeroConfigView {
                watched: old(self)@.watched.insert(dotted(service@, LOCAL_DOMAIN@)),
                ..old(self)@
            }),
    {
        let tracked_service = TrackedService { service_name: service, local: LOCAL_DOMAIN.to_owned() };
        let service_type_with_local = ServiceTypeWithLocal::from(
            join_dot_strings(&tracked_service.service_name, &tracked_service.local),
        );
        self.tracked_services.insert(service_type_with_local, tracked_service);
    }

    /// The entries of the services last reported list each service of
    /// `self@.last_snapshot` once, with its details.
    pub proof fn lemma_snapshot_entries(&self)
        requires
            self.wf(),
        ensures
            self@.last_snapshot.dom().finite(),
            self.last_snapshot_entries().len() == self@.last_snapshot.len(),
            forall|i: int|
                0 <= i < self.last_snapshot_entries().len() ==> #[trigger] self@.last_snapshot.contains_key(
                    self.last_snapshot_entries()[i].0@,
                ) && self@.last_snapshot[self.last_snapshot_entries()[i].0@]
                    == self.last_snapshot_entries()[i].1@,
            forall|i: int, j: int|
                0 <= i < self.last_snapshot_entries().len() && 0 <= j
                    < self.last_snapshot_entries().len() && i != j ==> (
                #[trigger] self.last_snapshot_entries()[i]).0@ != (
                #[trigger] self.last_snapshot_entries()[j]).0@,
            forall|fq: FQServiceNameView| #[trigger]
                self@.last_snapshot.contains_key(fq) ==> exists|i: int|
                    0 <= i < self.last_snapshot_entries().len()
                        && self.last_snapshot_entries()[i].0@ == fq,
    {
        self.last_snap_shot.lemma_view();
    }

    /// The entries of the watched service types list each type of
    /// `self@.watched` once.
    pub proof fn lemma_tracked_entries(&self)
        requires
            self.wf(),
        ensures
            self@.watched.finite(),
            self.tracked_entries().len() == self@.watched.len(),
            forall|i: int|
                0 <= i < self.tracked_entries().len() ==> #[trigger] self@.watched.contains(
                    self.tracked_entries()[i].0@,
                ),
            forall|i: int, j: int|
                0 <= i < self.tracked_entries().len() && 0 <= j < self.tracked_entries().len() && i
                    != j ==> (#[trigger] self.tracked_entries()[i]).0@ != (
                #[trigger] self.tracked_entries()[j]).0@,
            forall|t: Seq<char>| #[trigger]
                self@.watched.contains(t) ==> exists|i: int|
                    0 <= i < self.tracked_entries().len() && self.tracked_entries()[i].0@ == t,
    {
        self.tracked_services.lemma_view();
        assert forall|t: Seq<char>| #[trigger] self@.watched.contains(t) implies exists|i: int|
            0 <= i < self.tracked_entries().len() && self.tracked_entries()[i].0@ == t by {
            assert(self.tracked_services@.dom().contains(t));
            assert(self.tracked_services@.contains_key(t));
            let i = choose|i: int|
                0 <= i < self.tracked_services.entries().len()
                    && self.tracked_services.entries()[i].0@ == t;
            assert(self.tracked_entries()[i].0@ == t);
        }
    }

    /// The records of the attention list were received at instants the state
    /// machine handles, and the services last reported are exactly those of
    /// the kept snapshot: comparing it with itself gives no command.
    pub proof fn lemma_reported(&self)
        requires
            self.wf(),
        ensures
            records_in_range(self@.attention),
            records_on_schedule(self@.attention),
            changes(self.last_snapshot_entries(), self@.last_snapshot) == Seq::<CommandView>::empty(),
            deletions(self.last_snapshot_entries(), self@.last_snapshot) == Seq::<CommandView>::empty(),
    {
        self.last_snap_shot.lemma_view();
        let entries = self.last_snapshot_entries();
        assert forall|i: int|
            0 <= i < entries.len() implies #[trigger] self@.last_snapshot.contains_key(entries[i].0@)
            && self@.last_snapshot[entries[i].0@] == entries[i].1@ by {}
        lemma_no_changes(entries, self@.last_snapshot);
        lemma_no_deletions(entries, self@.last_snapshot);
        let c = self.attention_list.contents();
        assert forall|id: PayloadIdentity| #[trigger] self@.attention.contains_key(id) implies self@.attention[id].created_on
            <= MAX_INSTANT && on_schedule(self@.attention[id]) by {
            assert(identity_map(c).contains_key(id));
            let y = crate::index_min_pq::entry_with_identity(c, id);
            assert(c.contains(y));
            assert(identity_map(c)[id] == y);
        }
    }

    /// The store of the records received and not expired.
    pub fn store(&self) -> (s: &Store)
        ensures
            s@ == self@.store,
    {
        &self.store
    }

    /// The commands not yet handed to the driver, in order.
    pub closed spec fn pending_commands(&self) -> Seq<CommandView> {
        commands_view(self.commands@)
    }

    /// The number of commands not yet handed to the driver: none, between calls.
    pub fn pending_command_count(&self) -> (n: usize)
        ensures
            n == self.pending_commands().len(),
            self.wf() ==> n == 0,
    {
        self.commands.len()
    }

    /// Sets the current instant, in nanoseconds on a monotonic clock.
    pub fn set_time(&mut self, now: u64)
        requires
            old(self).wf(),
            now <= MAX_INSTANT,
        ensures
            final(self).wf(),
            final(self)@ == (ZeroConfigView { now, ..old(self)@ }),
    {
        self.now = now;
    }
}



/// The instant, in nanoseconds, at which a record created at `created_on` with a
/// lifetime of `ttl` seconds reaches `permille` thousandths of its lifetime.
fn lifetime_point(created_on: u64, ttl: u32, permille: u64) -> (t: u64)
    requires
        created_on <= MAX_INSTANT,
        permille <= 1000,
    ensures
        t == instant_at(created_on as int, ttl as int, permille as int),
{
    proof {
        assert((ttl as u64) * permille <= 4_294_967_296u64 * 1000) by (nonlinear_arith)
            requires
                permille <= 1000,
                ttl <= 4_294_967_295u64,
        ;
    }
    created_on + (ttl as u64) * permille * NANOS_PER_MILLI
}

/// Where record `element` moves in its lifecycle at `now`, if it needs attention.
fn lifecycle_step(element: &RR, now: u64) -> (s: Option<RRLifecycle>)
    requires
        element.created_on <= MAX_INSTANT,
    ensures
        s == probe_state(element@, now),
{
    let created = element.created_on;
    let ttl = element.ttl;
    // Is the RR expired?
    if ttl == 0 || now >= lifetime_point(created, ttl, 1000) {
        return None;
    }
    // Need probing
    if now >= lifetime_point(created, ttl, 950) {
        Some(RRLifecycle::Probed95)
    } else if now >= lifetime_point(created, ttl, 900) {
        Some(RRLifecycle::Probed90)
    } else if now >= lifetime_point(created, ttl, 850) {
        Some(RRLifecycle::Probed85)
    } else if now >= lifetime_point(created, ttl, 800) {
        Some(RRLifecycle::Probed80)
    } else {
        // Something very wrong has happened. This should never happen.
        None
    }
}

/// Builds the text of a DNS name from its labels.
fn join_labels(labels: &Vec<String>) -> (s: String)
    ensures
        s@ == labels_text(label_views(labels@)),
{
    if labels.len() == 0 {
        return String::new();
    }
    let mut s = labels[0].clone();
    let mut i: usize = 1;
    proof {
        assert(label_views(labels@.take(1)) =~= seq![labels@[0]@]);
    }
    while i < labels.len()
        invariant
            1 <= i <= labels@.len(),
            s@ == labels_text(label_views(labels@.take(i as int))),
        decreases labels@.len() - i,
    {
        proof {
            reveal_strlit(".");
            assert(label_views(labels@.take(i + 1)).drop_last() =~= label_views(
                labels@.take(i as int),
            ));
        }
        s.append(".");
        s.append(labels[i].as_str());
        i = i + 1;
    }
    proof {
        assert(labels@.take(labels@.len() as int) =~= labels@);
    }
    s
}

/// Builds the attributes of a TXT record: a key without a value maps to the empty text.
fn txt_attributes(attributes: &Vec<(String, Option<String>)>) -> (t: TxtAttributes)
    ensures
        t.wf(),
        t@ == txt_text(attributes_view(attributes@)),
{
    let mut t: TxtAttributes = VecMap::new();
    let mut i: usize = 0;
    while i < attributes.len()
        invariant
            i <= attributes@.len(),
            t.wf(),
            t@ == txt_text(attributes_view(attributes@.take(i as int))),
        decreases attributes@.len() - i,
    {
        proof {
            assert(attributes@.take(i + 1).drop_last() =~= attributes@.take(i as int));
            assert(attributes_view(attributes@.take(0)) =~= Map::empty());
        }
        let (key, option) = &attributes[i];
        let value = match option {
            Some(v) => v.clone(),
            None => String::new(),
        };
        t.insert(key.clone(), value);
        proof {
            assert(t@ =~= txt_text(attributes_view(attributes@.take(i + 1))));
        }
        i = i + 1;
    }
    proof {
        assert(attributes@.take(attributes@.len() as int) =~= attributes@);
    }
    t
}

/// Builds the string `a.b`.
fn join_dot_strings(a: &String, b: &String) -> (s: String)
    ensures
        s@ == dotted(a@, b@),
{
    let mut s = a.clone();
    proof {
        reveal_strlit(".");
    }
    s.append(".");
    s.append(b.as_str());
    s
}

} // verus!
