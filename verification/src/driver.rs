//! What the driver does with each command of the state machine: a query is
//! encoded as a mDNS packet to send on every interface, a service change is
//! reported to adb.
use crate::text::{lemma_text_lt_irreflexive, lemma_text_lt_total, lemma_text_lt_transitive, text_less, text_lt};
use crate::vec_map::{keys_unique, lemma_map_of_entries, map_of, KeyEq};
use crate::zero_config::{CommandView, QueryClass, QueryType, ZeroConfigCommand};
use vstd::prelude::*;

verus! {

/// The bytes of a DNS query packet with id `id` and a single question for the
/// name written `query` (dots separate labels, `\` escapes), of type `qtype`
/// and class `qclass`, with a unicast response requested or not as
/// `unicast_response` says; `None` where the name, type or class is not valid
/// or the packet cannot be built.
pub uninterp spec fn dns_query_packet(
    id: u16,
    query: Seq<char>,
    qtype: u16,
    qclass: u16,
    unicast_response: bool,
) -> Option<Seq<u8>>;

/// Encodes a query packet with `simple_dns`: `Name::new`, `QTYPE::try_from`,
/// `QCLASS::try_from`, `Packet::new_query(id)` with one `Question`, then
/// `Packet::build_bytes_vec`. The contract claims only that the result is the
/// named function of the arguments.
#[verifier::external_body]
fn encode_query(id: u16, query: &str, qtype: u16, qclass: u16, unicast_response: bool) -> (r:
    Option<Vec<u8>>)
    ensures
        match r {
            Some(v) => dns_query_packet(id, query@, qtype, qclass, unicast_response) == Some(v@),
            None => dns_query_packet(id, query@, qtype, qclass, unicast_response) is None,
        },
{
    let name = simple_dns::Name::new(query).ok()?;
    let qtype = simple_dns::QTYPE::try_from(qtype).ok()?;
    let qclass = simple_dns::QCLASS::try_from(qclass).ok()?;
    let mut packet = simple_dns::Packet::new_query(id);
    packet.questions.push(simple_dns::Question::new(name, qtype, qclass, unicast_response));
    packet.build_bytes_vec().ok()
}

/// The id of the query packets: mDNS queries carry id 0 (RFC 6762, 18.1).
pub const QUERY_ID: u16 = 0;

/// Queries ask for multicast responses: the unicast-response bit is not set.
pub const UNICAST_RESPONSE: bool = false;

/// The DNS code of a query type.
pub open spec fn qtype_code(t: QueryType) -> u16 {
    match t {
        QueryType::A => 1,
        QueryType::AAAA => 28,
        QueryType::SRV => 33,
        QueryType::TXT => 16,
        QueryType::PTR => 12,
        QueryType::ANY => 255,
    }
}

/// The DNS code of a query class.
pub open spec fn qclass_code(c: QueryClass) -> u16 {
    match c {
        QueryClass::ANY => 255,
    }
}

impl QueryType {
    /// The DNS code of the query type.
    pub fn code(&self) -> (c: u16)
        ensures
            c == qtype_code(*self),
    {
        match self {
            QueryType::A => 1,
            QueryType::AAAA => 28,
            QueryType::SRV => 33,
            QueryType::TXT => 16,
            QueryType::PTR => 12,
            QueryType::ANY => 255,
        }
    }
}

impl QueryClass {
    /// The DNS code of the query class.
    pub fn code(&self) -> (c: u16)
        ensures
            c == qclass_code(*self),
    {
        match self {
            QueryClass::ANY => 255,
        }
    }
}

/// The packet that asks the question of a query command, if it can be built.
pub fn query_packet(query: &String, qtype: QueryType, qclass: QueryClass) -> (r: Option<Vec<u8>>)
    ensures
        match r {
            Some(v) => dns_query_packet(
                QUERY_ID,
                query@,
                qtype_code(qtype),
                qclass_code(qclass),
                UNICAST_RESPONSE,
            ) == Some(v@),
            None => dns_query_packet(
                QUERY_ID,
                query@,
                qtype_code(qtype),
                qclass_code(qclass),
                UNICAST_RESPONSE,
            ) is None,
        },
{
    encode_query(QUERY_ID, query.as_str(), qtype.code(), qclass.code(), UNICAST_RESPONSE)
}

/// The state of an update event reported to adb.
#[derive(Debug, PartialEq, Eq, Clone, Copy)]
pub enum AdbMdnsUpdate {
    /// A service was created
    Create,
    /// A service was updated
    Update,
    /// A service was deleted
    Delete,
}

/// The level of a log message handed to adb.
#[derive(Debug, PartialEq, Eq, Clone, Copy)]
pub enum AdbLogLevel {
    /// The lowest log level, for verbose tracing.
    Trace,
    /// Log level for debugging information.
    Debug,
    /// Log level for general informational messages.
    Info,
    /// Log level for warnings.
    Warn,
    /// The highest log level, for errors.
    Error,
}

/// What the driver does for a command.
#[derive(Debug)]
pub enum DriverAction {
    /// Send this packet on every interface.
    SendQuery { packet: Vec<u8> },
    /// The query cannot be encoded: nothing is sent.
    SkipQuery,
    /// Report a service change to adb.
    Notify {
        update: AdbMdnsUpdate,
        instance_name: String,
        service_type: String,
        ipv4s: Vec<u32>,
        ipv6s: Vec<u128>,
        port: u16,
        txt: Vec<(String, String)>,
    },
    /// Flush the state machine and restart on the current interfaces.
    Restart,
}

/// The addresses `v` are the set `s`, each once.
pub open spec fn lists_set<A>(v: Seq<A>, s: Set<A>) -> bool {
    &&& v.no_duplicates()
    &&& v.to_set() == s
}

/// The keys of the attributes `v` come in increasing order of texts.
pub open spec fn keys_sorted(v: Seq<(String, String)>) -> bool {
    forall|i: int, j: int| 0 <= i < j < v.len() ==> text_lt(#[trigger] v[i].0@, #[trigger] v[j].0@)
}

/// The TXT attributes `v` are the map `m`, each key once, in increasing order
/// of keys.
pub open spec fn lists_attributes(v: Seq<(String, String)>, m: Map<Seq<char>, Seq<char>>) -> bool {
    &&& keys_unique(v)
    &&& map_of(v) == m
    &&& keys_sorted(v)
}

/// Two lists of the same entries, each with unique keys, stand for the same map.
proof fn lemma_same_entries_same_map(s1: Seq<(String, String)>, s2: Seq<(String, String)>)
    requires
        keys_unique(s1),
        keys_unique(s2),
        s1.to_multiset() == s2.to_multiset(),
    ensures
        map_of(s1) == map_of(s2),
{
    broadcast use vstd::seq_lib::group_to_multiset_ensures;

    lemma_map_of_entries(s1);
    lemma_map_of_entries(s2);
    assert forall|k: Seq<char>| #[trigger] map_of(s1).contains_key(k) implies map_of(s2).contains_key(
        k,
    ) && map_of(s2)[k] == map_of(s1)[k] by {
        let i = choose|i: int| 0 <= i < s1.len() && s1[i].0@ == k;
        assert(s1.contains(s1[i]));
        assert(s2.to_multiset().count(s1[i]) > 0);
        assert(s2.contains(s1[i]));
        let j = choose|j: int| 0 <= j < s2.len() && s2[j] == s1[i];
        assert(map_of(s2).contains_key(s2[j].0@));
    }
    assert forall|k: Seq<char>| #[trigger] map_of(s2).contains_key(k) implies map_of(s1).contains_key(
        k,
    ) by {
        let j = choose|j: int| 0 <= j < s2.len() && s2[j].0@ == k;
        assert(s2.contains(s2[j]));
        assert(s1.to_multiset().count(s2[j]) > 0);
        assert(s1.contains(s2[j]));
        let i = choose|i: int| 0 <= i < s1.len() && s1[i] == s2[j];
        assert(map_of(s1).contains_key(s1[i].0@));
    }
    assert(map_of(s1) =~= map_of(s2));
}

/// Puts attributes with unique keys in increasing order of keys.
fn sort_attributes(v: Vec<(String, String)>) -> (r: Vec<(String, String)>)
    requires
        keys_unique(v@),
    ensures
        r@.to_multiset() == v@.to_multiset(),
        keys_sorted(r@),
        keys_unique(r@),
{
    broadcast use vstd::seq_lib::group_to_multiset_ensures;

    let ghost all = v@;
    let mut rest = v;
    let mut r: Vec<(String, String)> = Vec::new();
    while rest.len() > 0
        invariant
            keys_sorted(r@),
            keys_unique(rest@),
            forall|i: int, j: int|
                0 <= i < r@.len() && 0 <= j < rest@.len() ==> (#[trigger] r@[i]).0@ != (
                #[trigger] rest@[j]).0@,
            r@.to_multiset().add(rest@.to_multiset()) == all.to_multiset(),
        decreases rest@.len(),
    {
        let ghost before = rest@;
        let x = rest.pop().unwrap();
        proof {
            assert(before =~= rest@.push(x));
        }
        let mut i: usize = 0;
        while i < r.len() && !text_less(x.0.as_str(), r[i].0.as_str())
            invariant
                i <= r@.len(),
                forall|k: int| 0 <= k < i ==> text_lt((#[trigger] r@[k]).0@, x.0@),
                forall|k: int| 0 <= k < r@.len() ==> (#[trigger] r@[k]).0@ != x.0@,
            decreases r@.len() - i,
        {
            proof {
                lemma_text_lt_total(x.0@, r@[i as int].0@);
            }
            i = i + 1;
        }
        let ghost old_r = r@;
        r.insert(i, x);
        proof {
            assert(r@ == old_r.insert(i as int, x));
            vstd::seq_lib::to_multiset_insert(old_r, i as int, x);
            vstd::seq_lib::to_multiset_build(rest@, x);
            assert(before == rest@.push(x));
            assert(before.to_multiset() =~= rest@.to_multiset().insert(x));
            assert(r@.to_multiset().add(rest@.to_multiset()) =~= old_r.to_multiset().add(
                before.to_multiset(),
            ));
            assert forall|a: int, b: int| 0 <= a < b < r@.len() implies text_lt(
                #[trigger] r@[a].0@,
                #[trigger] r@[b].0@,
            ) by {
                if b < i {
                    assert(r@[a] == old_r[a] && r@[b] == old_r[b]);
                } else if b == i {
                    assert(r@[a] == old_r[a]);
                } else if a == i {
                    assert(r@[b] == old_r[b - 1]);
                    assert(i < old_r.len());
                    assert(text_lt(x.0@, old_r[i as int].0@));
                    if b - 1 > i {
                        lemma_text_lt_transitive(x.0@, old_r[i as int].0@, old_r[b - 1].0@);
                    }
                } else if a < i {
                    assert(r@[a] == old_r[a] && r@[b] == old_r[b - 1]);
                } else {
                    assert(r@[a] == old_r[a - 1] && r@[b] == old_r[b - 1]);
                }
            }
            assert forall|a: int, b: int|
                0 <= a < r@.len() && 0 <= b < rest@.len() implies (#[trigger] r@[a]).0@ != (
                #[trigger] rest@[b]).0@ by {
                assert(before[b] == rest@[b]);
                assert(before[before.len() - 1] == x);
                if a < i {
                    assert(r@[a] == old_r[a]);
                } else if a > i {
                    assert(r@[a] == old_r[a - 1]);
                }
            }
        }
    }
    proof {
        assert(rest@ =~= Seq::<(String, String)>::empty());
        assert forall|a: int, b: int|
            0 <= a < r@.len() && 0 <= b < r@.len() && a != b implies r@[a].0@ != r@[b].0@ by {
            if a < b {
                assert(text_lt(r@[a].0@, r@[b].0@));
                lemma_text_lt_irreflexive(r@[a].0@);
            } else {
                assert(text_lt(r@[b].0@, r@[a].0@));
                lemma_text_lt_irreflexive(r@[b].0@);
            }
        }
    }
    r
}

/// The notification action `a` reports `update` of instance `instance_name` of
/// `service_type` with these addresses, port and attributes.
pub open spec fn is_notify(
    a: DriverAction,
    update: AdbMdnsUpdate,
    instance_name: Seq<char>,
    service_type: Seq<char>,
    ipv4s: Set<u32>,
    ipv6s: Set<u128>,
    port: u16,
    txt: Map<Seq<char>, Seq<char>>,
) -> bool {
    match a {
        DriverAction::Notify { update: u, instance_name: i, service_type: t, ipv4s: v4, ipv6s: v6, port: p, txt: x } => {
            &&& u == update
            &&& i@ == instance_name
            &&& t@ == service_type
            &&& lists_set(v4@, ipv4s)
            &&& lists_set(v6@, ipv6s)
            &&& p == port
            &&& lists_attributes(x@, txt)
        },
        _ => false,
    }
}

/// What the driver does for a command `c`.
pub open spec fn plans(c: CommandView, a: DriverAction) -> bool {
    match c {
        CommandView::DnsQuery { query, qtype, qclass } => match dns_query_packet(
            QUERY_ID,
            query,
            qtype_code(qtype),
            qclass_code(qclass),
            UNICAST_RESPONSE,
        ) {
            Some(bytes) => a matches DriverAction::SendQuery { packet } && packet@ == bytes,
            None => a is SkipQuery,
        },
        CommandView::CreateService { instance_name, service_type, ipv4s, ipv6s, port, txt } =>
            is_notify(a, AdbMdnsUpdate::Create, instance_name, service_type, ipv4s, ipv6s, port, txt),
        CommandView::UpdateService { instance_name, service_type, ipv4s, ipv6s, port, txt } =>
            is_notify(a, AdbMdnsUpdate::Update, instance_name, service_type, ipv4s, ipv6s, port, txt),
        CommandView::DeleteService { instance_name, service_type } => is_notify(
            a,
            AdbMdnsUpdate::Delete,
            instance_name,
            service_type,
            Set::empty(),
            Set::empty(),
            0,
            Map::empty(),
        ),
        CommandView::Restart => a is Restart,
    }
}

/// The addresses of a set, as a vector.
fn addresses<K: KeyEq>(s: &crate::vec_map::VecSet<K>) -> (v: Vec<K>)
    requires
        s.wf(),
    ensures
        v@.len() == s@.len(),
        forall|i: int| 0 <= i < v@.len() ==> #[trigger] s@.contains(v@[i]@),
        forall|k: K::V| #[trigger] s@.contains(k) ==> exists|i: int| 0 <= i < v@.len() && v@[i]@ == k,
        forall|i: int, j: int|
            #![trigger v@[i], v@[j]]
            0 <= i < v@.len() && 0 <= j < v@.len() && i != j ==> v@[i]@ != v@[j]@,
{
    s.to_vec()
}

/// A vector of plain numbers that lists each element of a set once.
proof fn lemma_lists_set<A: KeyEq<V = A>>(v: Seq<A>, s: Set<A>)
    requires
        forall|i: int| 0 <= i < v.len() ==> #[trigger] s.contains(v[i]@),
        forall|k: A| #[trigger] s.contains(k) ==> exists|i: int| 0 <= i < v.len() && v[i]@ == k,
        forall|i: int, j: int|
            #![trigger v[i], v[j]]
            0 <= i < v.len() && 0 <= j < v.len() && i != j ==> v[i]@ != v[j]@,
        forall|a: A| #[trigger] a@ == a,
    ensures
        lists_set(v, s),
{
    assert forall|i: int, j: int| 0 <= i < v.len() && 0 <= j < v.len() && i != j implies v[i]
        != v[j] by {
        assert(v[i]@ != v[j]@);
    }
    assert(v.to_set() =~= s) by {
        assert forall|k: A| #[trigger] s.contains(k) implies v.to_set().contains(k) by {
            let i = choose|i: int| 0 <= i < v.len() && v[i]@ == k;
            assert(v[i] == k);
            assert(v.contains(k));
        }
        assert forall|k: A| #[trigger] v.to_set().contains(k) implies s.contains(k) by {
            assert(v.contains(k));
            let i = choose|i: int| 0 <= i < v.len() && v[i] == k;
            assert(s.contains(v[i]@));
        }
    }
}

/// The attributes of a TXT record, each once, in increasing order of keys.
fn sorted_attributes(txt: &crate::rr::TxtAttributes) -> (v: Vec<(String, String)>)
    requires
        txt.wf(),
    ensures
        lists_attributes(v@, txt@),
{
    let listed = txt.to_vec();
    let v = sort_attributes(listed);
    proof {
        lemma_same_entries_same_map(v@, listed@);
    }
    v
}

/// Decides what the driver does for a command.
pub fn plan_command(command: &ZeroConfigCommand) -> (a: DriverAction)
    requires
        match command {
            ZeroConfigCommand::CreateService { ipv4s, ipv6s, txt, .. } => ipv4s.wf() && ipv6s.wf()
                && txt.wf(),
            ZeroConfigCommand::UpdateService { ipv4s, ipv6s, txt, .. } => ipv4s.wf() && ipv6s.wf()
                && txt.wf(),
            _ => true,
        },
    ensures
        plans(command@, a),
{
    match command {
        ZeroConfigCommand::DnsQuery { query, qtype, qclass } => match query_packet(
            query,
            *qtype,
            *qclass,
        ) {
            Some(packet) => DriverAction::SendQuery { packet },
            None => DriverAction::SkipQuery,
        },
        ZeroConfigCommand::CreateService { instance_name, service_type, ipv4s, ipv6s, port, txt } => {
            let v4 = addresses(ipv4s);
            let v6 = addresses(ipv6s);
            proof {
                lemma_lists_set(v4@, ipv4s@);
                lemma_lists_set(v6@, ipv6s@);
            }
            DriverAction::Notify {
                update: AdbMdnsUpdate::Create,
                instance_name: instance_name.clone(),
                service_type: service_type.clone(),
                ipv4s: v4,
                ipv6s: v6,
                port: *port,
                txt: sorted_attributes(txt),
            }
        },
        ZeroConfigCommand::UpdateService { instance_name, service_type, ipv4s, ipv6s, port, txt } => {
            let v4 = addresses(ipv4s);
            let v6 = addresses(ipv6s);
            proof {
                lemma_lists_set(v4@, ipv4s@);
                lemma_lists_set(v6@, ipv6s@);
            }
            DriverAction::Notify {
                update: AdbMdnsUpdate::Update,
                instance_name: instance_name.clone(),
                service_type: service_type.clone(),
                ipv4s: v4,
                ipv6s: v6,
                port: *port,
                txt: sorted_attributes(txt),
            }
        },
        ZeroConfigCommand::DeleteService { instance_name, service_type } => {
            let v4: Vec<u32> = Vec::new();
            let v6: Vec<u128> = Vec::new();
            let txt: Vec<(String, String)> = Vec::new();
            proof {
                assert(v4@.to_set() =~= Set::<u32>::empty());
                assert(v6@.to_set() =~= Set::<u128>::empty());
                assert(map_of(txt@) =~= Map::<Seq<char>, Seq<char>>::empty());
            }
            DriverAction::Notify {
                update: AdbMdnsUpdate::Delete,
                instance_name: instance_name.clone(),
                service_type: service_type.clone(),
                ipv4s: v4,
                ipv6s: v6,
                port: 0,
                txt,
            }
        },
        ZeroConfigCommand::Restart {  } => DriverAction::Restart,
    }
}


/// The DNS codes of the query types and class are the standard ones (RFC 1035,
/// RFC 3596, RFC 2782): A is 1, AAAA 28, SRV 33, TXT 16, PTR 12, ANY 255, and
/// the class ANY 255; no two query types share a code.
pub proof fn lemma_query_codes(t: QueryType, u: QueryType, c: QueryClass)
    ensures
        t == QueryType::A ==> qtype_code(t) == 1,
        t == QueryType::AAAA ==> qtype_code(t) == 28,
        t == QueryType::SRV ==> qtype_code(t) == 33,
        t == QueryType::TXT ==> qtype_code(t) == 16,
        t == QueryType::PTR ==> qtype_code(t) == 12,
        t == QueryType::ANY ==> qtype_code(t) == 255,
        qtype_code(t) == qtype_code(u) ==> t == u,
        qclass_code(c) == 255,
{
}

} // verus!
