//! The store of received resource records.
//!
//! All records received on the mDNS port are kept here; they leave when they
//! expire. A snapshot of the store lists the services that can be reached, and
//! comparing two snapshots tells which services were created, updated or deleted.
use crate::rr::{fq_name_of, FQServiceName, FQServiceNameView, PayloadView, RRPayload, TxtAttributes};
use crate::vec_map::{KeyEq, VecMap, VecSet};
use vstd::prelude::*;

verus! {

/// Every set of `m` is finite and not empty.
pub open spec fn sets_filled<A>(m: Map<Seq<char>, Set<A>>) -> bool {
    forall|n: Seq<char>| #[trigger] m.contains_key(n) ==> m[n].finite() && m[n].len() > 0
}

/// The contents of a store, as plain values.
pub struct StoreView {
    /// The instances that PTR records point to.
    pub ptrs: Set<FQServiceNameView>,
    /// For each instance full name, the target host and port of its SRV record.
    pub srvs: Map<Seq<char>, (Seq<char>, u16)>,
    /// For each host name, its IPv4 addresses.
    pub ipv4s: Map<Seq<char>, Set<u32>>,
    /// For each host name, its IPv6 addresses.
    pub ipv6s: Map<Seq<char>, Set<u128>>,
    /// For each instance full name, the attributes of its TXT record.
    pub txts: Map<Seq<char>, Map<Seq<char>, Seq<char>>>,
}

/// The store after adding a record with payload `p`.
pub open spec fn store_add(s: StoreView, p: PayloadView) -> StoreView {
    match p {
        PayloadView::A { name, addr } => StoreView {
            ipv4s: s.ipv4s.insert(
                name,
                if s.ipv4s.contains_key(name) {
                    s.ipv4s[name]
                } else {
                    Set::empty()
                }.insert(addr),
            ),
            ..s
        },
        PayloadView::AAAA { name, addr } => StoreView {
            ipv6s: s.ipv6s.insert(
                name,
                if s.ipv6s.contains_key(name) {
                    s.ipv6s[name]
                } else {
                    Set::empty()
                }.insert(addr),
            ),
            ..s
        },
        PayloadView::SRV { name, target, port } => StoreView {
            srvs: s.srvs.insert(fq_name_of(name), (target, port)),
            ..s
        },
        PayloadView::TXT { name, attributes } => StoreView {
            txts: s.txts.insert(fq_name_of(name), attributes),
            ..s
        },
        PayloadView::PTR { pointer, .. } => StoreView { ptrs: s.ptrs.insert(pointer), ..s },
    }
}

/// `m` without `addr` in the set of `name`; a set left empty goes away.
pub open spec fn without_addr<A>(m: Map<Seq<char>, Set<A>>, name: Seq<char>, addr: A) -> Map<
    Seq<char>,
    Set<A>,
> {
    if !m.contains_key(name) {
        m
    } else if m[name].remove(addr).len() == 0 {
        m.remove(name)
    } else {
        m.insert(name, m[name].remove(addr))
    }
}

/// The store after removing a record with payload `p`.
pub open spec fn store_remove(s: StoreView, p: PayloadView) -> StoreView {
    match p {
        PayloadView::A { name, addr } => StoreView { ipv4s: without_addr(s.ipv4s, name, addr), ..s },
        PayloadView::AAAA { name, addr } => StoreView {
            ipv6s: without_addr(s.ipv6s, name, addr),
            ..s
        },
        PayloadView::SRV { name, .. } => StoreView { srvs: s.srvs.remove(fq_name_of(name)), ..s },
        PayloadView::TXT { name, .. } => StoreView { txts: s.txts.remove(fq_name_of(name)), ..s },
        PayloadView::PTR { pointer, .. } => StoreView { ptrs: s.ptrs.remove(pointer), ..s },
    }
}

/// The store holds the record with payload `p`: the address in the set of its
/// name, or an entry under its name.
pub open spec fn store_holds(s: StoreView, p: PayloadView) -> bool {
    match p {
        PayloadView::A { name, addr } => s.ipv4s.contains_key(name) && s.ipv4s[name].contains(addr),
        PayloadView::AAAA { name, addr } => s.ipv6s.contains_key(name) && s.ipv6s[name].contains(
            addr,
        ),
        PayloadView::SRV { name, .. } => s.srvs.contains_key(fq_name_of(name)),
        PayloadView::TXT { name, .. } => s.txts.contains_key(fq_name_of(name)),
        PayloadView::PTR { pointer, .. } => s.ptrs.contains(pointer),
    }
}

/// Adding an address keeps every set finite and not empty.
proof fn lemma_sets_filled_add<A>(m: Map<Seq<char>, Set<A>>, name: Seq<char>, addr: A)
    requires
        sets_filled(m),
    ensures
        sets_filled(
            m.insert(
                name,
                if m.contains_key(name) {
                    m[name]
                } else {
                    Set::empty()
                }.insert(addr),
            ),
        ),
{
    let set = if m.contains_key(name) {
        m[name]
    } else {
        Set::empty()
    }.insert(addr);
    assert(set.finite());
    assert(set.contains(addr));
    assert(set.len() > 0) by {
        if set.len() == 0 {
            set.lemma_len0_is_empty();
        }
    }
}

/// Removing an address keeps every set finite and not empty.
proof fn lemma_sets_filled_without<A>(m: Map<Seq<char>, Set<A>>, name: Seq<char>, addr: A)
    requires
        sets_filled(m),
    ensures
        sets_filled(without_addr(m, name, addr)),
{
}

/// A store whose sets are all finite and not empty keeps them so through any
/// addition or removal.
pub proof fn lemma_store_sets_filled(s: StoreView, p: PayloadView)
    requires
        sets_filled(s.ipv4s),
        sets_filled(s.ipv6s),
    ensures
        sets_filled(store_add(s, p).ipv4s),
        sets_filled(store_add(s, p).ipv6s),
        sets_filled(store_remove(s, p).ipv4s),
        sets_filled(store_remove(s, p).ipv6s),
{
    match p {
        PayloadView::A { name, addr } => {
            lemma_sets_filled_add(s.ipv4s, name, addr);
            lemma_sets_filled_without(s.ipv4s, name, addr);
        },
        PayloadView::AAAA { name, addr } => {
            lemma_sets_filled_add(s.ipv6s, name, addr);
            lemma_sets_filled_without(s.ipv6s, name, addr);
        },
        _ => {},
    }
}

/// Forgetting a payload that the store did not hold undoes recording it.
pub proof fn lemma_remove_undoes_add(s: StoreView, p: PayloadView)
    requires
        sets_filled(s.ipv4s),
        sets_filled(s.ipv6s),
        !store_holds(s, p),
    ensures
        store_remove(store_add(s, p), p) == s,
{
    match p {
        PayloadView::A { name, addr } => {
            lemma_without_added(s.ipv4s, name, addr);
        },
        PayloadView::AAAA { name, addr } => {
            lemma_without_added(s.ipv6s, name, addr);
        },
        PayloadView::SRV { name, .. } => {
            assert(store_remove(store_add(s, p), p).srvs =~= s.srvs);
        },
        PayloadView::TXT { name, .. } => {
            assert(store_remove(store_add(s, p), p).txts =~= s.txts);
        },
        PayloadView::PTR { pointer, .. } => {
            assert(store_remove(store_add(s, p), p).ptrs =~= s.ptrs);
        },
    }
}

/// Taking out an address that was just put in a map of filled sets, where it
/// was not, gives the map back.
proof fn lemma_without_added<A>(m: Map<Seq<char>, Set<A>>, name: Seq<char>, addr: A)
    requires
        sets_filled(m),
        !(m.contains_key(name) && m[name].contains(addr)),
    ensures
        without_addr(
            m.insert(
                name,
                if m.contains_key(name) {
                    m[name]
                } else {
                    Set::empty()
                }.insert(addr),
            ),
            name,
            addr,
        ) == m,
{
    let old_set = if m.contains_key(name) {
        m[name]
    } else {
        Set::empty()
    };
    let added = m.insert(name, old_set.insert(addr));
    assert(old_set.insert(addr).remove(addr) =~= old_set);
    if m.contains_key(name) {
        assert(without_addr(added, name, addr) =~= m);
    } else {
        assert(old_set.len() == 0);
        assert(without_addr(added, name, addr) =~= m);
    }
}

/// Recording a payload twice is recording it once.
pub proof fn lemma_add_idempotent(s: StoreView, p: PayloadView)
    ensures
        store_add(store_add(s, p), p) == store_add(s, p),
{
    match p {
        PayloadView::A { name, addr } => {
            let once = store_add(s, p).ipv4s[name];
            assert(once.insert(addr) =~= once);
            assert(store_add(store_add(s, p), p).ipv4s =~= store_add(s, p).ipv4s);
        },
        PayloadView::AAAA { name, addr } => {
            let once = store_add(s, p).ipv6s[name];
            assert(once.insert(addr) =~= once);
            assert(store_add(store_add(s, p), p).ipv6s =~= store_add(s, p).ipv6s);
        },
        PayloadView::SRV { name, .. } => {
            assert(store_add(store_add(s, p), p).srvs =~= store_add(s, p).srvs);
        },
        PayloadView::TXT { name, .. } => {
            assert(store_add(store_add(s, p), p).txts =~= store_add(s, p).txts);
        },
        PayloadView::PTR { pointer, .. } => {
            assert(store_add(store_add(s, p), p).ptrs =~= store_add(s, p).ptrs);
        },
    }
}

/// After a payload is recorded the store holds it, and after it is forgotten
/// the store no longer does.
pub proof fn lemma_add_remove_holds(s: StoreView, p: PayloadView)
    ensures
        store_holds(store_add(s, p), p),
        !store_holds(store_remove(s, p), p),
{
}

/// What is known of a service instance that can be reached.
#[derive(Debug)]
pub struct InstanceDetails {
    pub port: u16,
    pub ipv4s: VecSet<u32>,
    pub ipv6s: VecSet<u128>,
    pub txt: TxtAttributes,
}

/// What is known of a service instance, as plain values.
pub struct InstanceDetailsView {
    pub port: u16,
    pub ipv4s: Set<u32>,
    pub ipv6s: Set<u128>,
    pub txt: Map<Seq<char>, Seq<char>>,
}

impl View for InstanceDetails {
    type V = InstanceDetailsView;

    open spec fn view(&self) -> InstanceDetailsView {
        InstanceDetailsView {
            port: self.port,
            ipv4s: self.ipv4s@,
            ipv6s: self.ipv6s@,
            txt: self.txt@,
        }
    }
}

impl InstanceDetails {
    /// The sets and attributes are well formed.
    pub open spec fn wf(&self) -> bool {
        self.ipv4s.wf() && self.ipv6s.wf() && self.txt.wf()
    }
}

impl PartialEq for InstanceDetails {
    fn eq(&self, other: &Self) -> (r: bool) {
        let r = self.port == other.port && self.ipv4s == other.ipv4s && self.ipv6s == other.ipv6s
            && self.txt == other.txt;
        proof {
            if r {
                assert(self@ == other@);
            }
        }
        r
    }
}

impl vstd::std_specs::cmp::PartialEqSpecImpl for InstanceDetails {
    open spec fn obeys_eq_spec() -> bool {
        true
    }

    open spec fn eq_spec(&self, other: &Self) -> bool {
        self@ == other@
    }
}

/// The reachable service instances, each with what is known of it.
pub type Services = VecMap<FQServiceName, InstanceDetails>;

/// The set of `name` in `m`, or the empty set.
pub open spec fn addrs_of<A>(m: Map<Seq<char>, Set<A>>, name: Seq<char>) -> Set<A> {
    if m.contains_key(name) {
        m[name]
    } else {
        Set::empty()
    }
}

/// What is known of instance `fq` in store `s`.
pub open spec fn details_of(s: StoreView, fq: FQServiceNameView) -> InstanceDetailsView {
    let srv = s.srvs[fq_name_of(fq)];
    InstanceDetailsView {
        port: srv.1,
        ipv4s: addrs_of(s.ipv4s, srv.0),
        ipv6s: addrs_of(s.ipv6s, srv.0),
        txt: if s.txts.contains_key(fq_name_of(fq)) {
            s.txts[fq_name_of(fq)]
        } else {
            Map::empty()
        },
    }
}

/// Instance `fq` is pointed to by a PTR record, has a SRV record, and its target
/// has an address: an IPv4 address, an IPv6 address, or both.
pub open spec fn is_reachable(s: StoreView, fq: FQServiceNameView) -> bool {
    &&& s.ptrs.contains(fq)
    &&& s.srvs.contains_key(fq_name_of(fq))
    &&& (details_of(s, fq).ipv4s.len() > 0 || details_of(s, fq).ipv6s.len() > 0)
}

/// The services that a snapshot of store `s` lists.
pub open spec fn snapshot_of(s: StoreView) -> Map<FQServiceNameView, InstanceDetailsView> {
    Map::new(|fq: FQServiceNameView| is_reachable(s, fq), |fq: FQServiceNameView| details_of(s, fq))
}

/// The number of addresses in the sets of `s`.
pub open spec fn count_addrs<A: crate::vec_map::KeyEq>(s: Seq<(String, VecSet<A>)>) -> nat
    decreases s.len(),
{
    if s.len() == 0 {
        0
    } else {
        count_addrs(s.drop_last()) + s.last().1@.len()
    }
}


/// Counting the addresses of a prefix of the entries.
proof fn lemma_count_addrs_prefix<A: crate::vec_map::KeyEq>(s: Seq<(String, VecSet<A>)>, k: int)
    requires
        0 < k <= s.len(),
    ensures
        count_addrs(s.take(k)) == count_addrs(s.take(k - 1)) + s[k - 1].1@.len(),
        count_addrs(s.take(k)) <= count_addrs(s),
    decreases s.len(),
{
    assert(s.take(k).drop_last() =~= s.take(k - 1));
    if k < s.len() {
        lemma_count_addrs_prefix(s.drop_last(), k);
        assert(s.drop_last().take(k) =~= s.take(k));
    } else {
        assert(s.take(k) =~= s);
    }
}

/// The resource records received so far, by kind.
pub struct Store {
    pub ptrs: VecSet<FQServiceName>,
    pub srvs: VecMap<String, (String, u16)>,
    pub ipv4s: VecMap<String, VecSet<u32>>,
    pub ipv6s: VecMap<String, VecSet<u128>>,
    pub txts: VecMap<String, TxtAttributes>,
}

impl View for Store {
    type V = StoreView;

    open spec fn view(&self) -> StoreView {
        StoreView {
            ptrs: self.ptrs@,
            srvs: self.srvs@,
            ipv4s: self.ipv4s@,
            ipv6s: self.ipv6s@,
            txts: self.txts@,
        }
    }
}

impl Store {
    /// The contents of an empty store.
    pub open spec fn new_view() -> StoreView {
        StoreView {
            ptrs: Set::empty(),
            srvs: Map::empty(),
            ipv4s: Map::empty(),
            ipv6s: Map::empty(),
            txts: Map::empty(),
        }
    }

    /// The maps and sets are well formed, and so is every set and attribute map
    /// kept in them.
    pub open spec fn wf(&self) -> bool {
        &&& self.ptrs.wf()
        &&& self.srvs.wf()
        &&& self.ipv4s.wf()
        &&& self.ipv6s.wf()
        &&& self.txts.wf()
        &&& forall|i: int|
            0 <= i < self.ipv4s.entries().len() ==> (#[trigger] self.ipv4s.entries()[i]).1.wf()
        &&& forall|i: int|
            0 <= i < self.ipv6s.entries().len() ==> (#[trigger] self.ipv6s.entries()[i]).1.wf()
        &&& forall|i: int|
            0 <= i < self.txts.entries().len() ==> (#[trigger] self.txts.entries()[i]).1.wf()
        &&& sets_filled(self@.ipv4s)
        &&& sets_filled(self@.ipv6s)
    }

    /// Forgets every record.
    pub fn clear(&mut self)
        ensures
            final(self).wf(),
            final(self)@.ptrs == Set::<FQServiceNameView>::empty(),
            final(self)@.srvs == Map::<Seq<char>, (Seq<char>, u16)>::empty(),
            final(self)@.ipv4s == Map::<Seq<char>, Set<u32>>::empty(),
            final(self)@.ipv6s == Map::<Seq<char>, Set<u128>>::empty(),
            final(self)@.txts == Map::<Seq<char>, Map<Seq<char>, Seq<char>>>::empty(),
    {
        self.ipv6s.clear();
        self.ipv4s.clear();
        self.txts.clear();
        self.srvs.clear();
        self.ptrs = VecSet::new();
        proof {
            assert(self@.ipv4s =~= Map::<Seq<char>, Set<u32>>::empty());
            assert(self@.ipv6s =~= Map::<Seq<char>, Set<u128>>::empty());
            self.ipv4s.lemma_view();
            self.ipv6s.lemma_view();
            self.txts.lemma_view();
        }
    }


    /// Records a received payload.
    pub fn add(&mut self, rr: &RRPayload)
        requires
            old(self).wf(),
            crate::rr::payload_wf(*rr),
        ensures
            final(self).wf(),
            final(self)@ == store_add(old(self)@, rr@),
    {
        proof {
            lemma_store_sets_filled(self@, rr@);
        }
        match rr {
            RRPayload::A { name, addr } => {
                let mut set = match self.ipv4s.remove(name) {
                    Some(set) => set,
                    None => VecSet::new(),
                };
                set.insert(*addr);
                self.ipv4s.insert(name.clone(), set);
                proof {
                    assert(self@.ipv4s =~= store_add(old(self)@, rr@).ipv4s);
                }
            },
            RRPayload::AAAA { name, addr } => {
                let mut set = match self.ipv6s.remove(name) {
                    Some(set) => set,
                    None => VecSet::new(),
                };
                set.insert(*addr);
                self.ipv6s.insert(name.clone(), set);
                proof {
                    assert(self@.ipv6s =~= store_add(old(self)@, rr@).ipv6s);
                }
            },
            RRPayload::SRV { name, target, port } => {
                self.srvs.insert(name.fq_name(), (target.clone(), *port));
            },
            RRPayload::TXT { name, attributes } => {
                self.txts.insert(name.fq_name(), attributes.copy());
            },
            RRPayload::PTR { name: _, pointer } => {
                self.ptrs.insert(pointer.key_clone());
            },
        }
    }

    /// Forgets a payload that expired.
    pub fn remove(&mut self, rr: &RRPayload)
        requires
            old(self).wf(),
        ensures
            final(self).wf(),
            final(self)@ == store_remove(old(self)@, rr@),
    {
        proof {
            lemma_store_sets_filled(self@, rr@);
        }
        match rr {
            RRPayload::A { name, addr } => {
                if !self.ipv4s.contains_key(name) {
                    return;
                }
                let mut set = match self.ipv4s.remove(name) {
                    Some(set) => set,
                    None => VecSet::new(),
                };
                set.remove(addr);
                if !set.is_empty() {
                    self.ipv4s.insert(name.clone(), set);
                } else {
                    proof {
                        set.lemma_view();
                    }
                }
                proof {
                    assert(self@.ipv4s =~= store_remove(old(self)@, rr@).ipv4s);
                }
            },
            RRPayload::AAAA { name, addr } => {
                if !self.ipv6s.contains_key(name) {
                    return;
                }
                let mut set = match self.ipv6s.remove(name) {
                    Some(set) => set,
                    None => VecSet::new(),
                };
                set.remove(addr);
                if !set.is_empty() {
                    self.ipv6s.insert(name.clone(), set);
                } else {
                    proof {
                        set.lemma_view();
                    }
                }
                proof {
                    assert(self@.ipv6s =~= store_remove(old(self)@, rr@).ipv6s);
                }
            },
            RRPayload::SRV { name, .. } => {
                let _ = self.srvs.remove(&name.fq_name());
            },
            RRPayload::TXT { name, .. } => {
                let _ = self.txts.remove(&name.fq_name());
            },
            RRPayload::PTR { name: _, pointer } => {
                self.ptrs.remove(pointer);
            },
        }
    }


    /// The number of records in the store: PTR, SRV and TXT records, and the
    /// addresses of A and AAAA records.
    pub fn len(&self) -> (n: usize)
        requires
            self.wf(),
            self@.ptrs.len() + self@.srvs.len() + self@.txts.len() + count_addrs(
                self.ipv4s.entries(),
            ) + count_addrs(self.ipv6s.entries()) <= usize::MAX,
        ensures
            n == self@.ptrs.len() + self@.srvs.len() + self@.txts.len() + count_addrs(
                self.ipv4s.entries(),
            ) + count_addrs(self.ipv6s.entries()),
    {
        let mut l = self.ptrs.len() + self.srvs.len() + self.txts.len();
        let n4 = self.ipv4s.len();
        let mut i: usize = 0;
        while i < n4
            invariant
                self.wf(),
                n4 == self.ipv4s.entries().len(),
                i <= n4,
                l == self@.ptrs.len() + self@.srvs.len() + self@.txts.len() + count_addrs(
                    self.ipv4s.entries().take(i as int),
                ),
                self@.ptrs.len() + self@.srvs.len() + self@.txts.len() + count_addrs(
                    self.ipv4s.entries(),
                ) + count_addrs(self.ipv6s.entries()) <= usize::MAX,
            decreases n4 - i,
        {
            proof {
                assert(self.ipv4s.entries().take(i + 1).drop_last() =~= self.ipv4s.entries().take(
                    i as int,
                ));
                lemma_count_addrs_prefix(self.ipv4s.entries(), i as int + 1);
            }
            let e = self.ipv4s.entry_at(i);
            l = l + e.1.len();
            i = i + 1;
        }
        proof {
            assert(self.ipv4s.entries().take(n4 as int) =~= self.ipv4s.entries());
        }
        let n6 = self.ipv6s.len();
        let mut i: usize = 0;
        while i < n6
            invariant
                self.wf(),
                n6 == self.ipv6s.entries().len(),
                i <= n6,
                l == self@.ptrs.len() + self@.srvs.len() + self@.txts.len() + count_addrs(
                    self.ipv4s.entries(),
                ) + count_addrs(self.ipv6s.entries().take(i as int)),
                self@.ptrs.len() + self@.srvs.len() + self@.txts.len() + count_addrs(
                    self.ipv4s.entries(),
                ) + count_addrs(self.ipv6s.entries()) <= usize::MAX,
            decreases n6 - i,
        {
            proof {
                assert(self.ipv6s.entries().take(i + 1).drop_last() =~= self.ipv6s.entries().take(
                    i as int,
                ));
                lemma_count_addrs_prefix(self.ipv6s.entries(), i as int + 1);
            }
            let e = self.ipv6s.entry_at(i);
            l = l + e.1.len();
            i = i + 1;
        }
        proof {
            assert(self.ipv6s.entries().take(n6 as int) =~= self.ipv6s.entries());
        }
        l
    }

    /// The reachable service instances: those pointed to by a PTR record, with a
    /// SRV record whose target has an A or an AAAA record (or both).
    pub fn snapshot(&self) -> (services: Services)
        requires
            self.wf(),
        ensures
            services.wf(),
            services@ == snapshot_of(self@),
            forall|i: int|
                0 <= i < services.entries().len() ==> (#[trigger] services.entries()[i]).1.wf(),
    {
        let mut services: Services = VecMap::new();
        let n = self.ptrs.len();
        proof {
            self.ptrs.lemma_view();
        }
        let mut i: usize = 0;
        while i < n
            invariant
                self.wf(),
                n == self.ptrs.elements().len(),
                i <= n,
                services.wf(),
                forall|j: int|
                    0 <= j < services.entries().len() ==> (#[trigger] services.entries()[j]).1.wf(),
                services@ == Map::new(
                    |fq: FQServiceNameView|
                        is_reachable(self@, fq) && exists|j: int|
                            0 <= j < i && self.ptrs.elements()[j]@ == fq,
                    |fq: FQServiceNameView| details_of(self@, fq),
                ),
            decreases n - i,
        {
            let instance_fq = self.ptrs.element_at(i);
            let fq_name = instance_fq.fq_name();
            let ghost fq = instance_fq@;
            let ghost before = services@;
            match self.srvs.get(&fq_name) {
                None => {
                    proof {
                        assert(!is_reachable(self@, fq));
                    }
                },
                Some(srv) => {
                    let target = &srv.0;
                    let port = srv.1;
                    // Try to add A, and AAAA
                    let ipv4s = match self.ipv4s.get(target) {
                        Some(set) => set.copy(),
                        None => VecSet::new(),
                    };
                    let ipv6s = match self.ipv6s.get(target) {
                        Some(set) => set.copy(),
                        None => VecSet::new(),
                    };
                    // If no A or AAAA, don't add it, it is not reachable.
                    if ipv4s.is_empty() && ipv6s.is_empty() {
                        proof {
                            assert(!is_reachable(self@, fq));
                        }
                    } else {
                        let txt = match self.txts.get(&fq_name) {
                            Some(txt) => txt.copy(),
                            None => VecMap::new(),
                        };
                        let details = InstanceDetails { port, ipv4s, ipv6s, txt };
                        proof {
                            assert(details@ == details_of(self@, fq));
                            assert(is_reachable(self@, fq));
                        }
                        services.insert(instance_fq.key_clone(), details);
                    }
                },
            }
            proof {
                assert(services@ =~= Map::new(
                    |fq: FQServiceNameView|
                        is_reachable(self@, fq) && exists|j: int|
                            0 <= j < i + 1 && self.ptrs.elements()[j]@ == fq,
                    |fq: FQServiceNameView| details_of(self@, fq),
                )) by {
                    assert(self.ptrs.elements()[i as int]@ == fq);
                }
            }
            i = i + 1;
        }
        proof {
            assert(services@ =~= snapshot_of(self@)) by {
                assert forall|fq: FQServiceNameView| is_reachable(self@, fq) implies exists|j: int|
                    0 <= j < n && self.ptrs.elements()[j]@ == fq by {
                    assert(self@.ptrs.contains(fq));
                }
            }
        }
        services
    }

    /// An empty store.
    pub fn new() -> (s: Store)
        ensures
            s.wf(),
            s@.ptrs == Set::<FQServiceNameView>::empty(),
            s@.srvs == Map::<Seq<char>, (Seq<char>, u16)>::empty(),
            s@.ipv4s == Map::<Seq<char>, Set<u32>>::empty(),
            s@.ipv6s == Map::<Seq<char>, Set<u128>>::empty(),
            s@.txts == Map::<Seq<char>, Map<Seq<char>, Seq<char>>>::empty(),
    {
        Store {
            ptrs: VecSet::new(),
            srvs: VecMap::new(),
            ipv4s: VecMap::new(),
            ipv6s: VecMap::new(),
            txts: VecMap::new(),
        }
    }
}

} // verus!
