use adbmdns::rr::{FQServiceName, RRPayload, TxtAttributes};
use adbmdns::store::Store;
use adbmdns::vec_map::KeyEq;

#[test]
fn test_add() {
    let mut store = Store::new();
    let fq_name = FQServiceName::new("Instance".to_owned(), "Service".to_owned(), "Local".to_owned());

    store.add(&RRPayload::A { name: "foo".to_owned(), addr: 0x7f00_0001 });
    store.add(&RRPayload::AAAA { name: "foo".to_owned(), addr: 1 });
    store.add(&RRPayload::SRV { name: fq_name.key_clone(), target: "bar".to_owned(), port: 0 });
    store.add(&RRPayload::PTR { name: "foo".to_owned(), pointer: fq_name.key_clone() });
    store.add(&RRPayload::TXT { name: fq_name.key_clone(), attributes: TxtAttributes::new() });

    assert_eq!(1, store.ipv4s.len());
    assert_eq!(1, store.ipv6s.len());
    assert_eq!(1, store.srvs.len());
    assert_eq!(1, store.ptrs.len());
    assert_eq!(1, store.txts.len());
}

#[test]
fn test_remove() {
    let mut store = Store::new();
    let fq_name = FQServiceName::new("Instance".to_owned(), "Service".to_owned(), "Local".to_owned());

    store.add(&RRPayload::A { name: "foo".to_owned(), addr: 0x7f00_0001 });
    store.add(&RRPayload::AAAA { name: "foo".to_owned(), addr: 1 });
    store.add(&RRPayload::SRV { name: fq_name.key_clone(), target: "bar".to_owned(), port: 0 });
    store.add(&RRPayload::PTR { name: "foo".to_owned(), pointer: fq_name.key_clone() });
    store.add(&RRPayload::TXT { name: fq_name.key_clone(), attributes: TxtAttributes::new() });

    store.remove(&RRPayload::A { name: "foo".to_owned(), addr: 0x7f00_0001 });
    store.remove(&RRPayload::AAAA { name: "foo".to_owned(), addr: 1 });
    store.remove(&RRPayload::SRV { name: fq_name.key_clone(), target: "bar".to_owned(), port: 0 });
    store.remove(&RRPayload::PTR { name: "foo".to_owned(), pointer: fq_name.key_clone() });
    store.remove(&RRPayload::TXT { name: fq_name.key_clone(), attributes: TxtAttributes::new() });

    assert_eq!(0, store.ipv4s.len());
    assert_eq!(0, store.ipv6s.len());
    assert_eq!(0, store.srvs.len());
    assert_eq!(0, store.ptrs.len());
    assert_eq!(0, store.txts.len());
}

fn reachable_store() -> (Store, FQServiceName) {
    let mut store = Store::new();
    let fq = FQServiceName::new("i".to_owned(), "_adb._tcp".to_owned(), "local".to_owned());
    store.add(&RRPayload::A { name: "h.local".to_owned(), addr: 0x0a00_0001 });
    store.add(&RRPayload::A { name: "h.local".to_owned(), addr: 0x0a00_0002 });
    store.add(&RRPayload::AAAA { name: "h.local".to_owned(), addr: 1 });
    store.add(&RRPayload::SRV { name: fq.key_clone(), target: "h.local".to_owned(), port: 9 });
    store.add(&RRPayload::PTR { name: "_adb._tcp.local".to_owned(), pointer: fq.key_clone() });
    (store, fq)
}

#[test]
fn snapshot_lists_reachable_instances_with_their_details() {
    let (store, fq) = reachable_store();
    let snapshot = store.snapshot();
    assert_eq!(snapshot.len(), 1);
    let details = snapshot.get(&fq).unwrap();
    assert_eq!(details.port, 9);
    assert_eq!(details.ipv4s.len(), 2);
    assert!(details.ipv4s.contains(&0x0a00_0002));
    assert_eq!(details.ipv6s.len(), 1);
    assert_eq!(details.txt.len(), 0);
    // PTR, SRV and the three addresses.
    assert_eq!(store.len(), 5);
}

#[test]
fn removing_one_address_keeps_the_others_and_the_last_takes_the_name_away() {
    let (mut store, fq) = reachable_store();
    store.remove(&RRPayload::A { name: "h.local".to_owned(), addr: 0x0a00_0001 });
    assert_eq!(store.ipv4s.len(), 1);
    assert_eq!(store.snapshot().len(), 1);
    store.remove(&RRPayload::A { name: "h.local".to_owned(), addr: 0x0a00_0002 });
    assert_eq!(store.ipv4s.len(), 0);
    // With its IPv6 address left, the instance is still reachable.
    assert_eq!(store.snapshot().len(), 1);
    assert_eq!(store.snapshot().get(&fq).unwrap().ipv4s.len(), 0);
    // Removing what is not there changes nothing.
    store.remove(&RRPayload::A { name: "h.local".to_owned(), addr: 0x0a00_0002 });
    assert_eq!(store.len(), 3);
    // Without any address the instance is no longer reachable.
    store.remove(&RRPayload::AAAA { name: "h.local".to_owned(), addr: 1 });
    assert_eq!(store.snapshot().len(), 0);
    assert!(store.snapshot().get(&fq).is_none());
}

#[test]
fn adding_twice_is_adding_once() {
    let (mut store, fq) = reachable_store();
    store.add(&RRPayload::SRV { name: fq.key_clone(), target: "h.local".to_owned(), port: 9 });
    store.add(&RRPayload::A { name: "h.local".to_owned(), addr: 0x0a00_0001 });
    assert_eq!(store.len(), 5);
    store.clear();
    assert_eq!(store.len(), 0);
    assert_eq!(store.snapshot().len(), 0);
}
