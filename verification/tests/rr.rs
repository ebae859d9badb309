use adbmdns::rr::{FQServiceName, RRLifecycle, RRPayload, ServiceTypeWithLocal, RR};

#[test]
fn fq_service_name_parts() {
    let n = FQServiceName::new("dev".to_string(), "_adb._tcp".to_string(), "local".to_string());
    assert_eq!(n.fq_name(), "dev._adb._tcp.local");
    assert_eq!(n.service_type_with_local.0, "_adb._tcp.local");
    assert_eq!(n.local_domain, "local");
}

#[test]
fn fq_service_name_from_labels() {
    let labels: Vec<String> =
        ["dev", "_adb-tls-connect", "_tcp", "local"].iter().map(|s| s.to_string()).collect();
    let n = FQServiceName::try_from(&labels).unwrap();
    assert_eq!(n.instance_name, "dev");
    assert_eq!(n.service_type, "_adb-tls-connect._tcp");
    assert_eq!(n.fq_name(), "dev._adb-tls-connect._tcp.local");
    let three: Vec<String> = ["a", "b", "c"].iter().map(|s| s.to_string()).collect();
    assert!(FQServiceName::try_from(&three).is_none());
}

#[test]
fn service_type_with_local_wraps() {
    assert_eq!(ServiceTypeWithLocal::from("_x._tcp.local".to_string()).0, "_x._tcp.local");
}

#[test]
fn lifecycle_fractions() {
    assert_eq!(RRLifecycle::Created.next_ttl_fraction(), 800);
    assert_eq!(RRLifecycle::Probed80.next_ttl_fraction(), 850);
    assert_eq!(RRLifecycle::Probed85.next_ttl_fraction(), 900);
    assert_eq!(RRLifecycle::Probed90.next_ttl_fraction(), 950);
    assert_eq!(RRLifecycle::Probed95.next_ttl_fraction(), 1000);
}

#[test]
fn new_record_needs_attention_at_eighty_percent() {
    let rr = RR::new(5_000, 120, RRPayload::A { name: "h".to_string(), addr: 1 });
    assert_eq!(rr.attention_needed_on, 5_000 + 96_000_000_000);
    assert_eq!(rr.next_lifecycle_state, RRLifecycle::Created);
}

#[test]
fn payload_identity() {
    let a1 = RRPayload::A { name: "h".to_string(), addr: 1 };
    let a2 = RRPayload::A { name: "h".to_string(), addr: 2 };
    assert!(a1 != a2);
    assert!(a1 == a1.copy());
    let n = FQServiceName::new("i".to_string(), "_adb._tcp".to_string(), "local".to_string());
    let m = FQServiceName::new("i".to_string(), "_adb._tcp".to_string(), "local".to_string());
    let s1 = RRPayload::SRV { name: n, target: "t1".to_string(), port: 1 };
    let s2 = RRPayload::SRV { name: m, target: "t2".to_string(), port: 2 };
    // A SRV record is told apart by the instance it describes only.
    assert!(s1.same_identity(&s2));
}
