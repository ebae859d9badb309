use simple_dns::rdata::{RData, A, AAAA, PTR, SRV, TXT};
use simple_dns::{Name, Packet, ResourceRecord as DnsRecord, CLASS};
use adbmdns::rr::{FQServiceName, RRLifecycle, ServiceTypeWithLocal, TxtAttributes};
use adbmdns::vec_map::VecSet;
use adbmdns::zero_config::{
    QueryClass, QueryType, RecordData, ResourceRecord, ZeroConfig, ZeroConfigCommand,
    TCP_CONNECT_SERVICE, TLS_CONNECT_SERVICE,
};

const DEFAULT_SHORT_TTL: f64 = 120.0;
const DEFAULT_LONG_TTL: f64 = 4500.0;
const NANOS_PER_SEC: u64 = 1_000_000_000;

// An arbitrary instant of the monotonic clock, in nanoseconds.
const EPOCH: u64 = 1_000 * NANOS_PER_SEC;

// An IPv4 address, as the number whose big-endian bytes are its octets.
fn ipv4_addr(a: u8, b: u8, c: u8, d: u8) -> u32 {
    u32::from_be_bytes([a, b, c, d])
}

// An IPv6 address, as the number whose big-endian bytes are its octets.
fn ipv6_addr(segments: [u16; 8]) -> u128 {
    segments.iter().fold(0u128, |acc, s| (acc << 16) | *s as u128)
}

fn labels(name: &str) -> Vec<String> {
    name.split('.').map(|l| l.to_string()).collect()
}

fn secs_f64(seconds: f64) -> u64 {
    std::time::Duration::from_secs_f64(seconds).as_nanos() as u64
}

fn fraction(state: RRLifecycle) -> f64 {
    state.next_ttl_fraction() as f64 / 1000.0
}

fn a(name: &str, ip: u32) -> ResourceRecord {
    ResourceRecord {
        name: labels(name),
        ttl: DEFAULT_SHORT_TTL as u32,
        rdata: RecordData::A { address: ip },
    }
}

fn aaaa(name: &str, ip: u128) -> ResourceRecord {
    ResourceRecord {
        name: labels(name),
        ttl: DEFAULT_SHORT_TTL as u32,
        rdata: RecordData::AAAA { address: ip },
    }
}

fn srv(name: &str, target: &str, port: u16) -> ResourceRecord {
    ResourceRecord {
        name: labels(name),
        ttl: DEFAULT_SHORT_TTL as u32,
        rdata: RecordData::SRV { port, target: labels(target) },
    }
}

fn txt(name: &str, attributes: &TxtAttributes) -> ResourceRecord {
    let attributes = attributes.to_vec().into_iter().map(|(k, v)| (k, Some(v))).collect();
    ResourceRecord {
        name: labels(name),
        ttl: DEFAULT_SHORT_TTL as u32,
        rdata: RecordData::TXT { attributes },
    }
}

fn ptr_with_ttl(name: &ServiceTypeWithLocal, domain: &str, ttl: u32) -> ResourceRecord {
    ResourceRecord { name: labels(&name.0), ttl, rdata: RecordData::PTR { pointer: labels(domain) } }
}

fn ptr(name: &ServiceTypeWithLocal, domain: &str) -> ResourceRecord {
    ptr_with_ttl(name, domain, DEFAULT_LONG_TTL as u32)
}

fn ipv4_set(ip: u32) -> VecSet<u32> {
    let mut s = VecSet::new();
    s.insert(ip);
    s
}

fn ipv6_set(ip: u128) -> VecSet<u128> {
    let mut s = VecSet::new();
    s.insert(ip);
    s
}

fn assert_all_queries(cmds: &[ZeroConfigCommand]) {
    for cmd in cmds {
        match cmd {
            ZeroConfigCommand::DnsQuery { .. } => {}
            unexpected => {
                panic!("Unexpected command {unexpected:?}");
            }
        }
    }
}

#[test]
fn test_update_nothing_discovered() {
    let mut zero_conf = ZeroConfig::new();
    let service =
        FQServiceName::new("my_prt".to_string(), "_srv._tcp".to_string(), "local".to_string());
    let fq_service = service.fq_name();
    let server = "my_target";
    let port = 5555;
    let txt_attributes = TxtAttributes::new();

    let answers = vec![
        txt(&fq_service, &txt_attributes),
        a("_srv.local", ipv4_addr(127, 0, 0, 1)),
        aaaa("_srv.local", ipv6_addr([0, 0, 0, 0, 0, 0, 0, 1])),
        srv(&fq_service, server, port),
        ptr_with_ttl(&service.service_type_with_local, &fq_service, DEFAULT_SHORT_TTL as u32),
    ];

    zero_conf.set_time(EPOCH);
    zero_conf.push_records(answers, vec![], vec![]);
    let (cmds, _) = zero_conf.tick();
    assert_eq!(cmds.len(), 0);
}

#[test]
fn test_update_service_records() {
    let mut zero_conf = ZeroConfig::new();

    // Let's create a service
    let service_port = 5555u16;
    let service = FQServiceName::new(
        "InstanceName".to_string(),
        TLS_CONNECT_SERVICE.to_string(),
        "local".to_string(),
    );
    let fq_service = service.fq_name();
    let ipv4 = ipv4_addr(127, 0, 0, 1);
    let ipv6 = ipv6_addr([0, 0, 0, 0, 0, 0, 0, 1]);
    let target = "MyTarget.local";
    let mut txt_attributes = TxtAttributes::new();
    txt_attributes.insert("name".to_owned(), "fab".to_owned());

    let answers = vec![
        txt(&fq_service, &txt_attributes),
        a(target, ipv4),
        aaaa(target, ipv6),
        srv(&fq_service, target, service_port),
        ptr(&service.service_type_with_local, &fq_service),
    ];

    let mut now = EPOCH;
    zero_conf.set_time(now);
    zero_conf.push_records(answers, vec![], vec![]);
    let (cmds, _) = zero_conf.tick();
    assert_eq!(cmds.len(), 1);
    let create_cmd = cmds.first().unwrap();
    match create_cmd {
        ZeroConfigCommand::CreateService { instance_name, service_type, ipv4s, ipv6s, port, txt } => {
            assert_eq!(service.instance_name, *instance_name);
            assert_eq!(service.service_type, *service_type);
            assert_eq!(*port, service_port);
            assert_eq!(*txt, txt_attributes);
            assert!(ipv4s.contains(&ipv4));
            assert!(ipv6s.contains(&ipv6));
            assert_eq!(0, zero_conf.pending_command_count())
        }
        _ => {
            panic!("Unexpected command {create_cmd:?}");
        }
    }

    now += 2 * NANOS_PER_SEC;
    zero_conf.set_time(now);
    let mut txt_attributes_update = TxtAttributes::new();
    txt_attributes_update.insert("name".to_owned(), "fab2".to_owned());
    let txt_updates = vec![txt(&fq_service, &txt_attributes_update)];
    zero_conf.push_records(txt_updates, vec![], vec![]);
    let (cmds, _) = zero_conf.tick();
    assert_eq!(cmds.len(), 1);
    let update_cmd = cmds.first().unwrap();
    match update_cmd {
        ZeroConfigCommand::UpdateService { instance_name, service_type, ipv4s, ipv6s, port, txt } => {
            assert_eq!(service.instance_name, *instance_name);
            assert_eq!(service.service_type, *service_type);
            assert_eq!(*txt, txt_attributes_update);
            assert_eq!(*port, service_port);
            assert!(ipv4s.contains(&ipv4));
            assert!(ipv6s.contains(&ipv6));
            assert_eq!(0, zero_conf.pending_command_count())
        }
        _ => {
            panic!("Unexpected command {update_cmd:?}");
        }
    }

    now += 2 * NANOS_PER_SEC;
    zero_conf.set_time(now);
    let new_port = 6666;
    let txt_updates = vec![srv(&fq_service, target, new_port)];
    zero_conf.push_records(txt_updates, vec![], vec![]);
    let (cmds, _) = zero_conf.tick();
    assert_eq!(cmds.len(), 1);
    let cmd = cmds.first().unwrap();
    match cmd {
        ZeroConfigCommand::UpdateService { instance_name, service_type, ipv4s, ipv6s, port, txt } => {
            assert_eq!(service.instance_name, *instance_name);
            assert_eq!(service.service_type, *service_type);
            assert_eq!(*port, new_port);
            assert_eq!(*txt, txt_attributes_update);
            assert!(ipv4s.contains(&ipv4));
            assert!(ipv6s.contains(&ipv6));
            assert_eq!(0, zero_conf.pending_command_count())
        }
        _ => {
            panic!("Unexpected command {cmd:?}");
        }
    }
}

#[test]
fn test_create_service() {
    let mut zero_conf = ZeroConfig::new();
    let port = 5555u16;
    let service = FQServiceName::new(
        "InstanceName".to_string(),
        TLS_CONNECT_SERVICE.to_string(),
        "local".to_string(),
    );
    let fq_service = service.fq_name();

    let expected_ipv4s = ipv4_set(ipv4_addr(127, 0, 0, 1));
    let expected_ipv6s = ipv6_set(ipv6_addr([0, 0, 0, 0, 0, 0, 0, 1]));

    let target = "MyTarget.local";

    let mut answers = Vec::new();

    let mut txt_attributes = TxtAttributes::new();
    txt_attributes.insert("key".to_owned(), "value".to_owned());
    txt_attributes.insert("key2".to_owned(), "value2".to_owned());

    answers.push(txt(&fq_service, &txt_attributes));
    for addr in expected_ipv4s.to_vec() {
        answers.push(a(target, addr));
    }
    for addr in expected_ipv6s.to_vec() {
        answers.push(aaaa(target, addr));
    }
    answers.push(srv(&fq_service, target, port));
    answers.push(ptr_with_ttl(
        &service.service_type_with_local,
        &fq_service,
        DEFAULT_SHORT_TTL as u32,
    ));

    zero_conf.set_time(EPOCH);
    zero_conf.push_records(answers, vec![], vec![]);
    let (cmds, _) = zero_conf.tick();
    assert_ne!(cmds.len(), 0);
    let cmd = cmds.first().unwrap();
    match cmd {
        ZeroConfigCommand::CreateService { instance_name, service_type, ipv4s, ipv6s, port: p, txt } => {
            assert_eq!(instance_name, &service.instance_name);
            assert_eq!(service_type, &service.service_type);
            assert_eq!(port, *p);
            assert_eq!(*ipv4s, expected_ipv4s);
            assert_eq!(*ipv6s, expected_ipv6s);
            assert_eq!(zero_conf.pending_command_count(), 0);
            assert_eq!(txt, &txt_attributes)
        }
        _ => {
            panic!("Unexpected command {cmd:?}");
        }
    };
}

#[test]
fn test_ignored_delete() {
    let mut zero_conf = ZeroConfig::new();
    let service = FQServiceName::new(
        "my_instance".to_string(),
        "chromecast._tcp".to_string(),
        "local".to_string(),
    );
    let fq_service = service.fq_name();
    let answers = vec![ptr_with_ttl(&service.service_type_with_local, &fq_service, 0)];
    zero_conf.set_time(EPOCH);
    zero_conf.push_records(answers, vec![], vec![]);
    let (cmds, _) = zero_conf.tick();
    assert_eq!(cmds.len(), 0);
}

#[test]
fn test_delete() {
    let mut zero_conf = ZeroConfig::new();

    // Let's create a service
    let port = 5555u16;
    let service = FQServiceName::new(
        "InstanceName".to_string(),
        TLS_CONNECT_SERVICE.to_string(),
        "local".to_string(),
    );
    let fq_service = service.fq_name();
    let ipv4 = ipv4_addr(127, 0, 0, 1);
    let ipv6 = ipv6_addr([0, 0, 0, 0, 0, 0, 0, 1]);
    let target = "MyTarget.local";
    let txt_attributes = TxtAttributes::new();

    let answers = vec![
        txt(&fq_service, &txt_attributes),
        a(target, ipv4),
        aaaa(target, ipv6),
        srv(&fq_service, target, port),
        ptr(&service.service_type_with_local, &fq_service),
    ];

    let now = EPOCH;
    zero_conf.set_time(now);
    zero_conf.push_records(answers, vec![], vec![]);
    let (cmds, _) = zero_conf.tick();
    assert_eq!(cmds.len(), 1);
    let ZeroConfigCommand::CreateService { .. } = cmds.first().unwrap() else {
        panic!("Unexpected command {:?}", cmds.first().unwrap());
    };

    // Now let's expire the service
    let answers = vec![ptr_with_ttl(&service.service_type_with_local, &fq_service, 0)];
    zero_conf.set_time(now + NANOS_PER_SEC);
    zero_conf.push_records(answers, vec![], vec![]);
    let (cmds, _) = zero_conf.tick();
    assert_ne!(cmds.len(), 0);
    let cmd = cmds.first().unwrap();
    match cmd {
        ZeroConfigCommand::DeleteService { instance_name, service_type } => {
            assert_eq!(service.instance_name, *instance_name);
            assert_eq!(service.service_type, *service_type);
            assert_eq!(0, zero_conf.pending_command_count())
        }
        _ => {
            panic!("Unexpected command {cmd:?}");
        }
    }
}

#[test]
fn test_expiration() {
    let mut zero_conf = ZeroConfig::new();

    // Let's create a service
    let port = 5555u16;
    let service = FQServiceName::new(
        "InstanceName".to_string(),
        TLS_CONNECT_SERVICE.to_string(),
        "local".to_string(),
    );
    let fq_service = service.fq_name();
    let ipv4 = ipv4_addr(127, 0, 0, 1);
    let ipv6 = ipv6_addr([0, 0, 0, 0, 0, 0, 0, 1]);
    let target = "MyTarget.local";
    let txt_attributes = TxtAttributes::new();

    let answers = vec![
        txt(&fq_service, &txt_attributes),
        a(target, ipv4),
        aaaa(target, ipv6),
        srv(&fq_service, target, port),
        ptr(&service.service_type_with_local, &fq_service),
    ];

    // Add the service with a first update
    let epoch = EPOCH;
    zero_conf.set_time(epoch);
    zero_conf.push_records(answers, vec![], vec![]);
    let (cmds, _) = zero_conf.tick();
    assert_eq!(cmds.len(), 1);

    // Advance virtual time to 79% of DEFAULT_SHORT_TTLs records). This should NOT expire anything or trigger probes
    let mut f = fraction(RRLifecycle::Created) - 0.01;
    let mut now = epoch + secs_f64(f * DEFAULT_SHORT_TTL);
    zero_conf.set_time(now);
    let (mut cmds, _) = zero_conf.tick();
    assert_eq!(cmds.len(), 0);

    // Set virtual time to 81% of DEFAULT_SHORT_TTLs records (97s) . This should trigger probes for the 80% block.
    f = fraction(RRLifecycle::Created) + 0.01;
    now = epoch + secs_f64(f * DEFAULT_SHORT_TTL);
    zero_conf.set_time(now);
    (cmds, _) = zero_conf.tick();
    assert_eq!(cmds.len(), 4);
    assert_all_queries(&cmds);

    // Set virtual time to 83% of DEFAULT_SHORT_TTLs records (99s). This should trigger NO probes since they were
    // already sent.
    f = fraction(RRLifecycle::Created) + 0.03;
    now = epoch + secs_f64(f * DEFAULT_SHORT_TTL);
    zero_conf.set_time(now);
    (cmds, _) = zero_conf.tick();
    assert_eq!(cmds.len(), 0);

    // Set virtual time to 87% of DEFAULT_SHORT_TTLs records. This should trigger probes again for the 85% block.
    f = fraction(RRLifecycle::Probed80) + 0.02;
    now = epoch + secs_f64(f * DEFAULT_SHORT_TTL);
    zero_conf.set_time(now);
    (cmds, _) = zero_conf.tick();
    assert_eq!(cmds.len(), 4);
    assert_all_queries(&cmds);

    // Same instant: this should trigger NO probes since they were already sent for the 85% block.
    f = fraction(RRLifecycle::Probed80) + 0.02;
    now = epoch + secs_f64(f * DEFAULT_SHORT_TTL);
    zero_conf.set_time(now);
    (cmds, _) = zero_conf.tick();
    assert_eq!(cmds.len(), 0);

    // Set virtual time to the 95% point of DEFAULT_SHORT_TTLs records. This should trigger probes again.
    f = fraction(RRLifecycle::Probed90);
    now = epoch + secs_f64(f * DEFAULT_SHORT_TTL);
    zero_conf.set_time(now);
    (cmds, _) = zero_conf.tick();
    assert_eq!(cmds.len(), 4);
    assert_all_queries(&cmds);

    // One percent later: this should trigger NO probes since they were already sent.
    f = fraction(RRLifecycle::Probed90) + 0.01;
    now = epoch + secs_f64(f * DEFAULT_SHORT_TTL);
    zero_conf.set_time(now);
    (cmds, _) = zero_conf.tick();
    assert_eq!(cmds.len(), 0);

    // Set virtual time to 101% of DEFAULT_SHORT_TTLs records. This should expire A, AAAA, SRV, and TXT records.
    f = fraction(RRLifecycle::Probed95) + 0.01;
    now = epoch + secs_f64(f * DEFAULT_SHORT_TTL);
    zero_conf.set_time(now);
    (cmds, _) = zero_conf.tick();
    assert_eq!(cmds.len(), 1);

    let delete_cmd = cmds.first().unwrap();
    match delete_cmd {
        ZeroConfigCommand::DeleteService { instance_name, service_type } => {
            assert_eq!(service.instance_name, *instance_name);
            assert_eq!(service.service_type, *service_type);
            assert_eq!(0, zero_conf.pending_command_count())
        }
        _ => {
            panic!("Unexpected command {:?}", delete_cmd);
        }
    }

    assert_eq!(zero_conf.store().ptrs.len(), 1);
    assert_eq!(zero_conf.store().ipv6s.len(), 0);
    assert_eq!(zero_conf.store().ipv4s.len(), 0);
    assert_eq!(zero_conf.store().srvs.len(), 0);
    assert_eq!(zero_conf.store().txts.len(), 0);

    // Now let's see about PTR probes
    f = fraction(RRLifecycle::Created) + 0.01;
    now = epoch + secs_f64(f * DEFAULT_LONG_TTL);
    zero_conf.set_time(now);
    (cmds, _) = zero_conf.tick();
    assert_eq!(cmds.len(), 1);
    assert_all_queries(&cmds);

    // At 82% nothing should happen since probe was sent.
    f = fraction(RRLifecycle::Created) + 0.02;
    now = epoch + secs_f64(f * DEFAULT_LONG_TTL);
    zero_conf.set_time(now);
    (cmds, _) = zero_conf.tick();
    assert_eq!(cmds.len(), 0);

    // At 86%, another probe should be fired.
    f = fraction(RRLifecycle::Probed80) + 0.01;
    now = epoch + secs_f64(f * DEFAULT_LONG_TTL);
    zero_conf.set_time(now);
    (cmds, _) = zero_conf.tick();
    assert_eq!(cmds.len(), 1);
    assert_all_queries(&cmds);

    // At 87% nothing should happen since probe was sent in 85% block.
    f = fraction(RRLifecycle::Probed80) + 0.02;
    now = epoch + secs_f64(f * DEFAULT_LONG_TTL);
    zero_conf.set_time(now);
    (cmds, _) = zero_conf.tick();
    assert_eq!(cmds.len(), 0);
    assert_eq!(zero_conf.store().ptrs.len(), 1);

    // At 91%, another probe should be fired.
    f = fraction(RRLifecycle::Probed85) + 0.01;
    now = epoch + secs_f64(f * DEFAULT_LONG_TTL);
    zero_conf.set_time(now);
    (cmds, _) = zero_conf.tick();
    assert_eq!(cmds.len(), 1);
    assert_all_queries(&cmds);

    // At 92% nothing should happen since probe was sent in previous block.
    f = fraction(RRLifecycle::Probed85) + 0.02;
    now = epoch + secs_f64(f * DEFAULT_LONG_TTL);
    zero_conf.set_time(now);
    (cmds, _) = zero_conf.tick();
    assert_eq!(cmds.len(), 0);
    assert_eq!(zero_conf.store().ptrs.len(), 1);

    // At 96%, another probe should be fired.
    f = fraction(RRLifecycle::Probed90) + 0.01;
    now = epoch + secs_f64(f * DEFAULT_LONG_TTL);
    zero_conf.set_time(now);
    (cmds, _) = zero_conf.tick();
    assert_eq!(cmds.len(), 1);
    assert_all_queries(&cmds);

    // At 97% nothing should happen since probe was sent in previous block.
    f = fraction(RRLifecycle::Probed90) + 0.02;
    now = epoch + secs_f64(f * DEFAULT_LONG_TTL);
    zero_conf.set_time(now);
    (cmds, _) = zero_conf.tick();
    assert_eq!(cmds.len(), 0);
    assert_eq!(zero_conf.store().ptrs.len(), 1);

    // Now advance time so the PTR is also expired. This should bring the store back to zero
    // entries
    f = fraction(RRLifecycle::Probed95);
    now = epoch + secs_f64(f * DEFAULT_LONG_TTL);
    zero_conf.set_time(now);
    (cmds, _) = zero_conf.tick();
    assert_eq!(0, cmds.len());
    assert_eq!(zero_conf.store().ptrs.len(), 0);

    // All the store should be empty now
    assert_eq!(zero_conf.store().ptrs.len(), 0);
    assert_eq!(zero_conf.store().ipv6s.len(), 0);
    assert_eq!(zero_conf.store().ipv4s.len(), 0);
    assert_eq!(zero_conf.store().srvs.len(), 0);
    assert_eq!(zero_conf.store().txts.len(), 0);
}

#[test]
fn test_extension_then_expiration() {
    let mut zero_conf = ZeroConfig::new();

    // Let's create a service
    let port = 5555u16;
    let service = FQServiceName::new(
        "InstanceName".to_string(),
        TLS_CONNECT_SERVICE.to_string(),
        "local".to_string(),
    );
    let fq_service = service.fq_name();
    let ipv4 = ipv4_addr(127, 0, 0, 1);
    let ipv6 = ipv6_addr([0, 0, 0, 0, 0, 0, 0, 1]);
    let target = "MyTarget.local";
    let txt_attributes = TxtAttributes::new();

    let answers = || {
        vec![
            txt(&fq_service, &txt_attributes),
            a(target, ipv4),
            aaaa(target, ipv6),
            srv(&fq_service, target, port),
            ptr(&service.service_type_with_local, &fq_service),
        ]
    };

    // Add the service with a first update
    let epoch = EPOCH;
    zero_conf.set_time(epoch);
    zero_conf.push_records(answers(), vec![], vec![]);
    let (mut cmds, _) = zero_conf.tick();
    assert_eq!(cmds.len(), 1);

    // Advance time by 50% of short ttl, add service again
    let mut f = 0.5;
    let mut now = epoch + secs_f64(f * DEFAULT_SHORT_TTL);
    zero_conf.set_time(now);
    zero_conf.push_records(answers(), vec![], vec![]);
    (cmds, _) = zero_conf.tick();
    assert_eq!(0, cmds.len());

    // Advance time to when things should have been expired by now but the update should have extended the TTLs
    f = 1.5;
    now = epoch + secs_f64(f * DEFAULT_SHORT_TTL);
    zero_conf.set_time(now);
    zero_conf.push_records(answers(), vec![], vec![]);
    (cmds, _) = zero_conf.tick();
    assert_eq!(0, cmds.len());

    now = epoch + secs_f64(DEFAULT_LONG_TTL * 2.0);
    zero_conf.set_time(now);
    (cmds, _) = zero_conf.tick();
    assert_eq!(1, cmds.len());

    let delete_cmd = cmds.first().unwrap();
    match delete_cmd {
        ZeroConfigCommand::DeleteService { instance_name, service_type } => {
            assert_eq!(service.instance_name, *instance_name);
            assert_eq!(service.service_type, *service_type);
            assert_eq!(0, zero_conf.pending_command_count())
        }
        _ => {
            panic!("Unexpected command {:?}", delete_cmd);
        }
    }

    // All the store should be empty now
    assert_eq!(zero_conf.store().ptrs.len(), 0);
    assert_eq!(zero_conf.store().ipv6s.len(), 0);
    assert_eq!(zero_conf.store().ipv4s.len(), 0);
    assert_eq!(zero_conf.store().srvs.len(), 0);
    assert_eq!(zero_conf.store().txts.len(), 0);
}

#[allow(clippy::too_many_arguments)]
fn create_service(
    now: u64,
    zero_conf: &mut ZeroConfig,
    service: &FQServiceName,
    port: u16,
    ipv4: u32,
    ipv6: u128,
    target: &str,
    txt_attributes: &TxtAttributes,
) -> Vec<ZeroConfigCommand> {
    let mut answers = Vec::new();
    let fq_service = service.fq_name();
    answers.push(txt(&fq_service, txt_attributes));
    answers.push(a(target, ipv4));
    answers.push(aaaa(target, ipv6));
    answers.push(srv(&fq_service, target, port));
    answers.push(ptr_with_ttl(
        &service.service_type_with_local,
        &fq_service,
        DEFAULT_SHORT_TTL as u32,
    ));

    zero_conf.set_time(now);
    zero_conf.push_records(answers, vec![], vec![]);
    let (cmd, _) = zero_conf.tick();
    cmd
}

fn assert_created(
    cmd: &ZeroConfigCommand,
    service: &FQServiceName,
    expected_port: u16,
    ipv4: u32,
    ipv6: u128,
    txt_attributes: &TxtAttributes,
) {
    match cmd {
        ZeroConfigCommand::CreateService { instance_name, service_type, ipv4s, ipv6s, port: p, txt } => {
            assert_eq!(instance_name, &service.instance_name);
            assert_eq!(service_type, &service.service_type);
            assert_eq!(expected_port, *p);
            assert_eq!(txt, txt_attributes);
            assert!(ipv4s.contains(&ipv4));
            assert_eq!(1, ipv4s.len());
            assert!(ipv6s.contains(&ipv6));
            assert_eq!(1, ipv6s.len());
        }
        _ => {
            panic!("Unexpected command {cmd:?}");
        }
    };
}

#[test]
fn test_multiple_devices() {
    let mut zero_conf = ZeroConfig::new();
    let epoch = EPOCH;
    let mut now = epoch;

    let port = 5555u16;
    let service = FQServiceName::new(
        "D1_InstanceName".to_string(),
        TLS_CONNECT_SERVICE.to_string(),
        "local".to_string(),
    );
    let target = "MyTarget.local";
    let ipv4 = ipv4_addr(127, 0, 0, 1);
    let ipv6 = ipv6_addr([0, 0, 0, 0, 0, 0, 0, 1]);
    let mut txt_attributes = TxtAttributes::new();
    txt_attributes.insert("key".to_owned(), "value".to_owned());
    txt_attributes.insert("key2".to_owned(), "value2".to_owned());
    let mut cmds =
        create_service(now, &mut zero_conf, &service, port, ipv4, ipv6, target, &txt_attributes);

    assert_ne!(cmds.len(), 0);
    assert_created(cmds.first().unwrap(), &service, port, ipv4, ipv6, &txt_attributes);

    now = epoch + 20 * NANOS_PER_SEC;
    let d2_port = 6666u16;
    let d2_service = FQServiceName::new(
        "D2_InstanceName".to_string(),
        TLS_CONNECT_SERVICE.to_string(),
        "local".to_string(),
    );
    let d2_target = "D2_MyTarget.local";
    let d2_ipv4 = ipv4_addr(127, 0, 0, 2);
    let d2_ipv6 = ipv6_addr([0, 0, 0, 0, 0, 0, 0, 2]);
    let mut d2_txt_attributes = TxtAttributes::new();
    d2_txt_attributes.insert("key".to_owned(), "value".to_owned());
    d2_txt_attributes.insert("key2".to_owned(), "value2".to_owned());
    cmds = create_service(
        now,
        &mut zero_conf,
        &d2_service,
        d2_port,
        d2_ipv4,
        d2_ipv6,
        d2_target,
        &d2_txt_attributes,
    );
    assert_eq!(cmds.len(), 1);
    assert_created(cmds.first().unwrap(), &d2_service, d2_port, d2_ipv4, d2_ipv6, &d2_txt_attributes);

    // Make sure first record expires
    now = epoch + 122 * NANOS_PER_SEC;
    zero_conf.set_time(now);
    (cmds, _) = zero_conf.tick();

    assert_eq!(6, cmds.len());
    let delete_cmd = cmds.first().unwrap();
    match delete_cmd {
        ZeroConfigCommand::DeleteService { instance_name, service_type } => {
            assert_eq!(service.instance_name, *instance_name);
            assert_eq!(service.service_type, *service_type);
            assert_eq!(0, zero_conf.pending_command_count())
        }
        ZeroConfigCommand::DnsQuery { .. } => {}
        _ => {
            panic!("Unexpected command {:?}", delete_cmd);
        }
    }

    // Now expire the second record
    now = epoch + 152 * NANOS_PER_SEC;
    zero_conf.set_time(now);
    (cmds, _) = zero_conf.tick();
    assert_eq!(1, cmds.len());
    let delete_cmd = cmds.first().unwrap();
    match delete_cmd {
        ZeroConfigCommand::DeleteService { instance_name, service_type } => {
            assert_eq!(d2_service.instance_name, *instance_name);
            assert_eq!(d2_service.service_type, *service_type);
            assert_eq!(0, zero_conf.pending_command_count())
        }
        _ => {
            panic!("Unexpected command {:?}", delete_cmd);
        }
    }
}

#[test]
fn test_multiple_services() {
    let mut zero_conf = ZeroConfig::new();
    let epoch = EPOCH;
    let mut now = epoch;

    let port_tls = 5555u16;
    let service_tls = FQServiceName::new(
        "D1_InstanceName".to_string(),
        TLS_CONNECT_SERVICE.to_string(),
        "local".to_string(),
    );
    let target = "MyTarget.local";
    let ipv4 = ipv4_addr(127, 0, 0, 1);
    let ipv6 = ipv6_addr([0, 0, 0, 0, 0, 0, 0, 1]);
    let mut txt_attributes = TxtAttributes::new();
    txt_attributes.insert("key".to_owned(), "value".to_owned());
    txt_attributes.insert("key2".to_owned(), "value2".to_owned());
    let mut cmds = create_service(
        now,
        &mut zero_conf,
        &service_tls,
        port_tls,
        ipv4,
        ipv6,
        target,
        &txt_attributes,
    );

    assert_eq!(cmds.len(), 1);
    assert_created(cmds.first().unwrap(), &service_tls, port_tls, ipv4, ipv6, &txt_attributes);

    let port_tcp = 5554u16;
    let service_tcp = FQServiceName::new(
        "D1_InstanceName".to_string(),
        TCP_CONNECT_SERVICE.to_string(),
        "local".to_string(),
    );
    now = epoch + 60 * NANOS_PER_SEC;
    cmds = create_service(
        now,
        &mut zero_conf,
        &service_tcp,
        port_tcp,
        ipv4,
        ipv6,
        target,
        &txt_attributes,
    );

    assert_eq!(cmds.len(), 1);
    assert_created(cmds.first().unwrap(), &service_tcp, port_tcp, ipv4, ipv6, &txt_attributes);

    now = epoch + 121 * NANOS_PER_SEC;
    zero_conf.set_time(now);
    (cmds, _) = zero_conf.tick();
    let delete_cmd = cmds.first().unwrap();
    match delete_cmd {
        ZeroConfigCommand::DeleteService { instance_name, service_type } => {
            assert_eq!(service_tls.instance_name, *instance_name);
            assert_eq!(service_tls.service_type, *service_type);
            assert_eq!(0, zero_conf.pending_command_count())
        }
        _ => {
            panic!("Unexpected command {:?}", delete_cmd);
        }
    }

    now = epoch + 181 * NANOS_PER_SEC;
    zero_conf.set_time(now);
    (cmds, _) = zero_conf.tick();
    let delete_cmd = cmds.first().unwrap();
    match delete_cmd {
        ZeroConfigCommand::DeleteService { instance_name, service_type } => {
            assert_eq!(service_tcp.instance_name, *instance_name);
            assert_eq!(service_tcp.service_type, *service_type);
            assert_eq!(0, zero_conf.pending_command_count())
        }
        _ => {
            panic!("Unexpected command {:?}", delete_cmd);
        }
    }
}

#[test]
fn test_on_stop() {
    let mut zero_conf = ZeroConfig::new();
    let epoch = EPOCH;
    let mut now = epoch;

    let port_tls = 5555u16;
    let service_tls = FQServiceName::new(
        "D1_InstanceName".to_string(),
        TLS_CONNECT_SERVICE.to_string(),
        "local".to_string(),
    );
    let target = "MyTarget.local";
    let ipv4 = ipv4_addr(127, 0, 0, 1);
    let ipv6 = ipv6_addr([0, 0, 0, 0, 0, 0, 0, 1]);
    let mut txt_attributes = TxtAttributes::new();
    txt_attributes.insert("key".to_owned(), "value".to_owned());
    txt_attributes.insert("key2".to_owned(), "value2".to_owned());
    let cmds = create_service(
        now,
        &mut zero_conf,
        &service_tls,
        port_tls,
        ipv4,
        ipv6,
        target,
        &txt_attributes,
    );

    assert_eq!(cmds.len(), 1);
    assert_created(cmds.first().unwrap(), &service_tls, port_tls, ipv4, ipv6, &txt_attributes);

    now += 2 * NANOS_PER_SEC;
    zero_conf.set_time(now);

    let cmds = zero_conf.on_stop();
    assert_eq!(cmds.len(), 1);
    let cmd_delete = cmds.first().unwrap();
    match cmd_delete {
        ZeroConfigCommand::DeleteService { instance_name, service_type } => {
            assert_eq!(service_tls.instance_name, *instance_name);
            assert_eq!(service_tls.service_type, *service_type);
        }
        _ => {
            panic!("Unexpected command {:?}", cmd_delete);
        }
    }
}

// Own scenarios.

#[test]
fn on_start_queries_each_tracked_service_type() {
    let zero_conf = ZeroConfig::new();
    let cmds = zero_conf.on_start();
    assert_eq!(cmds.len(), 3);
    let mut queries: Vec<String> = Vec::new();
    for cmd in &cmds {
        match cmd {
            ZeroConfigCommand::DnsQuery { query, qtype, qclass } => {
                assert_eq!(*qtype, QueryType::ANY);
                assert_eq!(*qclass, QueryClass::ANY);
                queries.push(query.clone());
            }
            other => panic!("Unexpected command {other:?}"),
        }
    }
    assert_eq!(
        queries,
        vec![
            "_adb-tls-connect._tcp.local".to_string(),
            "_adb-tls-pairing._tcp.local".to_string(),
            "_adb._tcp.local".to_string(),
        ]
    );
}

#[test]
fn tick_with_nothing_waits_sixty_seconds() {
    let mut zero_conf = ZeroConfig::new();
    zero_conf.set_time(EPOCH);
    let (cmds, wait) = zero_conf.tick();
    assert!(cmds.is_empty());
    assert_eq!(wait, 60 * NANOS_PER_SEC);
}

#[test]
fn tick_waits_until_the_eighty_percent_point() {
    let mut zero_conf = ZeroConfig::new();
    zero_conf.set_time(EPOCH);
    zero_conf.push_records(vec![a("host.local", ipv4_addr(10, 0, 0, 1))], vec![], vec![]);
    let (cmds, wait) = zero_conf.tick();
    assert!(cmds.is_empty());
    // 80% of 120 s.
    assert_eq!(wait, 96 * NANOS_PER_SEC);
    zero_conf.set_time(EPOCH + 96 * NANOS_PER_SEC);
    let (cmds, wait) = zero_conf.tick();
    assert_eq!(cmds.len(), 1);
    match &cmds[0] {
        ZeroConfigCommand::DnsQuery { query, qtype, qclass } => {
            assert_eq!(query, "host.local");
            assert_eq!(*qtype, QueryType::A);
            assert_eq!(*qclass, QueryClass::ANY);
        }
        other => panic!("Unexpected command {other:?}"),
    }
    // Next at 85%: 102 s.
    assert_eq!(wait, 6 * NANOS_PER_SEC);
}

#[test]
fn second_tick_at_the_same_instant_is_quiet() {
    let mut zero_conf = ZeroConfig::new();
    let service = FQServiceName::new(
        "I".to_string(),
        TLS_CONNECT_SERVICE.to_string(),
        "local".to_string(),
    );
    let mut attrs = TxtAttributes::new();
    attrs.insert("k".to_owned(), "v".to_owned());
    let ipv4 = ipv4_addr(192, 168, 1, 2);
    let ipv6 = ipv6_addr([0xfe80, 0, 0, 0, 0, 0, 0, 7]);
    let cmds = create_service(EPOCH, &mut zero_conf, &service, 40000, ipv4, ipv6, "h.local", &attrs);
    assert_eq!(cmds.len(), 1);
    let (cmds, _) = zero_conf.tick();
    assert!(cmds.is_empty());
    zero_conf.set_time(EPOCH + 97 * NANOS_PER_SEC);
    let (cmds, _) = zero_conf.tick();
    assert_eq!(cmds.len(), 5);
    let (cmds, _) = zero_conf.tick();
    assert!(cmds.is_empty());
}

#[test]
fn records_of_untracked_services_are_ignored() {
    let mut zero_conf = ZeroConfig::new();
    let service =
        FQServiceName::new("x".to_string(), "_other._udp".to_string(), "local".to_string());
    let attrs = TxtAttributes::new();
    let cmds = create_service(
        EPOCH,
        &mut zero_conf,
        &service,
        1,
        ipv4_addr(1, 2, 3, 4),
        ipv6_addr([0, 0, 0, 0, 0, 0, 0, 1]),
        "t.local",
        &attrs,
    );
    assert!(cmds.is_empty());
    assert_eq!(zero_conf.store().ptrs.len(), 0);
    assert_eq!(zero_conf.store().srvs.len(), 0);
    assert_eq!(zero_conf.store().txts.len(), 0);
    // Address records are kept whatever their name.
    assert_eq!(zero_conf.store().ipv4s.len(), 1);
    assert_eq!(zero_conf.store().ipv6s.len(), 1);
}

#[test]
fn service_with_one_address_family_is_reachable() {
    let mut zero_conf = ZeroConfig::new();
    let service = FQServiceName::new(
        "I".to_string(),
        TLS_CONNECT_SERVICE.to_string(),
        "local".to_string(),
    );
    let fq = service.fq_name();
    zero_conf.set_time(EPOCH);
    zero_conf.push_records(
        vec![
            a("h.local", ipv4_addr(10, 1, 1, 1)),
            srv(&fq, "h.local", 7),
            ptr(&service.service_type_with_local, &fq),
        ],
        vec![],
        vec![],
    );
    let (cmds, _) = zero_conf.tick();
    assert_eq!(cmds.len(), 1);
    match &cmds[0] {
        ZeroConfigCommand::CreateService { port, txt, ipv4s, ipv6s, .. } => {
            assert_eq!(*port, 7);
            assert_eq!(txt.len(), 0);
            assert!(ipv4s.contains(&ipv4_addr(10, 1, 1, 1)));
            assert_eq!(ipv6s.len(), 0);
        }
        other => panic!("Unexpected command {other:?}"),
    }
    // An IPv6 address found later updates the service.
    zero_conf.push_records(vec![], vec![aaaa("h.local", ipv6_addr([0, 0, 0, 0, 0, 0, 0, 1]))], vec![]);
    let (cmds, _) = zero_conf.tick();
    assert_eq!(cmds.len(), 1);
    match &cmds[0] {
        ZeroConfigCommand::UpdateService { ipv4s, ipv6s, .. } => {
            assert_eq!(ipv4s.len(), 1);
            assert_eq!(ipv6s.len(), 1);
        }
        other => panic!("Unexpected command {other:?}"),
    }
}

#[test]
fn ipv6_only_service_is_reachable() {
    let mut zero_conf = ZeroConfig::new();
    let service = FQServiceName::new(
        "J".to_string(),
        TCP_CONNECT_SERVICE.to_string(),
        "local".to_string(),
    );
    let fq = service.fq_name();
    zero_conf.set_time(EPOCH);
    zero_conf.push_records(
        vec![
            aaaa("v6.local", ipv6_addr([0xfe80, 0, 0, 0, 0, 0, 0, 9])),
            srv(&fq, "v6.local", 9),
            ptr(&service.service_type_with_local, &fq),
        ],
        vec![],
        vec![],
    );
    let (cmds, _) = zero_conf.tick();
    assert_eq!(cmds.len(), 1);
    assert!(matches!(&cmds[0], ZeroConfigCommand::CreateService { .. }));
}

#[test]
fn txt_key_without_value_maps_to_empty_text() {
    let mut zero_conf = ZeroConfig::new();
    let service = FQServiceName::new(
        "I".to_string(),
        TLS_CONNECT_SERVICE.to_string(),
        "local".to_string(),
    );
    let fq = service.fq_name();
    zero_conf.set_time(EPOCH);
    let txt_record = ResourceRecord {
        name: labels(&fq),
        ttl: 120,
        rdata: RecordData::TXT {
            attributes: vec![("flag".to_string(), None), ("k".to_string(), Some("v".to_string()))],
        },
    };
    zero_conf.push_records(
        vec![
            txt_record,
            a("h.local", ipv4_addr(10, 1, 1, 1)),
            aaaa("h.local", ipv6_addr([0, 0, 0, 0, 0, 0, 0, 1])),
            srv(&fq, "h.local", 7),
            ptr(&service.service_type_with_local, &fq),
        ],
        vec![],
        vec![],
    );
    let (cmds, _) = zero_conf.tick();
    assert_eq!(cmds.len(), 1);
    let mut expected = TxtAttributes::new();
    expected.insert("flag".to_string(), String::new());
    expected.insert("k".to_string(), "v".to_string());
    match &cmds[0] {
        ZeroConfigCommand::CreateService { txt, .. } => assert_eq!(*txt, expected),
        other => panic!("Unexpected command {other:?}"),
    }
}

// Packets, as the bytes received from the network.

fn packet_bytes(fq: &str, service_type_with_local: &str, target: &str) -> Vec<u8> {
    let mut packet = Packet::new_reply(0);
    let mut txt = TXT::new();
    txt.add_string("Key=value").unwrap();
    txt.add_string("flag").unwrap();
    packet.answers.push(DnsRecord::new(
        Name::new_unchecked(service_type_with_local),
        CLASS::IN,
        4500,
        RData::PTR(PTR(Name::new_unchecked(fq))),
    ));
    packet.additional_records.push(DnsRecord::new(
        Name::new_unchecked(fq),
        CLASS::IN,
        120,
        RData::SRV(SRV { priority: 0, weight: 0, port: 5555, target: Name::new_unchecked(target) }),
    ));
    packet.additional_records.push(DnsRecord::new(
        Name::new_unchecked(fq),
        CLASS::IN,
        120,
        RData::TXT(txt),
    ));
    packet.additional_records.push(DnsRecord::new(
        Name::new_unchecked(target),
        CLASS::IN,
        120,
        RData::A(A { address: ipv4_addr(192, 168, 0, 7) }),
    ));
    packet.additional_records.push(DnsRecord::new(
        Name::new_unchecked(target),
        CLASS::IN,
        120,
        RData::AAAA(AAAA { address: 1 }),
    ));
    packet.build_bytes_vec().unwrap()
}

#[test]
fn received_packet_creates_the_service() {
    let service = FQServiceName::new(
        "Dev".to_string(),
        TLS_CONNECT_SERVICE.to_string(),
        "local".to_string(),
    );
    let fq = service.fq_name();
    let bytes = packet_bytes(&fq, &service.service_type_with_local.0, "host.local");

    let records = adbmdns::zero_config::decode_packet(&bytes).unwrap();
    assert_eq!(records.len(), 5);
    assert_eq!(records[0].name, labels("_adb-tls-connect._tcp.local"));
    assert_eq!(records[0].ttl, 4500);
    assert_eq!(records[3].name, labels("host.local"));

    let mut zero_conf = ZeroConfig::new();
    zero_conf.set_time(EPOCH);
    assert!(zero_conf.receive_packet(&bytes));
    let (cmds, _) = zero_conf.tick();
    assert_eq!(cmds.len(), 1);
    let mut expected = TxtAttributes::new();
    // simple_dns gives the keys in lower case.
    expected.insert("key".to_string(), "value".to_string());
    expected.insert("flag".to_string(), String::new());
    match &cmds[0] {
        ZeroConfigCommand::CreateService { instance_name, service_type, ipv4s, ipv6s, port, txt } => {
            assert_eq!(instance_name, "Dev");
            assert_eq!(service_type, TLS_CONNECT_SERVICE);
            assert_eq!(*port, 5555);
            assert!(ipv4s.contains(&ipv4_addr(192, 168, 0, 7)));
            assert!(ipv6s.contains(&1));
            assert_eq!(*txt, expected);
        }
        other => panic!("Unexpected command {other:?}"),
    }
}

#[test]
fn bytes_that_are_no_packet_change_nothing() {
    let mut zero_conf = ZeroConfig::new();
    zero_conf.set_time(EPOCH);
    assert!(adbmdns::zero_config::decode_packet(&[1, 2, 3]).is_none());
    assert!(!zero_conf.receive_packet(&[1, 2, 3]));
    let (cmds, wait) = zero_conf.tick();
    assert!(cmds.is_empty());
    assert_eq!(wait, 60 * NANOS_PER_SEC);
}
