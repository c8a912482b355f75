use std::sync::Mutex;

use walrus_orchestrator::client::ServerProviderClient;
use walrus_orchestrator::instance::{Instance, Ipv4Address, SSH_PORT};
use walrus_orchestrator::status::{classify, classify_lowered, InstanceStatus};
use walrus_orchestrator::test_client::{Settings, TestClient};

fn client() -> TestClient {
    TestClient::new(Settings { specs: String::from("small-2cpu") })
}

fn instance(id: &str, status: InstanceStatus) -> Instance {
    Instance {
        id: id.to_string(),
        region: String::from("eu-west"),
        main_ip: Ipv4Address { bits: 0x0a00_0001 },
        tags: vec![String::from("bench")],
        specs: String::from("large"),
        status,
    }
}

#[test]
fn classify_ignores_case() {
    assert_eq!(classify("Running"), InstanceStatus::Active);
    assert_eq!(classify("RUNNING"), InstanceStatus::Active);
    assert_eq!(classify("running"), InstanceStatus::Active);
    assert_eq!(classify("terminated"), InstanceStatus::Terminated);
    assert_eq!(classify("TERMINATED"), InstanceStatus::Terminated);
}

#[test]
fn classify_defaults_to_inactive() {
    assert_eq!(classify(""), InstanceStatus::Inactive);
    assert_eq!(classify("pending"), InstanceStatus::Inactive);
    assert_eq!(classify("stopping"), InstanceStatus::Inactive);
    assert_eq!(classify("run"), InstanceStatus::Inactive);
    assert_eq!(classify("running "), InstanceStatus::Inactive);
}

#[test]
fn classify_lowered_is_exact() {
    assert_eq!(classify_lowered("running"), InstanceStatus::Active);
    assert_eq!(classify_lowered("terminated"), InstanceStatus::Terminated);
    assert_eq!(classify_lowered("Running"), InstanceStatus::Inactive);
    assert_eq!(classify_lowered("runningx"), InstanceStatus::Inactive);
    assert_eq!(classify_lowered(""), InstanceStatus::Inactive);
}

#[test]
fn status_from_str() {
    assert_eq!(InstanceStatus::from("Running"), InstanceStatus::Active);
    assert_eq!(InstanceStatus::from("Terminated"), InstanceStatus::Terminated);
    assert_eq!(InstanceStatus::from("stopped"), InstanceStatus::Inactive);
}

#[test]
fn status_queries_agree() {
    let a = instance("a", InstanceStatus::Active);
    assert!(a.is_active() && !a.is_inactive() && !a.is_terminated());
    let i = instance("i", InstanceStatus::Inactive);
    assert!(!i.is_active() && i.is_inactive() && !i.is_terminated());
    let t = instance("t", InstanceStatus::Terminated);
    assert!(!t.is_active() && t.is_inactive() && t.is_terminated());
}

#[test]
fn ssh_address_uses_port_22() {
    let a = instance("a", InstanceStatus::Active);
    let addr = a.ssh_address();
    assert_eq!(a, a.clone());
    assert_eq!(addr.port, 22);
    assert_eq!(SSH_PORT, 22);
    assert_eq!(addr.ip, Ipv4Address { bits: 0x0a00_0001 });
    assert_eq!(addr.ip.octets(), [10, 0, 0, 1]);
}

#[test]
fn octets_most_significant_first() {
    assert_eq!(Ipv4Address { bits: 0xc0a8_0102 }.octets(), [192, 168, 1, 2]);
    assert_eq!(Ipv4Address { bits: 0 }.octets(), [0, 0, 0, 0]);
    assert_eq!(Ipv4Address { bits: u32::MAX }.octets(), [255, 255, 255, 255]);
}

#[test]
fn clone_keeps_every_field() {
    let a = instance("7", InstanceStatus::Inactive);
    let b = a.clone();
    assert_eq!(b.id, "7");
    assert_eq!(b.region, "eu-west");
    assert_eq!(b.main_ip, a.main_ip);
    assert_eq!(b.tags, vec![String::from("bench")]);
    assert_eq!(b.specs, "large");
    assert_eq!(b.status, InstanceStatus::Inactive);
}

#[test]
fn sequential_creates_have_distinct_ids() {
    let mut c = client();
    let n: u32 = 12;
    for k in 0..n {
        let x = c.create_instance(String::from("us-east")).unwrap();
        assert_eq!(x.id, k.to_string());
        assert_eq!(x.main_ip, Ipv4Address { bits: 0x7f00_0000 + k });
        assert_eq!(x.main_ip.octets(), [127, 0, 0, k as u8]);
    }
    let listed = c.list_instances().unwrap();
    assert_eq!(listed.len(), n as usize);
    let mut ids: Vec<String> = listed.iter().map(|x| x.id.clone()).collect();
    ids.sort_by_key(|s| s.parse::<u32>().unwrap());
    let expected: Vec<String> = (0..n).map(|k| k.to_string()).collect();
    assert_eq!(ids, expected);
    let mut ips: Vec<u32> = listed.iter().map(|x| x.main_ip.bits).collect();
    ips.sort();
    ips.dedup();
    assert_eq!(ips.len(), n as usize);
}

#[test]
fn created_ids_reach_two_digits() {
    let mut c = client();
    for _ in 0..11 {
        c.create_instance(String::from("r")).unwrap();
    }
    let listed = c.list_instances().unwrap();
    assert_eq!(listed[10].id, "10");
    assert_eq!(listed[10].main_ip.octets(), [127, 0, 0, 10]);
    assert_eq!(listed[10].ssh_address().ip.octets(), [127, 0, 0, 10]);
}

#[test]
fn start_on_active_is_idempotent() {
    let mut c = client();
    let x = c.create_instance(String::from("us-east")).unwrap();
    assert!(x.is_active());
    c.start_instances(&[x.clone()]).unwrap();
    c.start_instances(&[x.clone()]).unwrap();
    let listed = c.list_instances().unwrap();
    assert_eq!(listed.len(), 1);
    assert_eq!(listed[0].status, InstanceStatus::Active);
}

#[test]
fn stop_unknown_id_is_noop() {
    let mut c = client();
    c.create_instance(String::from("us-east")).unwrap();
    c.create_instance(String::from("us-west")).unwrap();
    let stranger = instance("99", InstanceStatus::Active);
    assert!(c.stop_instances(&[stranger]).is_ok());
    let listed = c.list_instances().unwrap();
    assert_eq!(listed.len(), 2);
    assert!(listed.iter().all(|x| x.status == InstanceStatus::Active));
    assert_eq!(listed[0].region, "us-east");
    assert_eq!(listed[1].region, "us-west");
}

#[test]
fn stop_then_start_toggles_only_given() {
    let mut c = client();
    let a = c.create_instance(String::from("r1")).unwrap();
    let b = c.create_instance(String::from("r2")).unwrap();
    c.stop_instances(&[a.clone()]).unwrap();
    let listed = c.list_instances().unwrap();
    assert_eq!(listed[0].status, InstanceStatus::Inactive);
    assert_eq!(listed[1].status, InstanceStatus::Active);
    c.stop_instances(&[a.clone(), b.clone()]).unwrap();
    c.start_instances(&[b.clone()]).unwrap();
    let listed = c.list_instances().unwrap();
    assert_eq!(listed[0].status, InstanceStatus::Inactive);
    assert_eq!(listed[1].status, InstanceStatus::Active);
}

#[test]
fn delete_removes_id_and_repeats_quietly() {
    let mut c = client();
    let a = c.create_instance(String::from("r")).unwrap();
    let b = c.create_instance(String::from("r")).unwrap();
    assert!(c.delete_instance(a.clone()).is_ok());
    let listed = c.list_instances().unwrap();
    assert!(listed.iter().all(|x| x.id != a.id));
    assert_eq!(listed.len(), 1);
    assert_eq!(listed[0].id, b.id);
    assert!(c.delete_instance(a.clone()).is_ok());
    c.start_instances(&[a.clone()]).unwrap();
    let listed = c.list_instances().unwrap();
    assert_eq!(listed.len(), 1);
    assert!(listed.iter().all(|x| x.id != a.id));
}

#[test]
fn deleted_id_is_never_issued_again() {
    let mut c = client();
    let a = c.create_instance(String::from("r")).unwrap();
    let b = c.create_instance(String::from("r")).unwrap();
    c.delete_instance(b.clone()).unwrap();
    let d = c.create_instance(String::from("r")).unwrap();
    assert_eq!(d.id, "2");
    assert_eq!(d.main_ip.octets(), [127, 0, 0, 2]);
    c.delete_instance(a.clone()).unwrap();
    c.delete_instance(d.clone()).unwrap();
    let e = c.create_instance(String::from("r")).unwrap();
    assert_eq!(e.id, "3");
    let listed = c.list_instances().unwrap();
    assert_eq!(listed.len(), 1);
    assert!(listed.iter().all(|x| x.id != a.id && x.id != b.id && x.id != d.id));
}

#[test]
fn stop_then_start_restores_table() {
    let mut c = client();
    let a = c.create_instance(String::from("r1")).unwrap();
    c.create_instance(String::from("r2")).unwrap();
    let before = c.list_instances().unwrap();
    c.stop_instances(&[a.clone()]).unwrap();
    c.start_instances(&[a.clone()]).unwrap();
    assert_eq!(c.list_instances().unwrap(), before);
}

#[test]
fn instance_equality_compares_every_field() {
    let a = instance("1", InstanceStatus::Active);
    assert!(a == a.clone());
    let mut b = a.clone();
    b.tags.push(String::from("extra"));
    assert!(a != b);
    let mut c = a.clone();
    c.status = InstanceStatus::Inactive;
    assert!(a != c);
    let mut d = a.clone();
    d.main_ip = Ipv4Address { bits: 1 };
    assert!(a != d);
    let mut e = a.clone();
    e.tags = vec![String::from("other")];
    assert!(a != e);
}

#[test]
fn delete_on_empty_client_succeeds() {
    let mut c = client();
    assert!(c.delete_instance(instance("0", InstanceStatus::Active)).is_ok());
    assert!(c.list_instances().unwrap().is_empty());
}

#[test]
fn create_stop_delete_scenario() {
    let mut c = client();
    let x = c.create_instance(String::from("us-east")).unwrap();
    assert_eq!(x.status, InstanceStatus::Active);
    assert_eq!(x.region, "us-east");
    assert_eq!(x.specs, "small-2cpu");
    assert!(x.tags.is_empty());
    c.stop_instances(&[x.clone()]).unwrap();
    let listed = c.list_instances().unwrap();
    let found: Vec<&Instance> = listed.iter().filter(|y| y.id == x.id).collect();
    assert_eq!(found.len(), 1);
    assert_eq!(found[0].status, InstanceStatus::Inactive);
    c.delete_instance(x).unwrap();
    assert!(c.list_instances().unwrap().is_empty());
}

#[test]
fn creates_through_a_lock_have_distinct_ids() {
    let shared = Mutex::new(client());
    let n: usize = 16;
    let tasks: Vec<Box<dyn Fn() -> Instance + '_>> = (0..n)
        .map(|k| {
            let shared = &shared;
            Box::new(move || {
                let mut guard = shared.lock().unwrap();
                if k % 3 == 0 {
                    guard.register_ssh_public_key(String::from("key")).unwrap();
                }
                guard.create_instance(format!("region-{k}")).unwrap()
            }) as Box<dyn Fn() -> Instance + '_>
        })
        .collect();
    let made: Vec<Instance> = tasks.iter().rev().map(|t| t()).collect();
    let mut ids: Vec<String> = made.iter().map(|x| x.id.clone()).collect();
    ids.sort();
    ids.dedup();
    assert_eq!(ids.len(), n);
    let listed = shared.lock().unwrap().list_instances().unwrap();
    assert_eq!(listed.len(), n);
}

#[test]
fn fixed_names_and_no_ops() {
    let mut c = client();
    assert_eq!(TestClient::USERNAME, "root");
    assert_eq!(c.identify(), "TestClient");
    assert!(c.register_ssh_public_key(String::from("ssh-ed25519 AAAA")).is_ok());
    assert!(c.register_ssh_public_key(String::from("ssh-ed25519 AAAA")).is_ok());
    assert!(c.instance_setup_commands().unwrap().is_empty());
    assert!(c.list_instances().unwrap().is_empty());
}
