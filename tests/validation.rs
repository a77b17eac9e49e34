use radiucal_admin::audit::audit_line;
use radiucal_admin::model::{
    distinct, keys_unique, vlan_names_unique, Device, MacBinding, Object, Password, User, Vlan,
};
use radiucal_admin::tree::{is_config_file, vlans_defined};
use radiucal_admin::validate::{check_objects, known_mode, Audit, Diagnostic, Manifest};

fn s(x: &str) -> String {
    x.to_string()
}

fn vlan(name: &str, number: u32, initiate: &[&str]) -> Vlan {
    Vlan {
        name: s(name),
        number,
        initiate: initiate.iter().map(|x| s(x)).collect(),
        cell: s("main"),
        lan: s("lan"),
        owner: s("ops"),
        description: s("desc"),
    }
}

fn object(name: &str) -> Object {
    Object { name: s(name), make: s("acme"), model: s("x1"), obj_type: s("computer") }
}

fn binding(mac: &str, mode: &str, vlan: &str) -> MacBinding {
    MacBinding { mac: s(mac), mode: s(mode), vlan: s(vlan) }
}

fn user(name: &str, default_vlan: &str, devices: Vec<Device>) -> User {
    User { name: s(name), default_vlan: s(default_vlan), devices }
}

fn device(name: &str, base: &str, macs: Vec<MacBinding>) -> Device {
    Device { name: s(name), base: s(base), macs }
}

fn password(user: &str) -> Password {
    Password { user: s(user), pass: s("SECRET-REDACTED") }
}

fn alice_with(mode: &str, vlan: &str) -> (Vec<Vlan>, Vec<Object>, Vec<User>, Vec<Password>) {
    (
        vec![vlan_staff()],
        vec![object("laptop")],
        vec![user(
            "alice",
            "staff",
            vec![device("dev", "laptop", vec![binding("aa:bb:cc:dd:ee:ff", mode, vlan)])],
        )],
        vec![password("alice")],
    )
}

fn vlan_staff() -> Vlan {
    vlan("staff", 10, &[])
}

fn manifest_of(r: Result<Manifest, Diagnostic>) -> Manifest {
    match r {
        Ok(m) => m,
        Err(d) => panic!("unexpected diagnostic {:?}", d),
    }
}

#[test]
fn owned_mac_audits_as_not_applicable() {
    let (v, o, u, p) = alice_with("owned", "");
    let m = manifest_of(check_objects(&v, &o, &u, &p));
    assert_eq!(m.audits(), vec![s("alice,n/a,aa:bb:cc:dd:ee:ff\n")]);
    assert!(m.whitelist.is_empty() && m.eap_users.is_empty() && m.sys_info.is_empty());
}

#[test]
fn mab_without_vlan_audits_empty_vlan() {
    let (v, o, u, p) = alice_with("mab", "");
    let m = manifest_of(check_objects(&v, &o, &u, &p));
    assert_eq!(m.audits(), vec![s("alice,,aa:bb:cc:dd:ee:ff\n")]);
}

#[test]
fn login_mac_audits_its_vlan() {
    let (v, o, u, p) = alice_with("login", "staff");
    let m = manifest_of(check_objects(&v, &o, &u, &p));
    assert_eq!(m.audits(), vec![s("alice,staff,aa:bb:cc:dd:ee:ff\n")]);
}

#[test]
fn dangling_initiate_is_rejected() {
    let (mut v, o, u, p) = alice_with("owned", "");
    v.push(vlan("guest", 20, &["staff", "nowhere"]));
    match check_objects(&v, &o, &u, &p) {
        Err(Diagnostic::UnknownInitiate { vlan, target }) => {
            assert_eq!(vlan, "guest");
            assert_eq!(target, "nowhere");
        }
        other => panic!("unexpected {:?}", other.err()),
    }
}

#[test]
fn self_and_cyclic_initiate_are_accepted() {
    let (mut v, o, u, p) = alice_with("owned", "");
    v[0].initiate = vec![s("staff"), s("guest")];
    v.push(vlan("guest", 20, &["staff"]));
    assert!(check_objects(&v, &o, &u, &p).is_ok());
}

#[test]
fn unknown_default_vlan_is_rejected() {
    let (v, o, mut u, p) = alice_with("owned", "");
    u[0].default_vlan = s("lab");
    match check_objects(&v, &o, &u, &p) {
        Err(Diagnostic::UnknownDefaultVlan { user, vlan }) => {
            assert_eq!(user, "alice");
            assert_eq!(vlan, "lab");
        }
        other => panic!("unexpected {:?}", other.err()),
    }
}

#[test]
fn missing_password_is_rejected() {
    let (v, o, u, _) = alice_with("owned", "");
    match check_objects(&v, &o, &u, &vec![password("bob")]) {
        Err(Diagnostic::MissingPassword { user }) => assert_eq!(user, "alice"),
        other => panic!("unexpected {:?}", other.err()),
    }
}

#[test]
fn unknown_base_is_rejected() {
    let (v, _, u, p) = alice_with("owned", "");
    match check_objects(&v, &vec![object("phone")], &u, &p) {
        Err(Diagnostic::UnknownBase { user, device, base }) => {
            assert_eq!(user, "alice");
            assert_eq!(device, "dev");
            assert_eq!(base, "laptop");
        }
        other => panic!("unexpected {:?}", other.err()),
    }
}

#[test]
fn unknown_mode_is_rejected() {
    let (v, o, u, p) = alice_with("guest", "");
    match check_objects(&v, &o, &u, &p) {
        Err(Diagnostic::UnknownMode { user, mac }) => {
            assert_eq!(user, "alice");
            assert_eq!(mac, "aa:bb:cc:dd:ee:ff");
        }
        other => panic!("unexpected {:?}", other.err()),
    }
}

#[test]
fn mac_changing_mode_across_users_is_rejected() {
    let (v, o, mut u, mut p) = alice_with("owned", "");
    u.push(user(
        "bob",
        "staff",
        vec![device("phone", "laptop", vec![binding("aa:bb:cc:dd:ee:ff", "mab", "staff")])],
    ));
    p.push(password("bob"));
    match check_objects(&v, &o, &u, &p) {
        Err(Diagnostic::ModeChanged { user, mac }) => {
            assert_eq!(user, "bob");
            assert_eq!(mac, "aa:bb:cc:dd:ee:ff");
        }
        other => panic!("unexpected {:?}", other.err()),
    }
}

#[test]
fn mac_with_same_mode_twice_gives_two_rows() {
    let (v, o, mut u, mut p) = alice_with("mab", "staff");
    u.push(user(
        "bob",
        "staff",
        vec![device("phone", "laptop", vec![binding("aa:bb:cc:dd:ee:ff", "mab", "guest")])],
    ));
    p.push(password("bob"));
    let m = manifest_of(check_objects(&v, &o, &u, &p));
    assert_eq!(m.audit.len(), 2);
    assert_eq!(
        m.audits(),
        vec![s("alice,staff,aa:bb:cc:dd:ee:ff\n"), s("bob,guest,aa:bb:cc:dd:ee:ff\n")]
    );
}

#[test]
fn first_broken_rule_is_reported() {
    let (mut v, o, mut u, _) = alice_with("bogus", "");
    v.push(vlan("guest", 20, &["nowhere"]));
    u[0].default_vlan = s("lab");
    assert!(matches!(
        check_objects(&v, &o, &u, &vec![]),
        Err(Diagnostic::UnknownInitiate { .. })
    ));
    v.pop();
    assert!(matches!(
        check_objects(&v, &o, &u, &vec![]),
        Err(Diagnostic::UnknownDefaultVlan { .. })
    ));
    u[0].default_vlan = s("staff");
    assert!(matches!(
        check_objects(&v, &o, &u, &vec![]),
        Err(Diagnostic::MissingPassword { .. })
    ));
}

#[test]
fn audit_rows_are_sorted_whatever_the_user_order() {
    let v = vec![vlan_staff()];
    let o = vec![object("laptop")];
    let carol = user(
        "carol",
        "staff",
        vec![device("d", "laptop", vec![binding("02", "owned", ""), binding("01", "login", "staff")])],
    );
    let bob = user("bob", "staff", vec![device("d", "laptop", vec![binding("03", "owned", "")])]);
    let p = vec![password("bob"), password("carol")];
    let m1 = manifest_of(check_objects(&v, &o, &vec![carol, bob], &p));
    let carol = user(
        "carol",
        "staff",
        vec![device("d", "laptop", vec![binding("01", "login", "staff"), binding("02", "owned", "")])],
    );
    let bob = user("bob", "staff", vec![device("d", "laptop", vec![binding("03", "owned", "")])]);
    let m2 = manifest_of(check_objects(&v, &o, &vec![bob, carol], &p));
    let expected = vec![s("bob,n/a,03\n"), s("carol,n/a,02\n"), s("carol,staff,01\n")];
    assert_eq!(m1.audits(), expected);
    assert_eq!(m2.audits(), expected);
}

#[test]
fn audit_line_renders_fields() {
    let a = Audit { user: s("u"), vlan: s("v"), mac: s("m") };
    assert_eq!(audit_line(&a), "u,v,m\n");
}

#[test]
fn modes_are_recognised() {
    assert!(known_mode(&s("mab")));
    assert!(known_mode(&s("login")));
    assert!(known_mode(&s("owned")));
    assert!(!known_mode(&s("Owned")));
    assert!(!known_mode(&s("")));
}

#[test]
fn keyed_tables_are_recognised() {
    let (v, o, u, p) = alice_with("owned", "");
    assert!(keys_unique(&v, &o, &u, &p));
    let mut v2 = vec![vlan_staff(), vlan_staff()];
    assert!(!vlan_names_unique(&v2));
    assert!(!keys_unique(&v2, &o, &u, &p));
    v2[1].name = s("guest");
    assert!(keys_unique(&v2, &o, &u, &p));
    let mut p2 = p;
    p2.push(password("alice"));
    assert!(!keys_unique(&v, &o, &u, &p2));
}

#[test]
fn mac_listed_twice_in_a_device_is_not_keyed() {
    let (v, o, mut u, p) = alice_with("owned", "");
    u[0].devices[0].macs.push(binding("aa:bb:cc:dd:ee:ff", "owned", ""));
    assert!(!keys_unique(&v, &o, &u, &p));
    u[0].devices[0].macs[1].mac = s("11:22:33:44:55:66");
    assert!(keys_unique(&v, &o, &u, &p));
}

#[test]
fn distinct_strings() {
    assert!(distinct(&vec![]));
    assert!(distinct(&vec![s("a"), s("b")]));
    assert!(!distinct(&vec![s("a"), s("b"), s("a")]));
}

#[test]
fn source_files_end_in_yaml() {
    assert!(is_config_file(&s("/etc/configs/users.yaml")));
    assert!(is_config_file(&s(".yaml")));
    assert!(!is_config_file(&s("users.yml")));
    assert!(!is_config_file(&s("yaml")));
    assert!(!is_config_file(&s("users.yaml.bak")));
}

#[test]
fn empty_segment_table_is_refused() {
    assert!(!vlans_defined(&vec![]));
    assert!(vlans_defined(&vec![vlan_staff()]));
}
