//! Cross-table validation of a loaded configuration, producing the manifest
//! of derived records or the diagnostic of the first rule broken.
use crate::model::{
    binding_macs, binding_views, collect_bindings, device_rows, mac_rows, occurrences, tables_keyed,
    Device, MacBinding, Binding, BindingView, Object, Password, User, Vlan,
};
use vstd::prelude::*;

verus! {

/// One audit record: who holds a MAC, and in which segment.
pub struct Audit {
    pub user: String,
    pub vlan: String,
    pub mac: String,
}

pub ghost struct AuditView {
    pub user: Seq<char>,
    pub vlan: Seq<char>,
    pub mac: Seq<char>,
}

impl View for Audit {
    type V = AuditView;

    open spec fn view(&self) -> AuditView {
        AuditView { user: self.user@, vlan: self.vlan@, mac: self.mac@ }
    }
}

pub struct Whitelist {
    pub user: String,
    pub mac: String,
}

pub struct Eap {
    pub user: String,
    pub pass: String,
    pub vlan: i32,
    pub md5: bool,
}

pub struct SysInfo {
    pub id: String,
    pub make: String,
    pub model: String,
    pub obj_type: String,
    pub system_type: String,
    pub user: String,
}

/// The derived records of a configuration that passed validation.
pub struct Manifest {
    pub audit: Vec<Audit>,
    pub whitelist: Vec<Whitelist>,
    pub eap_users: Vec<Eap>,
    pub sys_info: Vec<SysInfo>,
}

/// Why a configuration was refused; each names the offending entity.
#[derive(Debug)]
pub enum Diagnostic {
    UnknownInitiate { vlan: String, target: String },
    UnknownDefaultVlan { user: String, vlan: String },
    MissingPassword { user: String },
    UnknownBase { user: String, device: String, base: String },
    UnknownMode { user: String, mac: String },
    ModeChanged { user: String, mac: String },
}

pub open spec fn mode_mab() -> Seq<char> {
    seq!['m', 'a', 'b']
}

pub open spec fn mode_login() -> Seq<char> {
    seq!['l', 'o', 'g', 'i', 'n']
}

pub open spec fn mode_owned() -> Seq<char> {
    seq!['o', 'w', 'n', 'e', 'd']
}

pub open spec fn not_applicable() -> Seq<char> {
    seq!['n', '/', 'a']
}

pub open spec fn is_mode(m: Seq<char>) -> bool {
    m == mode_mab() || m == mode_login() || m == mode_owned()
}

pub open spec fn has_vlan(vlans: Seq<Vlan>, name: Seq<char>) -> bool {
    exists|i: int| 0 <= i < vlans.len() && #[trigger] vlans[i].name@ == name
}

pub open spec fn has_object(objects: Seq<Object>, name: Seq<char>) -> bool {
    exists|i: int| 0 <= i < objects.len() && #[trigger] objects[i].name@ == name
}

pub open spec fn has_password(passes: Seq<Password>, user: Seq<char>) -> bool {
    exists|i: int| 0 <= i < passes.len() && #[trigger] passes[i].user@ == user
}

/// Rule 1: initiate lists name existing segments only.
pub open spec fn initiates_known(vlans: Seq<Vlan>) -> bool {
    forall|i: int, j: int|
        0 <= i < vlans.len() && 0 <= j < vlans[i].initiate@.len() ==> has_vlan(
            vlans,
            #[trigger] vlans[i].initiate@[j]@,
        )
}

/// Rule 2: every user's default segment exists.
pub open spec fn default_vlans_known(vlans: Seq<Vlan>, users: Seq<User>) -> bool {
    forall|u: int| 0 <= u < users.len() ==> has_vlan(vlans, #[trigger] users[u].default_vlan@)
}

/// Rule 3: every user has a password entry.
pub open spec fn passwords_present(users: Seq<User>, passes: Seq<Password>) -> bool {
    forall|u: int| 0 <= u < users.len() ==> has_password(passes, #[trigger] users[u].name@)
}

/// Rule 4: every device is an instance of a catalog object.
pub open spec fn bases_known(users: Seq<User>, objects: Seq<Object>) -> bool {
    forall|u: int, d: int|
        0 <= u < users.len() && 0 <= d < users[u].devices@.len() ==> has_object(
            objects,
            #[trigger] users[u].devices@[d].base@,
        )
}

/// Rule 5: every binding has a known mode.
pub open spec fn modes_known(occ: Seq<BindingView>) -> bool {
    forall|k: int| 0 <= k < occ.len() ==> is_mode(#[trigger] occ[k].mode)
}

/// Rule 6: all occurrences of one MAC carry one mode.
pub open spec fn macs_consistent(occ: Seq<BindingView>) -> bool {
    forall|a: int, b: int|
        0 <= a < occ.len() && 0 <= b < occ.len() && #[trigger] occ[a].mac == #[trigger] occ[b].mac
            ==> occ[a].mode == occ[b].mode
}

pub open spec fn config_valid(
    vlans: Seq<Vlan>,
    objects: Seq<Object>,
    users: Seq<User>,
    passes: Seq<Password>,
) -> bool {
    &&& initiates_known(vlans)
    &&& default_vlans_known(vlans, users)
    &&& passwords_present(users, passes)
    &&& bases_known(users, objects)
    &&& modes_known(occurrences(users))
    &&& macs_consistent(occurrences(users))
}

/// The audit record of one binding: `n/a` for owned MACs, else its segment.
pub open spec fn audit_of(b: BindingView) -> AuditView {
    AuditView {
        user: b.user,
        vlan: if b.mode == mode_owned() {
            not_applicable()
        } else {
            b.vlan
        },
        mac: b.mac,
    }
}

pub open spec fn audit_views(s: Seq<Audit>) -> Seq<AuditView> {
    s.map_values(|a: Audit| a@)
}

pub open spec fn audits_of(users: Seq<User>) -> Seq<AuditView> {
    occurrences(users).map_values(|b: BindingView| audit_of(b))
}

fn find_vlan(vlans: &Vec<Vlan>, name: &String) -> (r: bool)
    ensures
        r == has_vlan(vlans@, name@),
{
    let mut i: usize = 0;
    while i < vlans.len()
        invariant
            i <= vlans@.len(),
            forall|k: int| 0 <= k < i ==> vlans@[k].name@ != name@,
        decreases vlans@.len() - i,
    {
        if vlans[i].name == *name {
            return true;
        }
        i = i + 1;
    }
    false
}

fn find_object(objects: &Vec<Object>, name: &String) -> (r: bool)
    ensures
        r == has_object(objects@, name@),
{
    let mut i: usize = 0;
    while i < objects.len()
        invariant
            i <= objects@.len(),
            forall|k: int| 0 <= k < i ==> objects@[k].name@ != name@,
        decreases objects@.len() - i,
    {
        if objects[i].name == *name {
            return true;
        }
        i = i + 1;
    }
    false
}

fn find_password(passes: &Vec<Password>, user: &String) -> (r: bool)
    ensures
        r == has_password(passes@, user@),
{
    let mut i: usize = 0;
    while i < passes.len()
        invariant
            i <= passes@.len(),
            forall|k: int| 0 <= k < i ==> passes@[k].user@ != user@,
        decreases passes@.len() - i,
    {
        if passes[i].user == *user {
            return true;
        }
        i = i + 1;
    }
    false
}

/// Decides whether `m` names one of the three authentication modes.
pub fn known_mode(m: &String) -> (r: bool)
    ensures
        r == is_mode(m@),
{
    let mab = String::from_str("mab");
    let login = String::from_str("login");
    let owned = String::from_str("owned");
    proof {
        reveal_strlit("mab");
        reveal_strlit("login");
        reveal_strlit("owned");
        assert(mab@ =~= mode_mab());
        assert(login@ =~= mode_login());
        assert(owned@ =~= mode_owned());
    }
    *m == mab || *m == login || *m == owned
}

/// Decides whether `m` is the `owned` mode.
fn is_owned(m: &String) -> (r: bool)
    ensures
        r == (m@ == mode_owned()),
{
    let owned = String::from_str("owned");
    proof {
        reveal_strlit("owned");
        assert(owned@ =~= mode_owned());
    }
    *m == owned
}


/// What a diagnostic owes: every earlier rule holds, and the named entity
/// breaks the rule the diagnostic is about.
pub open spec fn diagnosis(
    vlans: Seq<Vlan>,
    objects: Seq<Object>,
    users: Seq<User>,
    passes: Seq<Password>,
    d: Diagnostic,
) -> bool {
    let occ = occurrences(users);
    match d {
        Diagnostic::UnknownInitiate { vlan, target } => {
            &&& exists|i: int, j: int|
                0 <= i < vlans.len() && 0 <= j < vlans[i].initiate@.len() && #[trigger] vlans[i].name@
                    == vlan@ && #[trigger] vlans[i].initiate@[j]@ == target@
            &&& !has_vlan(vlans, target@)
        },
        Diagnostic::UnknownDefaultVlan { user, vlan } => {
            &&& initiates_known(vlans)
            &&& exists|u: int|
                0 <= u < users.len() && #[trigger] users[u].name@ == user@ && users[u].default_vlan@
                    == vlan@
            &&& !has_vlan(vlans, vlan@)
        },
        Diagnostic::MissingPassword { user } => {
            &&& initiates_known(vlans)
            &&& default_vlans_known(vlans, users)
            &&& exists|u: int| 0 <= u < users.len() && #[trigger] users[u].name@ == user@
            &&& !has_password(passes, user@)
        },
        Diagnostic::UnknownBase { user, device, base } => {
            &&& initiates_known(vlans)
            &&& default_vlans_known(vlans, users)
            &&& passwords_present(users, passes)
            &&& exists|u: int, e: int|
                0 <= u < users.len() && 0 <= e < users[u].devices@.len() && #[trigger] users[u].name@
                    == user@ && #[trigger] users[u].devices@[e].name@ == device@
                    && users[u].devices@[e].base@ == base@
            &&& !has_object(objects, base@)
        },
        Diagnostic::UnknownMode { user, mac } => {
            &&& initiates_known(vlans)
            &&& default_vlans_known(vlans, users)
            &&& passwords_present(users, passes)
            &&& bases_known(users, objects)
            &&& exists|k: int|
                0 <= k < occ.len() && #[trigger] occ[k].user == user@ && occ[k].mac == mac@
                    && !is_mode(occ[k].mode)
        },
        Diagnostic::ModeChanged { user, mac } => {
            &&& initiates_known(vlans)
            &&& default_vlans_known(vlans, users)
            &&& passwords_present(users, passes)
            &&& bases_known(users, objects)
            &&& modes_known(occ)
            &&& exists|a: int, b: int|
                0 <= a < b < occ.len() && #[trigger] occ[a].mac == mac@ && #[trigger] occ[b].mac
                    == mac@ && occ[b].user == user@ && occ[a].mode != occ[b].mode
        },
    }
}

fn check_initiates(vlans: &Vec<Vlan>) -> (r: Result<(), Diagnostic>)
    ensures
        r is Ok <==> initiates_known(vlans@),
        r matches Err(d) ==> (d matches Diagnostic::UnknownInitiate { .. }) && diagnosis(
            vlans@,
            Seq::empty(),
            Seq::empty(),
            Seq::empty(),
            d,
        ),
{
    let mut i: usize = 0;
    while i < vlans.len()
        invariant
            i <= vlans@.len(),
            forall|a: int, j: int|
                0 <= a < i && 0 <= j < vlans@[a].initiate@.len() ==> has_vlan(
                    vlans@,
                    #[trigger] vlans@[a].initiate@[j]@,
                ),
        decreases vlans@.len() - i,
    {
        let v = &vlans[i];
        let mut j: usize = 0;
        while j < v.initiate.len()
            invariant
                i < vlans@.len(),
                v == vlans@[i as int],
                j <= v.initiate@.len(),
                forall|a: int, b: int|
                    0 <= a < i && 0 <= b < vlans@[a].initiate@.len() ==> has_vlan(
                        vlans@,
                        #[trigger] vlans@[a].initiate@[b]@,
                    ),
                forall|b: int| 0 <= b < j ==> has_vlan(vlans@, #[trigger] v.initiate@[b]@),
            decreases v.initiate@.len() - j,
        {
            if !find_vlan(vlans, &v.initiate[j]) {
                let d = Diagnostic::UnknownInitiate {
                    vlan: v.name.clone(),
                    target: v.initiate[j].clone(),
                };
                proof {
                    assert(vlans@[i as int].name@ == v.name@);
                    assert(vlans@[i as int].initiate@[j as int]@ == v.initiate@[j as int]@);
                }
                return Err(d);
            }
            j = j + 1;
        }
        i = i + 1;
    }
    Ok(())
}

fn check_default_vlans(vlans: &Vec<Vlan>, users: &Vec<User>) -> (r: Result<(), Diagnostic>)
    ensures
        r is Ok <==> default_vlans_known(vlans@, users@),
        r matches Err(d) ==> (d matches Diagnostic::UnknownDefaultVlan { user, vlan } && (exists|u: int|
            0 <= u < users@.len() && #[trigger] users@[u].name@ == user@ && users@[u].default_vlan@
                == vlan@) && !has_vlan(vlans@, vlan@)),
{
    let mut u: usize = 0;
    while u < users.len()
        invariant
            u <= users@.len(),
            forall|k: int| 0 <= k < u ==> has_vlan(vlans@, #[trigger] users@[k].default_vlan@),
        decreases users@.len() - u,
    {
        if !find_vlan(vlans, &users[u].default_vlan) {
            let name = users[u].name.clone();
            let d = Diagnostic::UnknownDefaultVlan {
                user: name,
                vlan: users[u].default_vlan.clone(),
            };
            proof {
                assert(users@[u as int].name@ == name@);
                assert(!has_vlan(vlans@, users@[u as int].default_vlan@));
            }
            return Err(d);
        }
        u = u + 1;
    }
    Ok(())
}

fn check_passwords(users: &Vec<User>, passes: &Vec<Password>) -> (r: Result<(), Diagnostic>)
    ensures
        r is Ok <==> passwords_present(users@, passes@),
        r matches Err(d) ==> (d matches Diagnostic::MissingPassword { user } && (exists|u: int|
            0 <= u < users@.len() && #[trigger] users@[u].name@ == user@) && !has_password(
            passes@,
            user@,
        )),
{
    let mut u: usize = 0;
    while u < users.len()
        invariant
            u <= users@.len(),
            forall|k: int| 0 <= k < u ==> has_password(passes@, #[trigger] users@[k].name@),
        decreases users@.len() - u,
    {
        if !find_password(passes, &users[u].name) {
            return Err(Diagnostic::MissingPassword { user: users[u].name.clone() });
        }
        u = u + 1;
    }
    Ok(())
}

fn check_bases(users: &Vec<User>, objects: &Vec<Object>) -> (r: Result<(), Diagnostic>)
    ensures
        r is Ok <==> bases_known(users@, objects@),
        r matches Err(d) ==> (d matches Diagnostic::UnknownBase { user, device, base } && (exists|
            u: int,
            e: int,
        |
            0 <= u < users@.len() && 0 <= e < users@[u].devices@.len() && #[trigger] users@[u].name@
                == user@ && #[trigger] users@[u].devices@[e].name@ == device@
                && users@[u].devices@[e].base@ == base@) && !has_object(objects@, base@)),
{
    let mut u: usize = 0;
    while u < users.len()
        invariant
            u <= users@.len(),
            forall|a: int, e: int|
                0 <= a < u && 0 <= e < users@[a].devices@.len() ==> has_object(
                    objects@,
                    #[trigger] users@[a].devices@[e].base@,
                ),
        decreases users@.len() - u,
    {
        let user = &users[u];
        let mut e: usize = 0;
        while e < user.devices.len()
            invariant
                u < users@.len(),
                user == users@[u as int],
                e <= user.devices@.len(),
                forall|a: int, b: int|
                    0 <= a < u && 0 <= b < users@[a].devices@.len() ==> has_object(
                        objects@,
                        #[trigger] users@[a].devices@[b].base@,
                    ),
                forall|b: int| 0 <= b < e ==> has_object(objects@, #[trigger] user.devices@[b].base@),
            decreases user.devices@.len() - e,
        {
            let dev = &user.devices[e];
            if !find_object(objects, &dev.base) {
                let name = user.name.clone();
                let device = dev.name.clone();
                let d = Diagnostic::UnknownBase {
                    user: name,
                    device: device,
                    base: dev.base.clone(),
                };
                proof {
                    assert(users@[u as int].devices@[e as int] == *dev);
                    assert(users@[u as int].name@ == name@);
                    assert(users@[u as int].devices@[e as int].name@ == device@);
                    assert(!has_object(objects@, users@[u as int].devices@[e as int].base@));
                }
                return Err(d);
            }
            e = e + 1;
        }
        u = u + 1;
    }
    Ok(())
}

fn check_modes(bs: &Vec<Binding>) -> (r: Result<(), Diagnostic>)
    ensures
        r is Ok <==> modes_known(binding_views(bs@)),
        r matches Err(d) ==> (d matches Diagnostic::UnknownMode { user, mac } && exists|k: int|
            0 <= k < bs@.len() && #[trigger] bs@[k]@.user == user@ && bs@[k]@.mac == mac@
                && !is_mode(bs@[k]@.mode)),
{
    let ghost occ = binding_views(bs@);
    let mut k: usize = 0;
    while k < bs.len()
        invariant
            k <= bs@.len(),
            occ == binding_views(bs@),
            forall|a: int| 0 <= a < k ==> is_mode(#[trigger] occ[a].mode),
        decreases bs@.len() - k,
    {
        if !known_mode(&bs[k].mode) {
            let name = bs[k].user.clone();
            let d = Diagnostic::UnknownMode { user: name, mac: bs[k].mac.clone() };
            proof {
                assert(occ[k as int] == bs@[k as int]@);
                assert(!is_mode(occ[k as int].mode));
                assert(bs@[k as int]@.user == name@);
            }
            return Err(d);
        }
        k = k + 1;
    }
    Ok(())
}

/// Builds one audit record per binding while checking that no MAC changes mode.
fn check_macs(bs: &Vec<Binding>) -> (r: Result<Vec<Audit>, Diagnostic>)
    ensures
        r is Ok <==> macs_consistent(binding_views(bs@)),
        r matches Ok(a) ==> audit_views(a@) == binding_views(bs@).map_values(
            |b: BindingView| audit_of(b),
        ),
        r matches Err(d) ==> (d matches Diagnostic::ModeChanged { user, mac } && exists|
            a: int,
            b: int,
        |
            0 <= a < b < bs@.len() && #[trigger] bs@[a]@.mac == mac@ && #[trigger] bs@[b]@.mac
                == mac@ && bs@[b]@.user == user@ && bs@[a]@.mode != bs@[b]@.mode),
{
    let ghost occ = binding_views(bs@);
    let mut out: Vec<Audit> = Vec::new();
    let mut k: usize = 0;
    while k < bs.len()
        invariant
            k <= bs@.len(),
            occ == binding_views(bs@),
            macs_consistent(occ.take(k as int)),
            audit_views(out@) == occ.take(k as int).map_values(|b: BindingView| audit_of(b)),
        decreases bs@.len() - k,
    {
        let cur = &bs[k];
        let mut j: usize = 0;
        let mut found = false;
        while j < k && !found
            invariant
                j <= k < bs@.len(),
                *cur == bs@[k as int],
                found ==> j < k && bs@[j as int].mac@ == cur.mac@,
                !found ==> forall|a: int| 0 <= a < j ==> (#[trigger] bs@[a]).mac@ != cur.mac@,
            decreases k - j + (if found { 0int } else { 1int }),
        {
            if bs[j].mac == cur.mac {
                found = true;
            } else {
                j = j + 1;
            }
        }
        proof {
            assert(occ[k as int] == bs@[k as int]@);
            if found {
                assert(occ[j as int] == bs@[j as int]@);
            }
        }
        if found && !(bs[j].mode == cur.mode) {
            let mac = cur.mac.clone();
            let d = Diagnostic::ModeChanged { user: cur.user.clone(), mac: mac };
            proof {
                assert(bs@[j as int]@.mac == mac@);
                assert(occ[j as int].mac == occ[k as int].mac);
            }
            return Err(d);
        }
        proof {
            let t = occ.take(k as int);
            let t2 = occ.take(k + 1);
            assert forall|a: int, b: int|
                0 <= a < t2.len() && 0 <= b < t2.len() && #[trigger] t2[a].mac == #[trigger] t2[b].mac
                    implies t2[a].mode == t2[b].mode by {
                assert(t2[a] == occ[a] && t2[b] == occ[b]);
                if a < k && b < k {
                    assert(t[a] == occ[a] && t[b] == occ[b]);
                } else if a < k {
                    assert(occ[a] == bs@[a]@);
                    assert(occ[a].mac == occ[k as int].mac);
                    assert(found);
                    assert(t[a] == occ[a] && t[j as int] == occ[j as int]);
                    assert(t[a].mac == t[j as int].mac);
                    assert(occ[a].mode == occ[j as int].mode);
                } else if b < k {
                    assert(occ[b] == bs@[b]@);
                    assert(occ[b].mac == occ[k as int].mac);
                    assert(found);
                    assert(t[b] == occ[b] && t[j as int] == occ[j as int]);
                    assert(t[b].mac == t[j as int].mac);
                    assert(occ[b].mode == occ[j as int].mode);
                }
            }
        }
        let vlan = if is_owned(&cur.mode) {
            let na = String::from_str("n/a");
            proof {
                reveal_strlit("n/a");
                assert(na@ =~= not_applicable());
            }
            na
        } else {
            cur.vlan.clone()
        };
        let row = Audit { user: cur.user.clone(), vlan: vlan, mac: cur.mac.clone() };
        let ghost old_out = out@;
        out.push(row);
        proof {
            assert(row@ == audit_of(occ[k as int]));
            assert(audit_views(out@) =~= audit_views(old_out).push(row@));
            assert(occ.take(k + 1).map_values(|b: BindingView| audit_of(b)) =~= occ.take(
                k as int,
            ).map_values(|b: BindingView| audit_of(b)).push(audit_of(occ[k as int])));
        }
        k = k + 1;
    }
    proof {
        assert(occ.take(k as int) =~= occ);
    }
    Ok(out)
}

/// Validates the four tables rule by rule (initiate lists, default
/// segments, passwords, device bases, modes, MAC-mode consistency) and, when
/// all hold, returns the manifest with one audit record per MAC binding.
pub fn check_objects(
    vlans: &Vec<Vlan>,
    objects: &Vec<Object>,
    users: &Vec<User>,
    passes: &Vec<Password>,
) -> (r: Result<Manifest, Diagnostic>)
    requires
        tables_keyed(vlans@, objects@, users@, passes@),
    ensures
        r is Ok <==> config_valid(vlans@, objects@, users@, passes@),
        r matches Ok(m) ==> audit_views(m.audit@) == audits_of(users@) && m.whitelist@.len() == 0
            && m.eap_users@.len() == 0 && m.sys_info@.len() == 0,
        r matches Err(d) ==> diagnosis(vlans@, objects@, users@, passes@, d),
{
    check_initiates(vlans)?;
    check_default_vlans(vlans, users)?;
    check_passwords(users, passes)?;
    check_bases(users, objects)?;
    let bs = collect_bindings(users);
    let ghost occ = occurrences(users@);
    proof {
        assert forall|k: int| 0 <= k < bs@.len() implies #[trigger] bs@[k]@ == occ[k] by {
            assert(binding_views(bs@)[k] == bs@[k]@);
        }
    }
    if let Err(d) = check_modes(&bs) {
        return Err(d);
    }
    let audit = match check_macs(&bs) {
        Ok(a) => a,
        Err(d) => {
            return Err(d);
        },
    };
    Ok(Manifest { audit, whitelist: Vec::new(), eap_users: Vec::new(), sys_info: Vec::new() })
}


/// A segment whose initiate list names a segment that does not exist makes
/// the whole configuration invalid, so no manifest is produced.
pub proof fn lemma_dangling_initiate_rejected(
    vlans: Seq<Vlan>,
    objects: Seq<Object>,
    users: Seq<User>,
    passes: Seq<Password>,
    i: int,
    j: int,
)
    requires
        0 <= i < vlans.len(),
        0 <= j < vlans[i].initiate@.len(),
        !has_vlan(vlans, vlans[i].initiate@[j]@),
    ensures
        !config_valid(vlans, objects, users, passes),
{
}

/// A user without a password entry, or whose default segment does not
/// exist, makes the configuration invalid.
pub proof fn lemma_user_without_password_or_segment_rejected(
    vlans: Seq<Vlan>,
    objects: Seq<Object>,
    users: Seq<User>,
    passes: Seq<Password>,
    u: int,
)
    requires
        0 <= u < users.len(),
        !has_password(passes, users[u].name@) || !has_vlan(vlans, users[u].default_vlan@),
    ensures
        !config_valid(vlans, objects, users, passes),
{
}

/// The same MAC declared twice with different modes, by the same user or by
/// two users, makes the configuration invalid.
pub proof fn lemma_mode_change_rejected(
    vlans: Seq<Vlan>,
    objects: Seq<Object>,
    users: Seq<User>,
    passes: Seq<Password>,
    a: int,
    b: int,
)
    requires
        0 <= a < occurrences(users).len(),
        0 <= b < occurrences(users).len(),
        occurrences(users)[a].mac == occurrences(users)[b].mac,
        occurrences(users)[a].mode != occurrences(users)[b].mode,
    ensures
        !config_valid(vlans, objects, users, passes),
{
}

/// When every other rule holds and each MAC keeps one mode wherever it
/// occurs, the configuration is valid, and the audit holds one record per
/// occurrence, in order.
pub proof fn lemma_consistent_modes_accepted(
    vlans: Seq<Vlan>,
    objects: Seq<Object>,
    users: Seq<User>,
    passes: Seq<Password>,
)
    requires
        initiates_known(vlans),
        default_vlans_known(vlans, users),
        passwords_present(users, passes),
        bases_known(users, objects),
        modes_known(occurrences(users)),
        forall|a: int, b: int|
            0 <= a < occurrences(users).len() && 0 <= b < occurrences(users).len()
                && #[trigger] occurrences(users)[a].mac == #[trigger] occurrences(users)[b].mac
                ==> occurrences(users)[a].mode == occurrences(users)[b].mode,
    ensures
        config_valid(vlans, objects, users, passes),
        audits_of(users).len() == occurrences(users).len(),
        forall|k: int|
            0 <= k < occurrences(users).len() ==> #[trigger] audits_of(users)[k] == audit_of(
                occurrences(users)[k],
            ),
{
}


/// How many records in `rows` are for MAC `m`.
pub open spec fn mac_count(rows: Seq<AuditView>, m: Seq<char>) -> nat
    decreases rows.len(),
{
    if rows.len() == 0 {
        0
    } else {
        mac_count(rows.drop_last(), m) + if rows.last().mac == m {
            1nat
        } else {
            0nat
        }
    }
}

/// How many of the devices list MAC `m`.
pub open spec fn devices_holding(devs: Seq<Device>, m: Seq<char>) -> nat
    decreases devs.len(),
{
    if devs.len() == 0 {
        0
    } else {
        devices_holding(devs.drop_last(), m) + if binding_macs(devs.last().macs@).contains(m) {
            1nat
        } else {
            0nat
        }
    }
}

/// How many (user, device) pairs list MAC `m`.
pub open spec fn holders(users: Seq<User>, m: Seq<char>) -> nat
    decreases users.len(),
{
    if users.len() == 0 {
        0
    } else {
        holders(users.drop_last(), m) + devices_holding(users.last().devices@, m)
    }
}

proof fn lemma_mac_count_concat(a: Seq<AuditView>, b: Seq<AuditView>, m: Seq<char>)
    ensures
        mac_count(a + b, m) == mac_count(a, m) + mac_count(b, m),
    decreases b.len(),
{
    if b.len() == 0 {
        assert(a + b =~= a);
    } else {
        assert((a + b).drop_last() =~= a + b.drop_last());
        lemma_mac_count_concat(a, b.drop_last(), m);
    }
}

proof fn lemma_mac_count_bindings(user: Seq<char>, macs: Seq<MacBinding>, m: Seq<char>)
    requires
        binding_macs(macs).no_duplicates(),
    ensures
        mac_count(mac_rows(user, macs).map_values(|b: BindingView| audit_of(b)), m) == if binding_macs(
            macs,
        ).contains(m) {
            1nat
        } else {
            0nat
        },
    decreases macs.len(),
{
    let rows = mac_rows(user, macs).map_values(|b: BindingView| audit_of(b));
    if macs.len() == 0 {
        assert(!binding_macs(macs).contains(m));
    } else {
        let init = macs.drop_last();
        assert(binding_macs(init) =~= binding_macs(macs).drop_last());
        assert(rows.drop_last() =~= mac_rows(user, init).map_values(|b: BindingView| audit_of(b)));
        lemma_mac_count_bindings(user, init, m);
        assert(rows.last().mac == macs.last().mac@);
        assert(binding_macs(macs) =~= binding_macs(init).push(macs.last().mac@));
        if binding_macs(init).contains(m) {
            let k = choose|k: int| 0 <= k < binding_macs(init).len() && binding_macs(init)[k] == m;
            assert(binding_macs(macs)[k] == m);
            assert(binding_macs(macs)[macs.len() - 1] == macs.last().mac@);
            assert(binding_macs(macs).contains(m));
            assert(macs.last().mac@ != m);
        } else if macs.last().mac@ == m {
            assert(binding_macs(macs)[macs.len() - 1] == m);
        } else if binding_macs(macs).contains(m) {
            let k = choose|k: int| 0 <= k < binding_macs(macs).len() && binding_macs(macs)[k] == m;
            assert(k < macs.len() - 1);
            assert(binding_macs(init)[k] == m);
        }
    }
}

proof fn lemma_mac_count_devices(user: Seq<char>, devs: Seq<Device>, m: Seq<char>)
    requires
        forall|d: int| 0 <= d < devs.len() ==> binding_macs(#[trigger] devs[d].macs@).no_duplicates(),
    ensures
        mac_count(device_rows(user, devs).map_values(|b: BindingView| audit_of(b)), m)
            == devices_holding(devs, m),
    decreases devs.len(),
{
    if devs.len() > 0 {
        let init = devs.drop_last();
        assert forall|d: int| 0 <= d < init.len() implies binding_macs(
            #[trigger] init[d].macs@,
        ).no_duplicates() by {
            assert(init[d] == devs[d]);
        }
        lemma_mac_count_devices(user, init, m);
        let a = device_rows(user, init).map_values(|b: BindingView| audit_of(b));
        let b = mac_rows(user, devs.last().macs@).map_values(|b: BindingView| audit_of(b));
        assert(device_rows(user, devs).map_values(|b: BindingView| audit_of(b)) =~= a + b);
        lemma_mac_count_concat(a, b, m);
        assert(devs.last() == devs[devs.len() - 1]);
        lemma_mac_count_bindings(user, devs.last().macs@, m);
    }
}

/// With keyed tables, a valid configuration's audit holds, for each MAC,
/// one record per (user, device) pair that lists it.
pub proof fn lemma_audit_rows_per_mac(users: Seq<User>, m: Seq<char>)
    requires
        forall|u: int, d: int|
            0 <= u < users.len() && 0 <= d < users[u].devices@.len() ==> binding_macs(
                #[trigger] users[u].devices@[d].macs@,
            ).no_duplicates(),
    ensures
        mac_count(audits_of(users), m) == holders(users, m),
    decreases users.len(),
{
    if users.len() > 0 {
        let init = users.drop_last();
        assert forall|u: int, d: int|
            0 <= u < init.len() && 0 <= d < init[u].devices@.len() implies binding_macs(
            #[trigger] init[u].devices@[d].macs@,
        ).no_duplicates() by {
            assert(init[u] == users[u]);
        }
        lemma_audit_rows_per_mac(init, m);
        let last = users.last();
        assert(last == users[users.len() - 1]);
        assert forall|d: int| 0 <= d < last.devices@.len() implies binding_macs(
            #[trigger] last.devices@[d].macs@,
        ).no_duplicates() by {
            assert(users[users.len() - 1].devices@[d] == last.devices@[d]);
        }
        lemma_mac_count_devices(last.name@, last.devices@, m);
        let b = device_rows(last.name@, last.devices@).map_values(|b: BindingView| audit_of(b));
        assert(audits_of(users) =~= audits_of(init) + b);
        lemma_mac_count_concat(audits_of(init), b, m);
    }
}

} // verus!
