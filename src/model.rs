//! The configuration records as loaded from the configuration tree.
use crate::text::texts;
use vstd::prelude::*;

verus! {

/// A named, numbered network segment.
pub struct Vlan {
    pub name: String,
    pub number: u32,
    /// Names of the segments this one may initiate into.
    pub initiate: Vec<String>,
    pub cell: String,
    pub lan: String,
    pub owner: String,
    pub description: String,
}

/// A catalog entry for a base class of network device.
pub struct Object {
    pub name: String,
    pub make: String,
    pub model: String,
    pub obj_type: String,
}

/// A MAC address with the way it authenticates.
pub struct MacBinding {
    pub mac: String,
    /// One of `mab`, `login` or `owned`; anything else is refused.
    pub mode: String,
    /// The target segment; meaningful for `mab` and `login` only.
    pub vlan: String,
}

/// A piece of equipment owned by a user.
pub struct Device {
    pub name: String,
    /// Name of the catalog object this device is an instance of.
    pub base: String,
    pub macs: Vec<MacBinding>,
}

pub struct User {
    pub name: String,
    pub default_vlan: String,
    pub devices: Vec<Device>,
}

pub struct Password {
    /// The user this credential belongs to.
    pub user: String,
    pub pass: String,
}

/// One MAC binding together with the user that declares it.
pub struct Binding {
    pub user: String,
    pub mac: String,
    pub mode: String,
    pub vlan: String,
}

pub ghost struct BindingView {
    pub user: Seq<char>,
    pub mac: Seq<char>,
    pub mode: Seq<char>,
    pub vlan: Seq<char>,
}

impl View for Binding {
    type V = BindingView;

    open spec fn view(&self) -> BindingView {
        BindingView { user: self.user@, mac: self.mac@, mode: self.mode@, vlan: self.vlan@ }
    }
}

pub open spec fn binding_views(s: Seq<Binding>) -> Seq<BindingView> {
    s.map_values(|b: Binding| b@)
}

pub open spec fn mac_rows(user: Seq<char>, macs: Seq<MacBinding>) -> Seq<BindingView> {
    macs.map_values(
        |b: MacBinding| BindingView { user: user, mac: b.mac@, mode: b.mode@, vlan: b.vlan@ },
    )
}

/// Every MAC binding of the given devices, device by device.
pub open spec fn device_rows(user: Seq<char>, devs: Seq<Device>) -> Seq<BindingView>
    decreases devs.len(),
{
    if devs.len() == 0 {
        Seq::empty()
    } else {
        device_rows(user, devs.drop_last()) + mac_rows(user, devs.last().macs@)
    }
}

/// Every MAC binding of every user, in the order users, devices and MACs
/// are listed.
pub open spec fn occurrences(users: Seq<User>) -> Seq<BindingView>
    decreases users.len(),
{
    if users.len() == 0 {
        Seq::empty()
    } else {
        occurrences(users.drop_last()) + device_rows(users.last().name@, users.last().devices@)
    }
}

/// Lists every (user, MAC binding) pair in declaration order.
pub fn collect_bindings(users: &Vec<User>) -> (r: Vec<Binding>)
    ensures
        binding_views(r@) == occurrences(users@),
{
    let mut out: Vec<Binding> = Vec::new();
    let mut i: usize = 0;
    while i < users.len()
        invariant
            i <= users@.len(),
            binding_views(out@) == occurrences(users@.take(i as int)),
        decreases users@.len() - i,
    {
        let user = &users[i];
        let ghost before = binding_views(out@);
        let mut d: usize = 0;
        while d < user.devices.len()
            invariant
                d <= user.devices@.len(),
                user == users@[i as int],
                binding_views(out@) == before + device_rows(user.name@, user.devices@.take(d as int)),
            decreases user.devices@.len() - d,
        {
            let dev = &user.devices[d];
            let ghost mid = binding_views(out@);
            let mut k: usize = 0;
            while k < dev.macs.len()
                invariant
                    k <= dev.macs@.len(),
                    dev == user.devices@[d as int],
                    binding_views(out@) == mid + mac_rows(user.name@, dev.macs@.take(k as int)),
                decreases dev.macs@.len() - k,
            {
                let b = &dev.macs[k];
                let row = Binding {
                    user: user.name.clone(),
                    mac: b.mac.clone(),
                    mode: b.mode.clone(),
                    vlan: b.vlan.clone(),
                };
                let ghost old_out = out@;
                out.push(row);
                proof {
                    assert(binding_views(out@) =~= binding_views(old_out).push(row@));
                    assert(mac_rows(user.name@, dev.macs@.take(k + 1)) =~= mac_rows(
                        user.name@,
                        dev.macs@.take(k as int),
                    ).push(row@));
                }
                k = k + 1;
            }
            proof {
                assert(dev.macs@.take(k as int) =~= dev.macs@);
                assert(user.devices@.take(d + 1).drop_last() =~= user.devices@.take(d as int));
            }
            d = d + 1;
        }
        proof {
            assert(user.devices@.take(d as int) =~= user.devices@);
            assert(users@.take(i + 1).drop_last() =~= users@.take(i as int));
        }
        i = i + 1;
    }
    proof {
        assert(users@.take(i as int) =~= users@);
    }
    out
}


pub open spec fn vlan_names(vlans: Seq<Vlan>) -> Seq<Seq<char>> {
    vlans.map_values(|v: Vlan| v.name@)
}

pub open spec fn object_names(objects: Seq<Object>) -> Seq<Seq<char>> {
    objects.map_values(|o: Object| o.name@)
}

pub open spec fn user_names(users: Seq<User>) -> Seq<Seq<char>> {
    users.map_values(|u: User| u.name@)
}

pub open spec fn password_users(passes: Seq<Password>) -> Seq<Seq<char>> {
    passes.map_values(|p: Password| p.user@)
}

pub open spec fn binding_macs(macs: Seq<MacBinding>) -> Seq<Seq<char>> {
    macs.map_values(|b: MacBinding| b.mac@)
}

/// Every table is keyed as a map would be: segment, object, user and
/// password names are unique, and no device lists a MAC twice.
pub open spec fn tables_keyed(
    vlans: Seq<Vlan>,
    objects: Seq<Object>,
    users: Seq<User>,
    passes: Seq<Password>,
) -> bool {
    &&& vlan_names(vlans).no_duplicates()
    &&& object_names(objects).no_duplicates()
    &&& user_names(users).no_duplicates()
    &&& password_users(passes).no_duplicates()
    &&& forall|u: int, d: int|
        0 <= u < users.len() && 0 <= d < users[u].devices@.len() ==> binding_macs(
            #[trigger] users[u].devices@[d].macs@,
        ).no_duplicates()
}

/// Decides whether the strings are pairwise distinct.
pub fn distinct(v: &Vec<String>) -> (r: bool)
    ensures
        r == texts(v@).no_duplicates(),
{
    let mut i: usize = 0;
    while i < v.len()
        invariant
            i <= v@.len(),
            forall|a: int, b: int| 0 <= a < b < i ==> v@[a]@ != v@[b]@,
        decreases v@.len() - i,
    {
        let mut j: usize = 0;
        while j < i
            invariant
                j <= i < v@.len(),
                forall|a: int, b: int| 0 <= a < b < i ==> v@[a]@ != v@[b]@,
                forall|a: int| 0 <= a < j ==> v@[a]@ != v@[i as int]@,
            decreases i - j,
        {
            if v[j] == v[i] {
                proof {
                    assert(texts(v@)[j as int] == texts(v@)[i as int]);
                }
                return false;
            }
            j = j + 1;
        }
        i = i + 1;
    }
    proof {
        assert forall|a: int, b: int|
            0 <= a < texts(v@).len() && 0 <= b < texts(v@).len() && a != b implies texts(v@)[a]
            != texts(v@)[b] by {
            assert(texts(v@)[a] == v@[a]@ && texts(v@)[b] == v@[b]@);
        }
    }
    true
}

fn names_of_vlans(vlans: &Vec<Vlan>) -> (r: Vec<String>)
    ensures
        texts(r@) == vlan_names(vlans@),
{
    let mut out: Vec<String> = Vec::new();
    let mut i: usize = 0;
    while i < vlans.len()
        invariant
            i <= vlans@.len(),
            texts(out@) == vlan_names(vlans@.take(i as int)),
        decreases vlans@.len() - i,
    {
        let ghost before = texts(out@);
        let x = vlans[i].name.clone();
        out.push(x);
        proof {
            assert(texts(out@) =~= before.push(x@));
            assert(vlan_names(vlans@.take(i + 1)) =~= vlan_names(vlans@.take(i as int)).push(x@));
        }
        i = i + 1;
    }
    proof {
        assert(vlans@.take(i as int) =~= vlans@);
    }
    out
}

fn names_of_objects(objects: &Vec<Object>) -> (r: Vec<String>)
    ensures
        texts(r@) == object_names(objects@),
{
    let mut out: Vec<String> = Vec::new();
    let mut i: usize = 0;
    while i < objects.len()
        invariant
            i <= objects@.len(),
            texts(out@) == object_names(objects@.take(i as int)),
        decreases objects@.len() - i,
    {
        let ghost before = texts(out@);
        let x = objects[i].name.clone();
        out.push(x);
        proof {
            assert(texts(out@) =~= before.push(x@));
            assert(object_names(objects@.take(i + 1)) =~= object_names(objects@.take(i as int)).push(
                x@,
            ));
        }
        i = i + 1;
    }
    proof {
        assert(objects@.take(i as int) =~= objects@);
    }
    out
}

fn names_of_users(users: &Vec<User>) -> (r: Vec<String>)
    ensures
        texts(r@) == user_names(users@),
{
    let mut out: Vec<String> = Vec::new();
    let mut i: usize = 0;
    while i < users.len()
        invariant
            i <= users@.len(),
            texts(out@) == user_names(users@.take(i as int)),
        decreases users@.len() - i,
    {
        let ghost before = texts(out@);
        let x = users[i].name.clone();
        out.push(x);
        proof {
            assert(texts(out@) =~= before.push(x@));
            assert(user_names(users@.take(i + 1)) =~= user_names(users@.take(i as int)).push(x@));
        }
        i = i + 1;
    }
    proof {
        assert(users@.take(i as int) =~= users@);
    }
    out
}

fn users_of_passwords(passes: &Vec<Password>) -> (r: Vec<String>)
    ensures
        texts(r@) == password_users(passes@),
{
    let mut out: Vec<String> = Vec::new();
    let mut i: usize = 0;
    while i < passes.len()
        invariant
            i <= passes@.len(),
            texts(out@) == password_users(passes@.take(i as int)),
        decreases passes@.len() - i,
    {
        let ghost before = texts(out@);
        let x = passes[i].user.clone();
        out.push(x);
        proof {
            assert(texts(out@) =~= before.push(x@));
            assert(password_users(passes@.take(i + 1)) =~= password_users(
                passes@.take(i as int),
            ).push(x@));
        }
        i = i + 1;
    }
    proof {
        assert(passes@.take(i as int) =~= passes@);
    }
    out
}

fn macs_of(macs: &Vec<MacBinding>) -> (r: Vec<String>)
    ensures
        texts(r@) == binding_macs(macs@),
{
    let mut out: Vec<String> = Vec::new();
    let mut i: usize = 0;
    while i < macs.len()
        invariant
            i <= macs@.len(),
            texts(out@) == binding_macs(macs@.take(i as int)),
        decreases macs@.len() - i,
    {
        let ghost before = texts(out@);
        let x = macs[i].mac.clone();
        out.push(x);
        proof {
            assert(texts(out@) =~= before.push(x@));
            assert(binding_macs(macs@.take(i + 1)) =~= binding_macs(macs@.take(i as int)).push(x@));
        }
        i = i + 1;
    }
    proof {
        assert(macs@.take(i as int) =~= macs@);
    }
    out
}

/// Decides whether segment names are unique.
pub fn vlan_names_unique(vlans: &Vec<Vlan>) -> (r: bool)
    ensures
        r == vlan_names(vlans@).no_duplicates(),
{
    distinct(&names_of_vlans(vlans))
}

/// Decides whether the loaded tables are keyed as maps: see `tables_keyed`.
pub fn keys_unique(
    vlans: &Vec<Vlan>,
    objects: &Vec<Object>,
    users: &Vec<User>,
    passes: &Vec<Password>,
) -> (r: bool)
    ensures
        r == tables_keyed(vlans@, objects@, users@, passes@),
{
    if !vlan_names_unique(vlans) || !distinct(&names_of_objects(objects)) || !distinct(
        &names_of_users(users),
    ) || !distinct(&users_of_passwords(passes)) {
        return false;
    }
    let mut u: usize = 0;
    while u < users.len()
        invariant
            u <= users@.len(),
            forall|a: int, d: int|
                0 <= a < u && 0 <= d < users@[a].devices@.len() ==> binding_macs(
                    #[trigger] users@[a].devices@[d].macs@,
                ).no_duplicates(),
        decreases users@.len() - u,
    {
        let user = &users[u];
        let mut d: usize = 0;
        while d < user.devices.len()
            invariant
                u < users@.len(),
                *user == users@[u as int],
                d <= user.devices@.len(),
                forall|a: int, e: int|
                    0 <= a < u && 0 <= e < users@[a].devices@.len() ==> binding_macs(
                        #[trigger] users@[a].devices@[e].macs@,
                    ).no_duplicates(),
                forall|e: int|
                    0 <= e < d ==> binding_macs(#[trigger] user.devices@[e].macs@).no_duplicates(),
            decreases user.devices@.len() - d,
        {
            if !distinct(&macs_of(&user.devices[d].macs)) {
                proof {
                    assert(users@[u as int].devices@[d as int] == user.devices@[d as int]);
                }
                return false;
            }
            d = d + 1;
        }
        u = u + 1;
    }
    true
}

} // verus!
