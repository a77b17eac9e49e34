//! Which files of the configuration tree hold segments and users, and when
//! a loaded tree is usable at all.
use crate::model::Vlan;
use vstd::prelude::*;

verus! {

pub open spec fn yaml_suffix() -> Seq<char> {
    seq!['.', 'y', 'a', 'm', 'l']
}

/// A path names a segment and user source file when it ends in `.yaml`.
pub open spec fn is_source_path(path: Seq<char>) -> bool {
    path.len() >= yaml_suffix().len() && path.skip(path.len() - yaml_suffix().len())
        == yaml_suffix()
}

/// Decides whether `path` names a segment and user source file.
pub fn is_config_file(path: &String) -> (r: bool)
    ensures
        r == is_source_path(path@),
{
    let suffix = String::from_str(".yaml");
    proof {
        reveal_strlit(".yaml");
        assert(suffix@ =~= yaml_suffix());
    }
    let p = path.as_str();
    let x = suffix.as_str();
    let n = p.unicode_len();
    let m = x.unicode_len();
    if n < m {
        return false;
    }
    let mut i: usize = 0;
    while i < m
        invariant
            p@ == path@,
            x@ == yaml_suffix(),
            n == path@.len(),
            m == yaml_suffix().len(),
            m <= n,
            i <= m,
            forall|k: int| 0 <= k < i ==> path@[n - m + k] == yaml_suffix()[k],
        decreases m - i,
    {
        if p.get_char(n - m + i) != x.get_char(i) {
            proof {
                assert(path@.skip(n - m)[i as int] != yaml_suffix()[i as int]);
            }
            return false;
        }
        i = i + 1;
    }
    proof {
        assert(path@.skip(n - m) =~= yaml_suffix());
    }
    true
}

/// A configuration without any segment is refused.
pub fn vlans_defined(vlans: &Vec<Vlan>) -> (r: bool)
    ensures
        r == (vlans@.len() > 0),
{
    vlans.len() > 0
}

} // verus!
