//! Looking up the version of a dependency in a list of dependencies.

use vstd::prelude::*;
use vstd::string::StringSliceAdditionalSpecFns;

verus! {

/// Whether the dependency at index `i` has the name `name`.
pub open spec fn is_named(dependencies: Seq<(&str, &str)>, i: int, name: &str) -> bool {
    dependencies[i].0.spec_bytes() == name.spec_bytes()
}

/// Whether two runs of bytes are the same.
pub fn same_bytes(a: &[u8], b: &[u8]) -> (same: bool)
    ensures
        same == (a@ == b@),
{
    if a.len() != b.len() {
        return false;
    }
    let mut at: usize = 0;
    while at < a.len()
        invariant
            a@.len() == b@.len(),
            at <= a@.len(),
            forall|j: int| 0 <= j < at ==> a@[j] == b@[j],
        decreases a@.len() - at,
    {
        if a[at] != b[at] {
            return false;
        }
        at = at + 1;
    }
    assert(a@ =~= b@);
    true
}

/// The version of the first dependency of the list that has the name `name`,
/// or the empty string where the list names no such dependency.
pub fn version_of<'a>(dependencies: &'a [(&'a str, &'a str)], name: &str) -> (version: &'a str)
    ensures
        forall|i: int|
            0 <= i < dependencies@.len() && is_named(dependencies@, i, name) && (forall|j: int|
                0 <= j < i ==> !is_named(dependencies@, j, name)) ==> version == dependencies@[i].1,
        (forall|i: int| 0 <= i < dependencies@.len() ==> !is_named(dependencies@, i, name))
            ==> version@.len() == 0,
{
    let mut at: usize = 0;
    while at < dependencies.len()
        invariant
            at <= dependencies@.len(),
            forall|j: int| 0 <= j < at ==> !is_named(dependencies@, j, name),
        decreases dependencies@.len() - at,
    {
        let package: &str = dependencies[at].0;
        if same_bytes(package.as_bytes(), name.as_bytes()) {
            assert(is_named(dependencies@, at as int, name));
            return dependencies[at].1;
        }
        assert(!is_named(dependencies@, at as int, name));
        at = at + 1;
    }
    proof {
        reveal_strlit("");
    }
    ""
}

} // verus!
