use vstd::prelude::*;

verus! {

/// Appends `suffix` to `name`: the naming rule by which a structure derives the
/// names of the dictionaries it keeps beside its main one.
pub fn with_suffix(name: &str, suffix: &str) -> (joined: String)
    ensures
        joined@ == name@ + suffix@,
{
    let s = name.to_owned();
    s.concat(suffix)
}

} // verus!
