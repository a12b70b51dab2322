//! Naming of stored configurations.
//!
//! A configuration named `N` is stored under the file name
//! `config_N.json`. Building that file name, and reading the
//! configuration name back out of a file name, is the computational part
//! of the configuration store; the store's file I/O lives outside this
//! crate and hands file names in and out as plain strings.

use vstd::prelude::*;
use vstd::string::StringExecFns;

use crate::text::{chars_to_string, str_to_chars, subvec};

verus! {

/// The file name under which a configuration of this name is stored.
pub open spec fn config_file(name: Seq<char>) -> Seq<char> {
    "config_"@ + name + ".json"@
}

/// The file name carries a stored configuration: the fixed prefix, then
/// the configuration's name, then the fixed extension.
pub open spec fn is_config_file(file: Seq<char>) -> bool {
    &&& file.len() >= "config_"@.len() + ".json"@.len()
    &&& file.subrange(0, "config_"@.len() as int) == "config_"@
    &&& file.subrange(file.len() - ".json"@.len(), file.len() as int) == ".json"@
}

/// The configuration name inside a stored configuration's file name.
pub open spec fn config_stem(file: Seq<char>) -> Seq<char> {
    file.subrange("config_"@.len() as int, file.len() - ".json"@.len())
}

/// Builds the file name for a configuration name.
pub fn config_file_name(name: &str) -> (r: String)
    ensures
        r@ == config_file(name@),
{
    let a = String::from_str("config_");
    let b = a.concat(name);
    let c = b.concat(".json");
    proof {
        assert(c@ =~= config_file(name@));
    }
    c
}

/// Reads the configuration name back out of a file name: the part
/// between the fixed prefix and the fixed extension, or nothing when the
/// file name does not carry a stored configuration.
pub fn config_name_of_file(file: &str) -> (r: Option<String>)
    ensures
        r is Some <==> is_config_file(file@),
        r is Some ==> r->0@ == config_stem(file@),
{
    let chars = str_to_chars(file);
    let prefix = str_to_chars("config_");
    let suffix = str_to_chars(".json");
    let n = chars.len();
    let np = prefix.len();
    let ns = suffix.len();
    if n < np || n - np < ns {
        proof {
            assert(!is_config_file(file@));
        }
        return None;
    }
    let mut i: usize = 0;
    while i < np
        invariant
            chars@ == file@,
            prefix@ == "config_"@,
            np == prefix@.len(),
            n == chars@.len(),
            np + ns <= n,
            i <= np,
            forall|k: int| 0 <= k < i ==> chars@[k] == prefix@[k],
        decreases np - i,
    {
        if chars[i] != prefix[i] {
            proof {
                assert(file@.subrange(0, "config_"@.len() as int)[i as int] == file@[i as int]);
                assert(!is_config_file(file@));
            }
            return None;
        }
        i = i + 1;
    }
    let mut j: usize = 0;
    while j < ns
        invariant
            chars@ == file@,
            suffix@ == ".json"@,
            prefix@ == "config_"@,
            np == prefix@.len(),
            ns == suffix@.len(),
            n == chars@.len(),
            np + ns <= n,
            j <= ns,
            forall|k: int| 0 <= k < j ==> chars@[n - ns + k] == suffix@[k],
        decreases ns - j,
    {
        if chars[n - ns + j] != suffix[j] {
            proof {
                assert(file@.subrange(n - ns, n as int)[j as int] == file@[n - ns + j]);
                assert(!is_config_file(file@));
            }
            return None;
        }
        j = j + 1;
    }
    let stem = subvec(&chars, np, n - ns);
    let out = chars_to_string(&stem);
    proof {
        assert(file@.subrange(0, "config_"@.len() as int) =~= "config_"@);
        assert(file@.subrange(n - ns, n as int) =~= ".json"@);
        assert(is_config_file(file@));
        assert(out@ == config_stem(file@));
    }
    Some(out)
}

/// A configuration name survives the trip into a file name and back:
/// the built file name always carries a stored configuration, and its
/// stem is the name itself.
pub proof fn lemma_config_file_round_trip(name: Seq<char>)
    ensures
        is_config_file(config_file(name)),
        config_stem(config_file(name)) == name,
{
    let f = config_file(name);
    assert(f.subrange(0, "config_"@.len() as int) =~= "config_"@);
    assert(f.subrange(f.len() - ".json"@.len(), f.len() as int) =~= ".json"@);
    assert(config_stem(f) =~= name);
}

} // verus!
