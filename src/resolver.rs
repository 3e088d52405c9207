use vstd::prelude::*;
use vstd::string::StringSliceAdditionalSpecFns;
use vstd::utf8::encode_utf8;

verus! {

/// `p` is a literal byte prefix of `s`.
pub open spec fn is_prefix_of(p: Seq<u8>, s: Seq<u8>) -> bool {
    p.len() <= s.len() && s.subrange(0, p.len() as int) == p
}

/// The UTF-8 bytes of a string, the unit that prefix matching compares.
pub open spec fn utf8_of(s: &String) -> Seq<u8> {
    encode_utf8(s@)
}

/// The name of the first registration, in registration order, whose prefix
/// starts `path`.
pub open spec fn first_match(path: Seq<u8>, apps: Seq<(String, String)>) -> Option<Seq<char>>
    decreases apps.len(),
{
    if apps.len() == 0 {
        None
    } else if is_prefix_of(utf8_of(&apps[0].1), path) {
        Some(apps[0].0@)
    } else {
        first_match(path, apps.drop_first())
    }
}

fn bytes_start_with(s: &[u8], p: &[u8]) -> (r: bool)
    ensures
        r == is_prefix_of(p@, s@),
{
    if p.len() > s.len() {
        return false;
    }
    let mut i: usize = 0;
    while i < p.len()
        invariant
            p@.len() <= s@.len(),
            i <= p@.len(),
            forall|k: int| 0 <= k < i ==> s@[k] == p@[k],
        decreases p.len() - i,
    {
        if s[i] != p[i] {
            assert(s@.subrange(0, p@.len() as int)[i as int] != p@[i as int]);
            return false;
        }
        i = i + 1;
    }
    assert(s@.subrange(0, p@.len() as int) =~= p@);
    true
}

/// Resolves `path` to the name of the first registered application, in
/// registration order, whose path prefix is a literal prefix of `path`.
/// Registration order, not prefix length, breaks ties between overlapping
/// prefixes.
pub fn resolve(path: &str, apps: &[(String, String)]) -> (r: Option<String>)
    ensures
        match r {
            Some(name) => first_match(path.spec_bytes(), apps@) == Some(name@),
            None => first_match(path.spec_bytes(), apps@) is None,
        },
{
    resolve_bytes(path.as_bytes(), apps)
}

/// `resolve` on a path given as its bytes.
pub fn resolve_bytes(path: &[u8], apps: &[(String, String)]) -> (r: Option<String>)
    ensures
        match r {
            Some(name) => first_match(path@, apps@) == Some(name@),
            None => first_match(path@, apps@) is None,
        },
{
    let mut i: usize = 0;
    assert(apps@.subrange(0, apps@.len() as int) =~= apps@);
    while i < apps.len()
        invariant
            i <= apps@.len(),
            first_match(path@, apps@) == first_match(path@, apps@.subrange(i as int, apps@.len() as int)),
        decreases apps.len() - i,
    {
        let prefix = apps[i].1.as_str().as_bytes();
        let ghost rest = apps@.subrange(i as int, apps@.len() as int);
        assert(rest[0] == apps@[i as int]);
        if bytes_start_with(path, prefix) {
            return Some(apps[i].0.clone());
        }
        assert(rest.drop_first() =~= apps@.subrange(i + 1, apps@.len() as int));
        i = i + 1;
    }
    assert(apps@.subrange(i as int, apps@.len() as int).len() == 0);
    None
}

} // verus!
