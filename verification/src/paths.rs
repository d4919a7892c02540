//! Unix path bytes: absoluteness and component joining as `std::path` defines them.

use vstd::prelude::*;

verus! {

/// A Unix path is absolute when it starts with `/`.
pub open spec fn is_absolute_path(path: Seq<u8>) -> bool {
    path.len() > 0 && path[0] == 47u8
}

/// `base` joined with `component` as `Path::join` does on Unix: an absolute component replaces
/// the base; otherwise a `/` separates them unless the base is empty or already ends with one.
pub open spec fn path_join(base: Seq<u8>, component: Seq<u8>) -> Seq<u8> {
    if is_absolute_path(component) {
        component
    } else if base.len() > 0 && base.last() != 47u8 {
        base + seq![47u8] + component
    } else {
        base + component
    }
}

/// Appends `bytes` to `out`.
pub fn extend_bytes(out: &mut Vec<u8>, bytes: &[u8])
    ensures
        final(out)@ == old(out)@ + bytes@,
{
    let mut i: usize = 0;
    while i < bytes.len()
        invariant
            i <= bytes@.len(),
            out@ == old(out)@ + bytes@.take(i as int),
        decreases bytes@.len() - i,
    {
        out.push(bytes[i]);
        assert(bytes@.take(i + 1) =~= bytes@.take(i as int).push(bytes@[i as int]));
        i = i + 1;
    }
    assert(bytes@.take(bytes@.len() as int) =~= bytes@);
}

/// Joins a path component onto a base path (`Path::join` on Unix).
pub fn join_path(base: &[u8], component: &[u8]) -> (path: Vec<u8>)
    ensures
        path@ == path_join(base@, component@),
{
    let mut path: Vec<u8> = Vec::new();
    if component.len() > 0 && component[0] == 47u8 {
        extend_bytes(&mut path, component);
        return path;
    }
    extend_bytes(&mut path, base);
    if base.len() > 0 && base[base.len() - 1] != 47u8 {
        path.push(47u8);
    }
    extend_bytes(&mut path, component);
    path
}

} // verus!
