//! Whether a file lies inside the workspace, decided on path components as
//! `Path::starts_with` decides it on Unix.

use vstd::prelude::*;

verus! {

/// The byte `/`.
pub open spec fn slash() -> u8 {
    47
}

/// The byte `.`.
pub open spec fn dot() -> u8 {
    46
}

/// `parts` with the segment `cur` added, unless it is empty or `.`.
pub open spec fn close_segment(parts: Seq<Seq<u8>>, cur: Seq<u8>) -> Seq<Seq<u8>> {
    if cur.len() == 0 || cur == seq![dot()] {
        parts
    } else {
        parts.push(cur)
    }
}

/// The segments of `s` between slashes, with empty and `.` segments
/// dropped, after the segment `cur` read so far and the segments `parts`.
pub open spec fn segments_from(s: Seq<u8>, cur: Seq<u8>, parts: Seq<Seq<u8>>) -> Seq<Seq<u8>>
    decreases s.len(),
{
    if s.len() == 0 {
        close_segment(parts, cur)
    } else if s[0] == slash() {
        segments_from(s.drop_first(), Seq::empty(), close_segment(parts, cur))
    } else {
        segments_from(s.drop_first(), cur.push(s[0]), parts)
    }
}

/// The components of the Unix path `p`, as `Path::components` yields them:
/// the root (written `/`) when `p` starts with a slash, a leading `.` of a
/// relative path, then every segment but the empty ones and `.`.
pub open spec fn path_components(p: Seq<u8>) -> Seq<Seq<u8>> {
    let rooted = p.len() > 0 && p[0] == slash();
    let current = !rooted && p.len() > 0 && p[0] == dot() && (p.len() == 1 || p[1] == slash());
    (if rooted {
        seq![seq![slash()]]
    } else {
        Seq::empty()
    }) + (if current {
        seq![seq![dot()]]
    } else {
        Seq::empty()
    }) + segments_from(p, Seq::empty(), Seq::empty())
}

/// Whether the path `path` starts with the path `base`, component by
/// component, as `Path::starts_with` tells.
pub open spec fn path_starts_with(path: Seq<u8>, base: Seq<u8>) -> bool {
    let pc = path_components(path);
    let bc = path_components(base);
    bc.len() <= pc.len() && pc.take(bc.len() as int) == bc
}

/// The bytes of each vector of `v`.
pub open spec fn byte_vecs_view(v: Seq<Vec<u8>>) -> Seq<Seq<u8>> {
    v.map_values(|x: Vec<u8>| x@)
}

/// Adds the segment `cur` to `parts` unless it is empty or `.`.
fn close_into(parts: &mut Vec<Vec<u8>>, cur: Vec<u8>)
    ensures
        byte_vecs_view(final(parts)@) == close_segment(byte_vecs_view(old(parts)@), cur@),
{
    let keep = !(cur.len() == 0 || (cur.len() == 1 && cur[0] == 46u8));
    assert(keep == !(cur@.len() == 0 || cur@ == seq![dot()])) by {
        if cur@.len() == 1 && cur@[0] == dot() {
            assert(cur@ =~= seq![dot()]);
        }
    }
    if keep {
        let ghost before = parts@;
        parts.push(cur);
        assert(byte_vecs_view(parts@) =~= byte_vecs_view(before).push(cur@));
    }
}

/// The components of the Unix path `p`.
pub fn components(p: &[u8]) -> (r: Vec<Vec<u8>>)
    ensures
        byte_vecs_view(r@) == path_components(p@),
{
    let n = p.len();
    let rooted = n > 0 && p[0] == 47u8;
    let current = !rooted && n > 0 && p[0] == 46u8 && (n == 1 || p[1] == 47u8);
    let mut parts: Vec<Vec<u8>> = Vec::new();
    if rooted {
        let mut root: Vec<u8> = Vec::new();
        root.push(47u8);
        assert(root@ =~= seq![slash()]);
        parts.push(root);
    }
    let ghost rooted_part = byte_vecs_view(parts@);
    assert(rooted_part =~= (if rooted {
        seq![seq![slash()]]
    } else {
        Seq::empty()
    }));
    if current {
        let mut here: Vec<u8> = Vec::new();
        here.push(46u8);
        assert(here@ =~= seq![dot()]);
        let ghost before = parts@;
        parts.push(here);
        assert(byte_vecs_view(parts@) =~= byte_vecs_view(before).push(seq![dot()]));
    }
    let ghost head = byte_vecs_view(parts@);
    assert(head =~= (if rooted {
        seq![seq![slash()]]
    } else {
        Seq::empty()
    }) + (if current {
        seq![seq![dot()]]
    } else {
        Seq::empty()
    }));
    let mut segs: Vec<Vec<u8>> = Vec::new();
    let mut cur: Vec<u8> = Vec::new();
    let mut i: usize = 0;
    assert(p@.skip(0) =~= p@);
    assert(byte_vecs_view(segs@) =~= Seq::<Seq<u8>>::empty());
    assert(cur@ =~= Seq::<u8>::empty());
    while i < n
        invariant
            n == p@.len(),
            i <= n,
            segments_from(p@, Seq::empty(), Seq::empty()) == segments_from(
                p@.skip(i as int),
                cur@,
                byte_vecs_view(segs@),
            ),
        decreases n - i,
    {
        assert(p@.skip(i as int).drop_first() =~= p@.skip(i + 1));
        assert(p@.skip(i as int)[0] == p@[i as int]);
        if p[i] == 47u8 {
            let done = cur;
            cur = Vec::new();
            close_into(&mut segs, done);
            assert(cur@ =~= Seq::<u8>::empty());
        } else {
            cur.push(p[i]);
        }
        i = i + 1;
    }
    assert(p@.skip(n as int) =~= Seq::<u8>::empty());
    close_into(&mut segs, cur);
    let ghost tail = byte_vecs_view(segs@);
    parts.append(&mut segs);
    assert(byte_vecs_view(parts@) =~= head + tail);
    parts
}

/// Whether `a` and `b` hold the same bytes.
fn bytes_eq(a: &Vec<u8>, b: &Vec<u8>) -> (r: bool)
    ensures
        r == (a@ == b@),
{
    if a.len() != b.len() {
        return false;
    }
    let mut i: usize = 0;
    while i < a.len()
        invariant
            a@.len() == b@.len(),
            i <= a@.len(),
            forall|k: int| 0 <= k < i ==> a@[k] == b@[k],
        decreases a@.len() - i,
    {
        if a[i] != b[i] {
            return false;
        }
        i = i + 1;
    }
    assert(a@ =~= b@);
    true
}

/// Whether the path `path` starts with the path `base`, component by
/// component, as `Path::starts_with` tells on Unix.
pub fn starts_with_path(path: &[u8], base: &[u8]) -> (r: bool)
    ensures
        r == path_starts_with(path@, base@),
{
    let pc = components(path);
    let bc = components(base);
    let ghost pv = byte_vecs_view(pc@);
    let ghost bv = byte_vecs_view(bc@);
    assert(pv.len() == pc@.len() && bv.len() == bc@.len());
    if bc.len() > pc.len() {
        return false;
    }
    let mut i: usize = 0;
    while i < bc.len()
        invariant
            bc@.len() <= pc@.len(),
            pv == byte_vecs_view(pc@),
            bv == byte_vecs_view(bc@),
            pv.len() == pc@.len(),
            bv.len() == bc@.len(),
            pv == path_components(path@),
            bv == path_components(base@),
            i <= bc@.len(),
            forall|k: int| 0 <= k < i ==> pv[k] == bv[k],
        decreases bc@.len() - i,
    {
        assert(pv[i as int] == pc@[i as int]@ && bv[i as int] == bc@[i as int]@);
        if !bytes_eq(&pc[i], &bc[i]) {
            assert(pv.take(bv.len() as int)[i as int] != bv[i as int]);
            return false;
        }
        i = i + 1;
    }
    assert(pv.take(bv.len() as int) =~= bv);
    true
}

/// Refuses a file whose canonical path `path` does not lie inside the
/// workspace directory `root`.
pub fn check_in_workspace(path: &[u8], root: &[u8]) -> (r: Result<(), String>)
    ensures
        path_starts_with(path@, root@) ==> r is Ok,
        !path_starts_with(path@, root@) ==> (r matches Err(e) && e@
            == "path must stay inside the workspace"@),
{
    if starts_with_path(path, root) {
        Ok(())
    } else {
        Err("path must stay inside the workspace".to_owned())
    }
}

} // verus!
