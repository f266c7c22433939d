//! Path resolution: the data directory, logical names, sibling temporary
//! files and backup names. Paths are byte strings, as the operating
//! system sees them; `47` is the path separator and `46` the dot.

use vstd::prelude::*;

verus! {

/// The per-installation data directory, fixed at startup and passed into
/// every store operation.
#[derive(Debug, Clone)]
pub struct AppDirs {
    pub data_dir: Vec<u8>,
}

/// The root and a relative name joined with a separator; a root that
/// already ends in a separator gets no second one.
pub open spec fn join_spec(root: Seq<u8>, rel: Seq<u8>) -> Seq<u8> {
    if root.len() > 0 && root[root.len() - 1] == 47 {
        root + rel
    } else {
        root + seq![47u8] + rel
    }
}

/// Appends all of `src` to `out`.
pub(crate) fn append_bytes(out: &mut Vec<u8>, src: &Vec<u8>)
    ensures
        final(out)@ == old(out)@ + src@,
{
    let mut k: usize = 0;
    while k < src.len()
        invariant
            k <= src@.len(),
            out@ =~= old(out)@ + src@.subrange(0, k as int),
        decreases src@.len() - k,
    {
        let c = src[k];
        out.push(c);
        k = k + 1;
        proof {
            assert(out@ =~= old(out)@ + src@.subrange(0, k as int));
        }
    }
    proof {
        assert(src@.subrange(0, src@.len() as int) =~= src@);
    }
}

/// Resolves a logical relative name against the data directory: a pure
/// join, with no look at the filesystem.
pub fn join(dirs: &AppDirs, rel: &Vec<u8>) -> (r: Vec<u8>)
    ensures
        r@ == join_spec(dirs.data_dir@, rel@),
{
    let mut out: Vec<u8> = Vec::new();
    append_bytes(&mut out, &dirs.data_dir);
    if !(out.len() > 0 && out[out.len() - 1] == 47) {
        out.push(47);
    }
    append_bytes(&mut out, rel);
    proof {
        assert(out@ =~= join_spec(dirs.data_dir@, rel@));
    }
    out
}

/// The position of the last separator in `p`, or `-1` when there is none.
pub open spec fn last_sep(p: Seq<u8>) -> int
    decreases p.len(),
{
    if p.len() == 0 {
        -1
    } else if p[p.len() - 1] == 47 {
        p.len() - 1
    } else {
        last_sep(p.subrange(0, p.len() - 1))
    }
}

/// The position of the last dot of the last path component, or `-1`.
pub open spec fn last_dot(p: Seq<u8>) -> int
    decreases p.len(),
{
    if p.len() == 0 {
        -1
    } else if p[p.len() - 1] == 46 {
        p.len() - 1
    } else if p[p.len() - 1] == 47 {
        -1
    } else {
        last_dot(p.subrange(0, p.len() - 1))
    }
}

/// Everything before the last separator: the directory holding `p`.
pub open spec fn parent_spec(p: Seq<u8>) -> Seq<u8> {
    if last_sep(p) >= 0 {
        p.subrange(0, last_sep(p))
    } else {
        Seq::empty()
    }
}

/// Everything after the last separator: the file name of `p`.
pub open spec fn file_name_spec(p: Seq<u8>) -> Seq<u8> {
    p.subrange(last_sep(p) + 1, p.len() as int)
}

/// The sibling temporary file: the extension replaced by `tmp`, or
/// `.tmp` appended when the file name has no extension of its own.
pub open spec fn tmp_path_spec(p: Seq<u8>) -> Seq<u8> {
    let ld = last_dot(p);
    if ld > last_sep(p) + 1 {
        p.subrange(0, ld) + seq![46u8, 116u8, 109u8, 112u8]
    } else {
        p + seq![46u8, 116u8, 109u8, 112u8]
    }
}

/// Finds the last separator of `p`, as `last_sep` names it.
fn find_last_sep(p: &Vec<u8>) -> (r: Option<usize>)
    ensures
        match r {
            Some(k) => last_sep(p@) == k as int && k < p@.len(),
            None => last_sep(p@) == -1,
        },
{
    let mut j = p.len();
    proof {
        assert(p@.subrange(0, p@.len() as int) =~= p@);
    }
    while j > 0
        invariant
            j <= p@.len(),
            last_sep(p@) == last_sep(p@.subrange(0, j as int)),
        decreases j,
    {
        if p[j - 1] == 47 {
            proof {
                let pre = p@.subrange(0, j as int);
                assert(pre[pre.len() - 1] == 47);
            }
            return Some(j - 1);
        }
        proof {
            let pre = p@.subrange(0, j as int);
            assert(pre.subrange(0, pre.len() - 1) =~= p@.subrange(0, j - 1));
        }
        j = j - 1;
    }
    None
}

/// Finds the last dot of the last component, as `last_dot` names it.
fn find_last_dot(p: &Vec<u8>) -> (r: Option<usize>)
    ensures
        match r {
            Some(k) => last_dot(p@) == k as int && k < p@.len(),
            None => last_dot(p@) == -1,
        },
{
    let mut j = p.len();
    proof {
        assert(p@.subrange(0, p@.len() as int) =~= p@);
    }
    while j > 0
        invariant
            j <= p@.len(),
            last_dot(p@) == last_dot(p@.subrange(0, j as int)),
        decreases j,
    {
        let c = p[j - 1];
        proof {
            let pre = p@.subrange(0, j as int);
            assert(pre[pre.len() - 1] == c);
            assert(pre.subrange(0, pre.len() - 1) =~= p@.subrange(0, j - 1));
        }
        if c == 46 {
            return Some(j - 1);
        }
        if c == 47 {
            return None;
        }
        j = j - 1;
    }
    None
}

/// The directory that holds `p`.
pub fn parent_of(p: &Vec<u8>) -> (r: Vec<u8>)
    ensures
        r@ == parent_spec(p@),
{
    match find_last_sep(p) {
        Some(k) => {
            let mut out: Vec<u8> = Vec::new();
            let mut q: usize = 0;
            while q < k
                invariant
                    q <= k,
                    k < p@.len(),
                    out@ =~= p@.subrange(0, q as int),
                decreases k - q,
            {
                let c = p[q];
                out.push(c);
                q = q + 1;
                proof {
                    assert(out@ =~= p@.subrange(0, q as int));
                }
            }
            out
        },
        None => Vec::new(),
    }
}

/// The file name of `p`.
pub fn file_name_of(p: &Vec<u8>) -> (r: Vec<u8>)
    ensures
        r@ == file_name_spec(p@),
{
    let n = p.len();  // anchors the sequence length to a machine word
    let start = match find_last_sep(p) {
        Some(k) => k + 1,
        None => 0,
    };
    let mut out: Vec<u8> = Vec::new();
    let mut q = start;
    while q < p.len()
        invariant
            start <= q <= p@.len(),
            out@ =~= p@.subrange(start as int, q as int),
        decreases p@.len() - q,
    {
        let c = p[q];
        out.push(c);
        q = q + 1;
        proof {
            assert(out@ =~= p@.subrange(start as int, q as int));
        }
    }
    out
}

/// The sibling temporary path for `p`.
pub fn tmp_path_for(p: &Vec<u8>) -> (r: Vec<u8>)
    ensures
        r@ == tmp_path_spec(p@),
{
    let ls = find_last_sep(p);
    let ld = find_last_dot(p);
    let cut = match ld {
        Some(d) => {
            let keep = match ls {
                Some(sp) => sp < d && d - sp >= 2,
                None => d > 0,
            };
            if keep {
                d
            } else {
                p.len()
            }
        },
        None => p.len(),
    };
    let mut out: Vec<u8> = Vec::new();
    let mut q: usize = 0;
    while q < cut
        invariant
            q <= cut,
            cut <= p@.len(),
            out@ =~= p@.subrange(0, q as int),
        decreases cut - q,
    {
        let c = p[q];
        out.push(c);
        q = q + 1;
        proof {
            assert(out@ =~= p@.subrange(0, q as int));
        }
    }
    out.push(46);
    out.push(116);
    out.push(109);
    out.push(112);
    proof {
        assert(p@.subrange(0, p@.len() as int) =~= p@);
        assert(out@ =~= tmp_path_spec(p@));
    }
    out
}

/// The relative name of the backup directory, `backups`.
pub open spec fn backups_rel_spec() -> Seq<u8> {
    seq![98u8, 97u8, 99u8, 107u8, 117u8, 112u8, 115u8]
}

/// The name of the backup directory as a value.
pub fn backups_rel() -> (r: Vec<u8>)
    ensures
        r@ == backups_rel_spec(),
{
    let mut v: Vec<u8> = Vec::new();
    v.push(98);
    v.push(97);
    v.push(99);
    v.push(107);
    v.push(117);
    v.push(112);
    v.push(115);
    proof {
        assert(v@ =~= backups_rel_spec());
    }
    v
}

/// The backup entry name: the timestamp, a dash, the original file name.
pub open spec fn backup_name_spec(ts: Seq<u8>, name: Seq<u8>) -> Seq<u8> {
    ts + seq![45u8] + name
}

/// Builds the backup entry name for a file.
pub fn backup_name(ts: &Vec<u8>, name: &Vec<u8>) -> (r: Vec<u8>)
    ensures
        r@ == backup_name_spec(ts@, name@),
{
    let mut out: Vec<u8> = Vec::new();
    append_bytes(&mut out, ts);
    out.push(45);
    append_bytes(&mut out, name);
    proof {
        assert(out@ =~= backup_name_spec(ts@, name@));
    }
    out
}

} // verus!
