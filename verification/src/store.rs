//! The document store: loading with default scaffolding, and the atomic
//! write protocol.
//!
//! The store itself never touches the filesystem. `read_json` is handed
//! what the filesystem gave (the file's bytes, or nothing); `write_json_atomic`
//! returns the exact sequence of filesystem steps to perform. The meaning
//! of those steps on a disk is `apply_steps`, and the lemmas below prove
//! the protocol atomic: a reader sees the old document or the new one,
//! never part of a write.

use vstd::prelude::*;

use crate::json::{Json, JsonV};
use crate::parse::{parse, parse_doc_s};
use crate::paths::{
    backup_name, backup_name_spec, backups_rel, backups_rel_spec, file_name_of, file_name_spec,
    join, join_spec, parent_of, parent_spec, tmp_path_for, tmp_path_spec, AppDirs,
};
use crate::scaffold::{scaffold_for, scaffold_spec};
use crate::ser::{ser_val, to_bytes};

verus! {

/// The bytes of an existing document could not be parsed.
#[derive(Debug, PartialEq, Eq)]
pub struct ParseError;

/// A resolved target path names no file: nothing can be written there.
#[derive(Debug, PartialEq, Eq)]
pub struct PathError;

/// The view of what the filesystem reported for a file: its bytes, or
/// nothing when it does not exist.
pub open spec fn contents_view(c: Option<&Vec<u8>>) -> Option<Seq<u8>> {
    match c {
        Option::Some(b) => Option::Some(b@),
        Option::None => Option::None,
    }
}

/// What a load returns: the scaffold for an absent file, the parsed
/// document for an existing one, and a parse failure for anything else.
pub open spec fn load_spec(name: Seq<u8>, existing: Option<Seq<u8>>) -> Option<JsonV> {
    match existing {
        Option::None => Option::Some(scaffold_spec(name)),
        Option::Some(bytes) => parse_doc_s(bytes),
    }
}

/// Loads a document from what the filesystem gave for its logical name.
/// An absent file is no error: it yields the scaffold for the name.
/// Whatever comes back is a valid document, so it can always be saved
/// and loaded again unchanged.
pub fn read_json(rel_path: &Vec<u8>, existing: Option<&Vec<u8>>) -> (r: Result<Json, ParseError>)
    ensures
        match r {
            Result::Ok(j) => load_spec(rel_path@, contents_view(existing)) == Option::Some(j@)
                && crate::json::valid_v(j@),
            Result::Err(_) => load_spec(rel_path@, contents_view(existing)) is None,
        },
{
    proof {
        crate::scaffold::lemma_scaffold_valid(rel_path@);
    }
    match existing {
        Option::None => Result::Ok(scaffold_for(rel_path)),
        Option::Some(bytes) => {
            match parse(bytes) {
                Option::Some(j) => Result::Ok(j),
                Option::None => Result::Err(ParseError),
            }
        },
    }
}

/// One filesystem action of the atomic write protocol.
#[derive(Debug)]
pub enum FsStep {
    /// Create this directory, parents included, if it is missing.
    EnsureDir(Vec<u8>),
    /// Write these bytes to this path and force them to durable storage.
    WriteFileDurable(Vec<u8>, Vec<u8>),
    /// Copy the first path to the second; a failure is swallowed.
    CopyBestEffort(Vec<u8>, Vec<u8>),
    /// Atomically rename the first path onto the second, replacing it.
    RenameReplace(Vec<u8>, Vec<u8>),
}

/// The mathematical form of a step.
pub enum StepV {
    EnsureDir(Seq<u8>),
    WriteFileDurable(Seq<u8>, Seq<u8>),
    CopyBestEffort(Seq<u8>, Seq<u8>),
    RenameReplace(Seq<u8>, Seq<u8>),
}

impl View for FsStep {
    type V = StepV;

    open spec fn view(&self) -> StepV {
        match *self {
            FsStep::EnsureDir(p) => StepV::EnsureDir(p@),
            FsStep::WriteFileDurable(p, b) => StepV::WriteFileDurable(p@, b@),
            FsStep::CopyBestEffort(a, b) => StepV::CopyBestEffort(a@, b@),
            FsStep::RenameReplace(a, b) => StepV::RenameReplace(a@, b@),
        }
    }
}

/// The views of a sequence of steps.
pub open spec fn steps_view(s: Seq<FsStep>) -> Seq<StepV> {
    s.map_values(|st: FsStep| st@)
}

/// The steps of one atomic write of `doc` to the logical name `rel`:
/// make sure the target's directory exists, write the serialized bytes
/// to a sibling temporary file and force them down, back up the old file
/// when one exists, and only then rename the temporary file onto the
/// target.
pub open spec fn write_plan_spec(
    root: Seq<u8>,
    rel: Seq<u8>,
    doc: JsonV,
    target_exists: bool,
    ts: Seq<u8>,
) -> Seq<StepV> {
    let path = join_spec(root, rel);
    let tmp = tmp_path_spec(path);
    let head = seq![
        StepV::EnsureDir(parent_spec(path)),
        StepV::WriteFileDurable(tmp, ser_val(doc)),
    ];
    let tail = seq![StepV::RenameReplace(tmp, path)];
    if target_exists {
        let bdir = join_spec(root, backups_rel_spec());
        let bpath = join_spec(bdir, backup_name_spec(ts, file_name_spec(path)));
        head + seq![StepV::EnsureDir(bdir), StepV::CopyBestEffort(path, bpath)] + tail
    } else {
        head + tail
    }
}

/// Builds the steps of one atomic write. `target_exists` is what the
/// filesystem reported of the target path; `ts` is the timestamp that
/// names the backup entry. A logical name that resolves to a path with
/// an empty file name (such as an empty name) is refused before any
/// step is taken.
pub fn write_json_atomic(
    dirs: &AppDirs,
    rel_path: &Vec<u8>,
    data: &Json,
    target_exists: bool,
    ts: &Vec<u8>,
) -> (r: Result<Vec<FsStep>, PathError>)
    ensures
        match r {
            Result::Ok(steps) => file_name_spec(join_spec(dirs.data_dir@, rel_path@)).len() > 0
                && steps_view(steps@) == write_plan_spec(
                dirs.data_dir@,
                rel_path@,
                data@,
                target_exists,
                ts@,
            ),
            Result::Err(_) => file_name_spec(join_spec(dirs.data_dir@, rel_path@)).len() == 0,
        },
{
    let path = join(dirs, rel_path);
    let fname0 = file_name_of(&path);
    if fname0.len() == 0 {
        return Result::Err(PathError);
    }
    let tmp = tmp_path_for(&path);
    let bytes = to_bytes(data);
    let mut steps: Vec<FsStep> = Vec::new();
    steps.push(FsStep::EnsureDir(parent_of(&path)));
    steps.push(FsStep::WriteFileDurable(tmp, bytes));
    if target_exists {
        let brel = backups_rel();
        let bdir = join(dirs, &brel);
        let fname = file_name_of(&path);
        let bname = backup_name(ts, &fname);
        let bpath = join(&AppDirs { data_dir: bdir }, &bname);
        proof {
            assert(bpath@ == join_spec(
                join_spec(dirs.data_dir@, backups_rel_spec()),
                backup_name_spec(ts@, file_name_spec(join_spec(dirs.data_dir@, rel_path@))),
            ));
        }
        let bdir2 = join(dirs, &backups_rel());
        steps.push(FsStep::EnsureDir(bdir2));
        let src = join(dirs, rel_path);
        steps.push(FsStep::CopyBestEffort(src, bpath));
    }
    let tmp2 = tmp_path_for(&join(dirs, rel_path));
    let dst = join(dirs, rel_path);
    steps.push(FsStep::RenameReplace(tmp2, dst));
    proof {
        assert(steps_view(steps@) =~= write_plan_spec(
            dirs.data_dir@,
            rel_path@,
            data@,
            target_exists,
            ts@,
        ));
    }
    Result::Ok(steps)
}

/// A disk, as the protocol sees it: which bytes each path holds. A step
/// never leaves a path holding part of a write: `WriteFileDurable` is
/// complete before `RenameReplace` runs, and the rename is atomic.
/// `ok` tells whether a best-effort copy succeeded.
pub open spec fn apply_step(
    d: Map<Seq<u8>, Seq<u8>>,
    s: StepV,
    ok: bool,
) -> Map<Seq<u8>, Seq<u8>> {
    match s {
        StepV::EnsureDir(_) => d,
        StepV::WriteFileDurable(p, b) => d.insert(p, b),
        StepV::CopyBestEffort(src, dst) => if ok && d.contains_key(src) {
            d.insert(dst, d[src])
        } else {
            d
        },
        StepV::RenameReplace(src, dst) => if d.contains_key(src) {
            d.remove(src).insert(dst, d[src])
        } else {
            d
        },
    }
}

/// Applies steps in order; `oks[i]` tells whether step `i`'s copy, if it
/// is one, succeeded.
pub open spec fn apply_steps(
    d: Map<Seq<u8>, Seq<u8>>,
    steps: Seq<StepV>,
    oks: Seq<bool>,
) -> Map<Seq<u8>, Seq<u8>>
    decreases steps.len(),
{
    if steps.len() == 0 {
        d
    } else {
        apply_steps(
            apply_step(d, steps[0], if oks.len() > 0 { oks[0] } else { true }),
            steps.subrange(1, steps.len() as int),
            oks.subrange(if oks.len() > 0 { 1 } else { 0 }, oks.len() as int),
        )
    }
}

/// Two disks agree on a path.
pub open spec fn same_at(d1: Map<Seq<u8>, Seq<u8>>, d2: Map<Seq<u8>, Seq<u8>>, p: Seq<u8>) -> bool {
    (d1.contains_key(p) <==> d2.contains_key(p)) && (d1.contains_key(p) ==> d1[p] == d2[p])
}

/// Applying a sequence and then one more step is one more application.
proof fn lemma_apply_steps_snoc(
    d: Map<Seq<u8>, Seq<u8>>,
    s: Seq<StepV>,
    oks: Seq<bool>,
    x: StepV,
    okx: bool,
)
    requires
        s.len() == oks.len(),
    ensures
        apply_steps(d, s.push(x), oks.push(okx)) == apply_step(apply_steps(d, s, oks), x, okx),
    decreases s.len(),
{
    if s.len() == 0 {
        assert(s.push(x).subrange(1, 1) =~= Seq::<StepV>::empty());
        assert(oks.push(okx).subrange(1, 1) =~= Seq::<bool>::empty());
        assert(s.push(x)[0] == x);
        assert(oks.push(okx)[0] == okx);
        assert(apply_steps(d, s, oks) == d);
        assert(apply_steps(d, s.push(x), oks.push(okx)) == apply_steps(
            apply_step(d, x, okx),
            Seq::<StepV>::empty(),
            Seq::<bool>::empty(),
        ));
    } else {
        let d1 = apply_step(d, s[0], oks[0]);
        assert(s.push(x).subrange(1, s.push(x).len() as int) =~= s.subrange(
            1,
            s.len() as int,
        ).push(x));
        assert(oks.push(okx).subrange(1, oks.push(okx).len() as int) =~= oks.subrange(
            1,
            oks.len() as int,
        ).push(okx));
        lemma_apply_steps_snoc(d1, s.subrange(1, s.len() as int), oks.subrange(
            1,
            oks.len() as int,
        ), x, okx);
        assert(s.push(x)[0] == s[0]);
        assert(oks.push(okx)[0] == oks[0]);
        assert(apply_steps(d, s.push(x), oks.push(okx)) == apply_steps(
            d1,
            s.subrange(1, s.len() as int).push(x),
            oks.subrange(1, oks.len() as int).push(okx),
        ));
        assert(apply_steps(d, s, oks) == apply_steps(
            d1,
            s.subrange(1, s.len() as int),
            oks.subrange(1, oks.len() as int),
        ));
    }
}

} // verus!

verus! {

/// The path a logical name resolves to.
pub open spec fn target_path(root: Seq<u8>, rel: Seq<u8>) -> Seq<u8> {
    join_spec(root, rel)
}

/// The sibling temporary path the protocol writes first.
pub open spec fn plan_tmp(root: Seq<u8>, rel: Seq<u8>) -> Seq<u8> {
    tmp_path_spec(join_spec(root, rel))
}

/// The backup entry path for one write, under the `backups` directory.
pub open spec fn plan_backup(root: Seq<u8>, rel: Seq<u8>, ts: Seq<u8>) -> Seq<u8> {
    join_spec(
        join_spec(root, backups_rel_spec()),
        backup_name_spec(ts, file_name_spec(join_spec(root, rel))),
    )
}

/// The disk after the first `k` steps of one atomic write.
pub open spec fn disk_after(
    d: Map<Seq<u8>, Seq<u8>>,
    root: Seq<u8>,
    rel: Seq<u8>,
    doc: JsonV,
    target_exists: bool,
    ts: Seq<u8>,
    oks: Seq<bool>,
    k: int,
) -> Map<Seq<u8>, Seq<u8>> {
    apply_steps(
        d,
        write_plan_spec(root, rel, doc, target_exists, ts).subrange(0, k),
        oks.subrange(0, k),
    )
}

/// What one atomic write does to a disk, prefix by prefix: before the
/// final rename the target path is untouched, so an interruption at any
/// point leaves the old document whole; after the full plan the target
/// holds exactly the new serialized bytes, the temporary file is gone, a
/// successful backup holds the old bytes, and no other path changed.
pub proof fn lemma_atomic_write(
    d: Map<Seq<u8>, Seq<u8>>,
    root: Seq<u8>,
    rel: Seq<u8>,
    doc: JsonV,
    target_exists: bool,
    ts: Seq<u8>,
    oks: Seq<bool>,
    k: int,
)
    requires
        oks.len() == write_plan_spec(root, rel, doc, target_exists, ts).len(),
        0 <= k <= write_plan_spec(root, rel, doc, target_exists, ts).len(),
        target_path(root, rel) != plan_tmp(root, rel),
        target_exists ==> plan_backup(root, rel, ts) != target_path(root, rel),
        target_exists ==> plan_backup(root, rel, ts) != plan_tmp(root, rel),
    ensures
        k < write_plan_spec(root, rel, doc, target_exists, ts).len() ==> same_at(
            d,
            disk_after(d, root, rel, doc, target_exists, ts, oks, k),
            target_path(root, rel),
        ),
        2 <= k < write_plan_spec(root, rel, doc, target_exists, ts).len() ==> {
            let dk = disk_after(d, root, rel, doc, target_exists, ts, oks, k);
            dk.contains_key(plan_tmp(root, rel)) && dk[plan_tmp(root, rel)] == ser_val(doc)
        },
        k == write_plan_spec(root, rel, doc, target_exists, ts).len() ==> {
            let dk = disk_after(d, root, rel, doc, target_exists, ts, oks, k);
            dk.contains_key(target_path(root, rel)) && dk[target_path(root, rel)] == ser_val(doc)
                && !dk.contains_key(plan_tmp(root, rel))
        },
        target_exists && k >= 4 && oks[3] && d.contains_key(target_path(root, rel)) ==> {
            let dk = disk_after(d, root, rel, doc, target_exists, ts, oks, k);
            dk.contains_key(plan_backup(root, rel, ts)) && dk[plan_backup(root, rel, ts)]
                == d[target_path(root, rel)]
        },
        forall|q: Seq<u8>|
            q != target_path(root, rel) && q != plan_tmp(root, rel) && q != plan_backup(
                root,
                rel,
                ts,
            ) ==> same_at(d, disk_after(d, root, rel, doc, target_exists, ts, oks, k), q),
    decreases k,
{
    let plan = write_plan_spec(root, rel, doc, target_exists, ts);
    let path = target_path(root, rel);
    let tmp = plan_tmp(root, rel);
    let bpath = plan_backup(root, rel, ts);
    let bdir = join_spec(root, backups_rel_spec());
    if target_exists {
        assert(plan =~= seq![
            StepV::EnsureDir(parent_spec(path)),
            StepV::WriteFileDurable(tmp, ser_val(doc)),
            StepV::EnsureDir(bdir),
            StepV::CopyBestEffort(path, bpath),
            StepV::RenameReplace(tmp, path),
        ]);
    } else {
        assert(plan =~= seq![
            StepV::EnsureDir(parent_spec(path)),
            StepV::WriteFileDurable(tmp, ser_val(doc)),
            StepV::RenameReplace(tmp, path),
        ]);
    }
    if k == 0 {
        assert(plan.subrange(0, 0) =~= Seq::<StepV>::empty());
        assert(oks.subrange(0, 0) =~= Seq::<bool>::empty());
        assert(disk_after(d, root, rel, doc, target_exists, ts, oks, 0) == d);
    } else {
        lemma_atomic_write(d, root, rel, doc, target_exists, ts, oks, k - 1);
        let dprev = disk_after(d, root, rel, doc, target_exists, ts, oks, k - 1);
        let dk = disk_after(d, root, rel, doc, target_exists, ts, oks, k);
        assert(plan.subrange(0, k) =~= plan.subrange(0, k - 1).push(plan[k - 1]));
        assert(oks.subrange(0, k) =~= oks.subrange(0, k - 1).push(oks[k - 1]));
        let stepk = plan[k - 1];
        let okk = oks[k - 1];
        lemma_apply_steps_snoc(d, plan.subrange(0, k - 1), oks.subrange(0, k - 1), stepk, okk);
        assert(dk == apply_step(dprev, stepk, okk));
        assert forall|q: Seq<u8>| q != path && q != tmp && q != bpath implies same_at(d, dk, q) by {
            assert(same_at(d, dprev, q));
        }
    }
}

} // verus!

verus! {

/// The disk after one whole atomic write.
pub open spec fn saved_disk(
    d: Map<Seq<u8>, Seq<u8>>,
    root: Seq<u8>,
    rel: Seq<u8>,
    doc: JsonV,
    target_exists: bool,
    ts: Seq<u8>,
    oks: Seq<bool>,
) -> Map<Seq<u8>, Seq<u8>> {
    disk_after(
        d,
        root,
        rel,
        doc,
        target_exists,
        ts,
        oks,
        write_plan_spec(root, rel, doc, target_exists, ts).len() as int,
    )
}

/// Saving a document twice in a row is idempotent: after either save the
/// target holds exactly the document's serialization, and when the second
/// save's backup copy succeeds, the backup entry holds the content that
/// stood before the second save — that same serialization.
pub proof fn lemma_save_twice(
    d0: Map<Seq<u8>, Seq<u8>>,
    root: Seq<u8>,
    rel: Seq<u8>,
    doc: JsonV,
    exists0: bool,
    ts1: Seq<u8>,
    ts2: Seq<u8>,
    oks1: Seq<bool>,
    oks2: Seq<bool>,
)
    requires
        oks1.len() == write_plan_spec(root, rel, doc, exists0, ts1).len(),
        oks2.len() == write_plan_spec(root, rel, doc, true, ts2).len(),
        target_path(root, rel) != plan_tmp(root, rel),
        exists0 ==> plan_backup(root, rel, ts1) != target_path(root, rel),
        exists0 ==> plan_backup(root, rel, ts1) != plan_tmp(root, rel),
        plan_backup(root, rel, ts2) != target_path(root, rel),
        plan_backup(root, rel, ts2) != plan_tmp(root, rel),
    ensures
        ({
            let d1 = saved_disk(d0, root, rel, doc, exists0, ts1, oks1);
            d1.contains_key(target_path(root, rel)) && d1[target_path(root, rel)] == ser_val(doc)
        }),
        ({
            let d1 = saved_disk(d0, root, rel, doc, exists0, ts1, oks1);
            let d2 = saved_disk(d1, root, rel, doc, true, ts2, oks2);
            d2.contains_key(target_path(root, rel)) && d2[target_path(root, rel)] == ser_val(doc)
        }),
        oks2[3] ==> ({
            let d1 = saved_disk(d0, root, rel, doc, exists0, ts1, oks1);
            let d2 = saved_disk(d1, root, rel, doc, true, ts2, oks2);
            d2.contains_key(plan_backup(root, rel, ts2)) && d2[plan_backup(root, rel, ts2)]
                == ser_val(doc)
        }),
{
    let len1 = write_plan_spec(root, rel, doc, exists0, ts1).len() as int;
    let len2 = write_plan_spec(root, rel, doc, true, ts2).len() as int;
    lemma_atomic_write(d0, root, rel, doc, exists0, ts1, oks1, len1);
    let d1 = saved_disk(d0, root, rel, doc, exists0, ts1, oks1);
    lemma_atomic_write(d1, root, rel, doc, true, ts2, oks2, len2);
}

} // verus!

verus! {

/// Round trip through the store: after one atomic write of a valid
/// document, the bytes at the target path parse back to exactly that
/// document.
pub proof fn lemma_save_then_load(
    d0: Map<Seq<u8>, Seq<u8>>,
    root: Seq<u8>,
    rel: Seq<u8>,
    doc: JsonV,
    target_exists: bool,
    ts: Seq<u8>,
    oks: Seq<bool>,
)
    requires
        crate::json::valid_v(doc),
        oks.len() == write_plan_spec(root, rel, doc, target_exists, ts).len(),
        target_path(root, rel) != plan_tmp(root, rel),
        target_exists ==> plan_backup(root, rel, ts) != target_path(root, rel),
        target_exists ==> plan_backup(root, rel, ts) != plan_tmp(root, rel),
    ensures
        ({
            let d1 = saved_disk(d0, root, rel, doc, target_exists, ts, oks);
            d1.contains_key(target_path(root, rel)) && load_spec(
                rel,
                Some(d1[target_path(root, rel)]),
            ) == Some(doc)
        }),
{
    let len = write_plan_spec(root, rel, doc, target_exists, ts).len() as int;
    lemma_atomic_write(d0, root, rel, doc, target_exists, ts, oks, len);
    crate::roundtrip::lemma_round_trip(doc);
}

} // verus!
