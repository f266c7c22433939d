use pm_store::json::Json;
use pm_store::paths::{backup_name, file_name_of, join, parent_of, tmp_path_for, AppDirs};
use pm_store::scaffold::scaffold_for;
use pm_store::ser::to_bytes;
use pm_store::store::{read_json, write_json_atomic, FsStep};
use pm_store::timestamp::{current_timestamp, format_timestamp};

fn num(mantissa: u64, scale: u32) -> Json {
    Json::Num { neg: false, mantissa, scale }
}

fn key(s: &str) -> Vec<u8> {
    s.as_bytes().to_vec()
}

fn default_settings() -> Json {
    Json::Obj(vec![
        (key("version"), num(1, 0)),
        (key("mode"), Json::Str(key("rule"))),
        (
            key("hard_limits"),
            Json::Obj(vec![
                (key("wip_per_owner"), num(1, 0)),
                (key("due_within_hours_priority"), num(24, 0)),
            ]),
        ),
        (
            key("weights"),
            Json::Obj(vec![
                (key("priority"), num(45, 2)),
                (key("urgency"), num(35, 2)),
                (key("capacity_fit"), num(10, 2)),
                (key("budget_headroom"), num(10, 2)),
            ]),
        ),
        (
            key("penalties"),
            Json::Obj(vec![(key("blocked"), num(20, 1)), (key("over_budget"), num(10, 1))]),
        ),
        (key("focus_mode_on_accept"), Json::Bool(true)),
        (
            key("columns"),
            Json::Arr(vec![
                Json::Str(key("Now")),
                Json::Str(key("Next")),
                Json::Str(key("Later")),
                Json::Str(key("Blocked")),
                Json::Str(key("Done")),
            ]),
        ),
    ])
}

fn default_tasks() -> Json {
    Json::Obj(vec![(key("version"), num(1, 0)), (key("tasks"), Json::Arr(vec![]))])
}

/// A tiny in-memory disk that interprets the store's filesystem steps the
/// way the real binary does.
struct MemDisk {
    files: Vec<(Vec<u8>, Vec<u8>)>,
}

impl MemDisk {
    fn new() -> MemDisk {
        MemDisk { files: Vec::new() }
    }

    fn get(&self, p: &[u8]) -> Option<Vec<u8>> {
        self.files.iter().find(|e| e.0 == p).map(|e| e.1.clone())
    }

    fn put(&mut self, p: Vec<u8>, b: Vec<u8>) {
        self.files.retain(|e| e.0 != p);
        self.files.push((p, b));
    }

    fn remove(&mut self, p: &[u8]) {
        self.files.retain(|e| e.0 != p);
    }

    fn apply(&mut self, steps: &[FsStep]) {
        for s in steps {
            match s {
                FsStep::EnsureDir(_) => {}
                FsStep::WriteFileDurable(p, b) => self.put(p.clone(), b.clone()),
                FsStep::CopyBestEffort(src, dst) => {
                    if let Some(b) = self.get(src) {
                        self.put(dst.clone(), b);
                    }
                }
                FsStep::RenameReplace(src, dst) => {
                    if let Some(b) = self.get(src) {
                        self.remove(src);
                        self.put(dst.clone(), b);
                    }
                }
            }
        }
    }
}

#[test]
fn load_missing_tasks_returns_envelope() {
    let got = read_json(&key("tasks.json"), None).unwrap();
    assert_eq!(got, default_tasks());
}

#[test]
fn load_missing_settings_returns_defaults() {
    let got = read_json(&key("settings.json"), None).unwrap();
    assert_eq!(got, default_settings());
}

#[test]
fn load_missing_other_returns_empty_sequence() {
    let got = read_json(&key("notes.json"), None).unwrap();
    assert_eq!(got, Json::Arr(vec![]));
}

#[test]
fn suffix_matching_is_loose_as_shipped() {
    // any name whose suffix is the whole logical name matches
    assert_eq!(scaffold_for(&key("xtasks.json")), default_tasks());
    assert_eq!(scaffold_for(&key("sub/tasks.json")), default_tasks());
    // a name that merely contains it does not
    assert_eq!(scaffold_for(&key("my-tasks.json-backup")), Json::Arr(vec![]));
}

#[test]
fn load_existing_bytes_parses_them() {
    let bytes = b"{\"version\":1,\"tasks\":[]}".to_vec();
    let got = read_json(&key("tasks.json"), Some(&bytes)).unwrap();
    assert_eq!(got, default_tasks());
}

#[test]
fn load_malformed_bytes_is_an_error() {
    let bytes = b"{\"version\":1,".to_vec();
    assert!(read_json(&key("tasks.json"), Some(&bytes)).is_err());
}

#[test]
fn path_helpers() {
    let dirs = AppDirs { data_dir: key("/data/pm-app") };
    assert_eq!(join(&dirs, &key("tasks.json")), key("/data/pm-app/tasks.json"));
    let slashed = AppDirs { data_dir: key("/data/") };
    assert_eq!(join(&slashed, &key("a.json")), key("/data/a.json"));
    assert_eq!(tmp_path_for(&key("/d/tasks.json")), key("/d/tasks.tmp"));
    assert_eq!(tmp_path_for(&key("/d/noext")), key("/d/noext.tmp"));
    assert_eq!(tmp_path_for(&key("/d/.hidden")), key("/d/.hidden.tmp"));
    assert_eq!(file_name_of(&key("/d/tasks.json")), key("tasks.json"));
    assert_eq!(parent_of(&key("/d/tasks.json")), key("/d"));
    assert_eq!(
        backup_name(&key("20240307-090530"), &key("tasks.json")),
        key("20240307-090530-tasks.json")
    );
}

#[test]
fn timestamp_formatting() {
    assert_eq!(format_timestamp(2024, 3, 7, 9, 5, 30), key("20240307-090530"));
    assert_eq!(format_timestamp(31, 12, 31, 23, 59, 59), key("00311231-235959"));
    assert_eq!(format_timestamp(-44, 1, 2, 3, 4, 5), key("-00440102-030405"));
    let now = current_timestamp();
    assert!(now.len() >= 15);
    assert_eq!(now[8], b'-');
}

#[test]
fn write_to_a_nameless_path_is_refused() {
    let dirs = AppDirs { data_dir: key("/") };
    let ts = key("20240307-090530");
    assert!(write_json_atomic(&dirs, &key(""), &default_tasks(), false, &ts).is_err());
    let dirs2 = AppDirs { data_dir: key("/data") };
    assert!(write_json_atomic(&dirs2, &key("sub/"), &default_tasks(), false, &ts).is_err());
    assert!(write_json_atomic(&dirs2, &key("a.json"), &default_tasks(), false, &ts).is_ok());
}

#[test]
fn write_plan_without_existing_file_has_no_backup() {
    let dirs = AppDirs { data_dir: key("/data") };
    let ts = key("20240307-090530");
    let plan = write_json_atomic(&dirs, &key("settings.json"), &default_settings(), false, &ts).unwrap();
    assert_eq!(plan.len(), 3);
    assert!(matches!(&plan[0], FsStep::EnsureDir(p) if p == &key("/data")));
    assert!(
        matches!(&plan[1], FsStep::WriteFileDurable(p, b)
            if p == &key("/data/settings.tmp") && *b == to_bytes(&default_settings()))
    );
    assert!(
        matches!(&plan[2], FsStep::RenameReplace(src, dst)
            if src == &key("/data/settings.tmp") && dst == &key("/data/settings.json"))
    );
}

#[test]
fn write_plan_with_existing_file_backs_up_first() {
    let dirs = AppDirs { data_dir: key("/data") };
    let ts = key("20240307-090530");
    let plan = write_json_atomic(&dirs, &key("tasks.json"), &default_tasks(), true, &ts).unwrap();
    assert_eq!(plan.len(), 5);
    assert!(matches!(&plan[2], FsStep::EnsureDir(p) if p == &key("/data/backups")));
    assert!(
        matches!(&plan[3], FsStep::CopyBestEffort(src, dst)
            if src == &key("/data/tasks.json")
                && dst == &key("/data/backups/20240307-090530-tasks.json"))
    );
    assert!(matches!(&plan[4], FsStep::RenameReplace(_, dst) if dst == &key("/data/tasks.json")));
}

#[test]
fn settings_update_scenario() {
    // empty data directory: loading settings yields the defaults
    let dirs = AppDirs { data_dir: key("/data") };
    let mut disk = MemDisk::new();
    let target = join(&dirs, &key("settings.json"));
    assert_eq!(disk.get(&target), None);
    let loaded = read_json(&key("settings.json"), None).unwrap();
    let mut fields = match loaded {
        Json::Obj(fields) => fields,
        other => panic!("settings must be an object, got {:?}", other),
    };
    let weights = fields.iter().find(|f| f.0 == key("weights")).unwrap();
    let priority = match &weights.1 {
        Json::Obj(ws) => ws.iter().find(|f| f.0 == key("priority")).unwrap().1.clone_shallow(),
        other => panic!("weights must be an object, got {:?}", other),
    };
    assert_eq!(priority, num(45, 2));

    // the caller raises weights.priority to 0.5 and saves
    for f in fields.iter_mut() {
        if f.0 == key("weights") {
            if let Json::Obj(ws) = &mut f.1 {
                for w in ws.iter_mut() {
                    if w.0 == key("priority") {
                        w.1 = num(5, 1);
                    }
                }
            }
        }
    }
    let updated = Json::Obj(fields);
    let ts = key("20240307-090530");
    let plan = write_json_atomic(&dirs, &key("settings.json"), &updated, false, &ts).unwrap();
    disk.apply(&plan);

    // loading now yields the updated weights, and no backup entry exists
    let bytes = disk.get(&target).expect("the save must create the file");
    let reloaded = read_json(&key("settings.json"), Some(&bytes)).unwrap();
    assert!(reloaded.deep_eq(&updated));
    let backup_prefix = key("/data/backups/");
    assert!(disk.files.iter().all(|e| !e.0.starts_with(&backup_prefix)));
}

#[test]
fn second_save_keeps_one_backup_of_first_bytes() {
    let dirs = AppDirs { data_dir: key("/data") };
    let mut disk = MemDisk::new();
    let target = join(&dirs, &key("tasks.json"));
    let doc1 = Json::Obj(vec![
        (key("version"), num(1, 0)),
        (key("tasks"), Json::Arr(vec![Json::Obj(vec![(key("id"), Json::Str(key("t1")))])])),
    ]);
    let doc2 = Json::Obj(vec![
        (key("version"), num(1, 0)),
        (key("tasks"), Json::Arr(vec![Json::Obj(vec![(key("id"), Json::Str(key("t2")))])])),
    ]);
    let ts1 = key("20240307-090530");
    let plan1 = write_json_atomic(&dirs, &key("tasks.json"), &doc1, disk.get(&target).is_some(), &ts1).unwrap();
    disk.apply(&plan1);
    assert_eq!(disk.get(&target), Some(to_bytes(&doc1)));

    let ts2 = key("20240307-090612");
    let plan2 = write_json_atomic(&dirs, &key("tasks.json"), &doc2, disk.get(&target).is_some(), &ts2).unwrap();
    disk.apply(&plan2);
    assert_eq!(disk.get(&target), Some(to_bytes(&doc2)));

    let backup_prefix = key("/data/backups/");
    let backups: Vec<_> = disk.files.iter().filter(|e| e.0.starts_with(&backup_prefix)).collect();
    assert_eq!(backups.len(), 1);
    assert_eq!(backups[0].0, key("/data/backups/20240307-090612-tasks.json"));
    assert_eq!(backups[0].1, to_bytes(&doc1));
}

#[test]
fn interrupted_write_leaves_target_intact() {
    // run every proper prefix of the plan: the target never changes
    let dirs = AppDirs { data_dir: key("/data") };
    let mut disk = MemDisk::new();
    let target = join(&dirs, &key("tasks.json"));
    let doc1 = default_tasks();
    let ts1 = key("20240307-090530");
    let plan1 = write_json_atomic(&dirs, &key("tasks.json"), &doc1, false, &ts1).unwrap();
    disk.apply(&plan1);
    let old_bytes = disk.get(&target).unwrap();

    let doc2 = Json::Obj(vec![(key("version"), num(2, 0)), (key("tasks"), Json::Arr(vec![]))]);
    let ts2 = key("20240307-090612");
    let plan2 = write_json_atomic(&dirs, &key("tasks.json"), &doc2, true, &ts2).unwrap();
    for cut in 0..plan2.len() {
        let mut crashed = MemDisk { files: disk.files.clone() };
        crashed.apply(&plan2[..cut]);
        let seen = crashed.get(&target).unwrap();
        assert_eq!(seen, old_bytes);
        // the old document still parses
        assert!(read_json(&key("tasks.json"), Some(&seen)).is_ok());
    }
}

/// Shallow clone for the one test value that needs it.
trait CloneShallow {
    fn clone_shallow(&self) -> Json;
}

impl CloneShallow for Json {
    fn clone_shallow(&self) -> Json {
        match self {
            Json::Num { neg, mantissa, scale } => Json::Num {
                neg: *neg,
                mantissa: *mantissa,
                scale: *scale,
            },
            Json::Null => Json::Null,
            Json::Bool(b) => Json::Bool(*b),
            Json::Str(s) => Json::Str(s.clone()),
            _ => panic!("only scalar values are cloned in tests"),
        }
    }
}
