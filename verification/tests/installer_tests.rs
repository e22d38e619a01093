use ksud::errors::InstallError;
use ksud::fs_model::FsModel;
use ksud::installer::{busybox_path, ensure_binaries, extract_su, resetprop_path};
use ksud::resources::ResourceSet;

fn sample_set() -> ResourceSet {
    let mut set = ResourceSet::new();
    assert!(set.add("busybox".to_string(), vec![1u8, 2, 3]));
    assert!(set.add("resetprop".to_string(), vec![4u8, 5]));
    assert!(set.add("su".to_string(), vec![6u8, 7, 8, 9]));
    set
}

#[test]
fn content_fidelity_after_ensure_binaries() {
    let set = sample_set();
    let mut fs = FsModel::new();
    assert!(ensure_binaries(&mut fs, &set).is_ok());
    let f = fs
        .get_file(&"/data/adb/ksu/bin/busybox".to_string())
        .expect("busybox installed");
    assert_eq!(f.data, vec![1u8, 2, 3]);
    assert!(f.executable);
    let f = fs
        .get_file(&"/data/adb/ksu/bin/resetprop".to_string())
        .expect("resetprop installed");
    assert_eq!(f.data, vec![4u8, 5]);
    assert!(f.executable);
    let f = fs
        .get_file(&"/data/adb/ksu/bin/su".to_string())
        .expect("su installed");
    assert_eq!(f.data, vec![6u8, 7, 8, 9]);
    assert!(f.executable);
}

#[test]
fn ensure_binaries_is_idempotent() {
    let set = sample_set();
    let mut fs = FsModel::new();
    assert!(ensure_binaries(&mut fs, &set).is_ok());
    let before: Vec<(String, Vec<u8>, bool, bool)> = fs
        .installed_paths()
        .into_iter()
        .map(|p| {
            let f = fs.get_file(&p).unwrap();
            (p.clone(), f.data.clone(), f.executable, f.labeled)
        })
        .collect();
    assert!(ensure_binaries(&mut fs, &set).is_ok());
    let after: Vec<(String, Vec<u8>, bool, bool)> = fs
        .installed_paths()
        .into_iter()
        .map(|p| {
            let f = fs.get_file(&p).unwrap();
            (p.clone(), f.data.clone(), f.executable, f.labeled)
        })
        .collect();
    assert_eq!(before, after);
}

#[test]
fn ensure_binaries_fails_fast_without_rollback() {
    let set = sample_set();
    let mut fs = FsModel::new();
    fs.deny_write("/data/adb/ksu/bin/resetprop".to_string());
    let err = ensure_binaries(&mut fs, &set).unwrap_err();
    match err {
        InstallError::BinaryWrite { path } => {
            assert_eq!(path, "/data/adb/ksu/bin/resetprop");
        }
        _ => panic!("wrong error variant"),
    }
    // the resource before the failing one stays installed
    let f = fs
        .get_file(&"/data/adb/ksu/bin/busybox".to_string())
        .expect("busybox stays");
    assert_eq!(f.data, vec![1u8, 2, 3]);
    // the resource after the failing one was never attempted
    assert!(fs.get_file(&"/data/adb/ksu/bin/su".to_string()).is_none());
    assert!(fs
        .get_file(&"/data/adb/ksu/bin/resetprop".to_string())
        .is_none());
}

#[test]
fn ensure_binaries_succeeds_on_denied_but_correct_destination() {
    let set = sample_set();
    let mut fs = FsModel::new();
    assert!(ensure_binaries(&mut fs, &set).is_ok());
    // a later run is a no-op, so a write denial no longer matters
    fs.deny_write("/data/adb/ksu/bin/busybox".to_string());
    assert!(ensure_binaries(&mut fs, &set).is_ok());
}

#[test]
fn extract_su_installs_and_labels() {
    let set = sample_set();
    let mut fs = FsModel::new();
    let base: Result<String, String> = Ok("/data/adb/ksu".to_string());
    assert!(extract_su(&mut fs, &set, &base).is_ok());
    let f = fs
        .get_file(&"/data/adb/ksu/bin/su".to_string())
        .expect("su installed");
    assert_eq!(f.data, vec![6u8, 7, 8, 9]);
    assert!(f.executable);
    assert!(f.labeled);
}

#[test]
fn extract_su_reports_lookup_failure() {
    let set = sample_set();
    let mut fs = FsModel::new();
    let base: Result<String, String> = Err("no base dir".to_string());
    let err = extract_su(&mut fs, &set, &base).unwrap_err();
    match err {
        InstallError::PathLookup { cause } => assert_eq!(cause, "no base dir"),
        _ => panic!("wrong error variant"),
    }
    assert!(fs.installed_paths().is_empty());
}

#[test]
fn extract_su_write_failure_prevents_labeling() {
    let set = sample_set();
    let mut fs = FsModel::new();
    fs.deny_write("/base/bin/su".to_string());
    let base: Result<String, String> = Ok("/base".to_string());
    let err = extract_su(&mut fs, &set, &base).unwrap_err();
    match err {
        InstallError::SuExtract { path } => assert_eq!(path, "/base/bin/su"),
        _ => panic!("wrong error variant"),
    }
    // the write failed, so nothing was installed and nothing was labeled
    assert!(fs.get_file(&"/base/bin/su".to_string()).is_none());
    assert!(fs.installed_paths().is_empty());
}

#[test]
fn extract_su_label_failure_keeps_binary_unlabeled() {
    let set = sample_set();
    let mut fs = FsModel::new();
    fs.deny_label("/base/bin/su".to_string());
    let base: Result<String, String> = Ok("/base".to_string());
    let err = extract_su(&mut fs, &set, &base).unwrap_err();
    match err {
        InstallError::SetContext { path } => assert_eq!(path, "/base/bin/su"),
        _ => panic!("wrong error variant"),
    }
    // no rollback: the binary stays, but carries no label
    let f = fs
        .get_file(&"/base/bin/su".to_string())
        .expect("binary kept");
    assert_eq!(f.data, vec![6u8, 7, 8, 9]);
    assert!(f.executable);
    assert!(!f.labeled);
}

#[test]
fn overwrite_resets_label() {
    let set = sample_set();
    let mut fs = FsModel::new();
    let base: Result<String, String> = Ok("/base".to_string());
    assert!(extract_su(&mut fs, &set, &base).is_ok());
    // a different content at the same path is rewritten from scratch
    assert!(fs
        .ensure_binary(&"/base/bin/su".to_string(), &vec![9u8])
        .is_ok());
    let f = fs.get_file(&"/base/bin/su".to_string()).unwrap();
    assert_eq!(f.data, vec![9u8]);
    assert!(!f.labeled);
}

#[test]
fn resource_set_refuses_duplicate_names() {
    let mut set = ResourceSet::new();
    assert!(set.add("su".to_string(), vec![1u8]));
    assert!(!set.add("su".to_string(), vec![2u8]));
    assert_eq!(set.len(), 1);
    let r = set.get(&"su".to_string()).expect("present");
    assert_eq!(r.data, vec![1u8]);
    assert!(set.get(&"missing".to_string()).is_none());
}

#[test]
fn fixed_resource_paths() {
    assert_eq!(resetprop_path(), "/data/adb/ksu/bin/resetprop");
    assert_eq!(busybox_path(), "/data/adb/ksu/bin/busybox");
}

#[test]
fn error_context_phrases() {
    let e = InstallError::PathLookup {
        cause: "x".to_string(),
    };
    assert_eq!(e.context(), "failed to get path");
    let e = InstallError::SuExtract {
        path: "p".to_string(),
    };
    assert_eq!(e.context(), "failed to extract su binary");
    let e = InstallError::SetContext {
        path: "p".to_string(),
    };
    assert_eq!(e.context(), "failed to set system context");
    let e = InstallError::BinaryWrite {
        path: "p".to_string(),
    };
    assert_eq!(e.context(), "failed to write binary");
}
