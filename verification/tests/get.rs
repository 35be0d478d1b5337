use std::io::Cursor;
use std::io::Write;

use scaii_get::constants;
use scaii_get::error::Error;
use scaii_get::get::Get;
use scaii_get::get::buffer_capacity_hint;
use scaii_get::get::get_closure_lib;
use scaii_get::get::get_protobuf_js;
use scaii_get::util::CdManager;
use scaii_get::util::FsAction;
use scaii_get::util::NameOrPath;
use zip::write::FileOptions;
use zip::write::ZipWriter;

fn seg(parts: &[&str]) -> Vec<String> {
    parts.iter().map(|p| p.to_string()).collect()
}

fn pack(entries: &[(&str, Option<&[u8]>)]) -> Vec<u8> {
    let mut w = ZipWriter::new(Cursor::new(Vec::new()));
    for (name, data) in entries {
        match data {
            Some(bytes) => {
                w.start_file(*name, FileOptions::default()).unwrap();
                w.write_all(bytes).unwrap();
            }
            None => {
                w.add_directory(name.trim_end_matches('/'), FileOptions::default()).unwrap();
            }
        }
    }
    w.finish().unwrap().into_inner()
}

#[test]
fn new_core_defaults_under_the_workspace() {
    let g = Get::new_core(None, "master", false, &seg(&["home", ".scaii"]));
    assert_eq!(g.path, seg(&["home", ".scaii", "git", "SCAII"]));
    assert_eq!(g.url, constants::CORE_URL);
    assert_eq!(g.branch, "master");
    assert!(!g.force);
    assert!(g.is_core);
}

#[test]
fn new_core_honors_an_explicit_save_path() {
    let g = Get::new_core(Some("custom/place"), "dev", true, &seg(&["home", ".scaii"]));
    assert_eq!(g.path, seg(&["custom", "place"]));
    assert!(g.force);
}

#[test]
fn new_rts_defaults_under_the_workspace() {
    let g = Get::new_rts(None, "master", false, &seg(&["h"]));
    assert_eq!(g.path, seg(&["h", "git", "Sky-RTS"]));
    assert_eq!(g.url, constants::RTS_URL);
    assert!(!g.is_core);
}

#[test]
fn new_backend_rejects_reserved_names() {
    let r = Get::new_backend(
        NameOrPath::Name("SCAII".to_string()),
        "master",
        false,
        "https://example.com/r",
        &seg(&["h"]),
    );
    assert!(matches!(r, Err(Error::ReservedName)));
    let r2 = Get::new_backend(
        NameOrPath::Name("Sky-RTS".to_string()),
        "master",
        false,
        "https://example.com/r",
        &seg(&["h"]),
    );
    assert!(matches!(r2, Err(Error::ReservedName)));
}

#[test]
fn new_backend_accepts_other_names() {
    let g = Get::new_backend(
        NameOrPath::Name("my-backend".to_string()),
        "main",
        true,
        "https://example.com/r",
        &seg(&["h"]),
    )
    .unwrap();
    assert_eq!(g.path, seg(&["h", "git", "my-backend"]));
    assert_eq!(g.url, "https://example.com/r");
    assert_eq!(g.branch, "main");
    assert!(g.force);
    assert!(!g.is_core);
}

#[test]
fn get_fails_on_existing_destination_before_any_network() {
    // A repeated fetch without the force flag stops at the pre-flight
    // check: no plan, hence no clone and no download, is ever produced.
    let mut network_calls = 0;
    let g = Get::new_core(None, "master", false, &seg(&["h"]));
    let first = g.get(false).unwrap();
    assert!(!first.clean_first);
    assert_eq!(first.target, seg(&["h", "git", "SCAII"]));

    let g2 = Get::new_core(None, "master", false, &seg(&["h"]));
    let second = g2.get(true);
    assert!(matches!(second, Err(Error::DestinationExists)));
    // Only a returned plan would have led to network activity.
    if second.is_ok() {
        network_calls += 1;
    }
    assert_eq!(network_calls, 0);
}

#[test]
fn get_with_force_replaces_the_destination() {
    let g = Get::new_core(None, "master", true, &seg(&["h"]));
    let plan = g.get(true).unwrap();
    assert!(plan.clean_first);
    assert_eq!(plan.target, seg(&["h", "git", "SCAII"]));
    assert_eq!(plan.url, constants::CORE_URL);
    assert!(plan.fetch_core_after);
}

#[test]
fn core_resources_need_the_visualization_tree() {
    let g = Get::new_core(None, "master", false, &seg(&["h"]));
    let r = g.get_core_resources(false);
    assert!(matches!(r, Err(Error::MissingVisualization)));
}

#[test]
fn core_resources_are_the_two_fixed_jobs() {
    let g = Get::new_core(None, "master", false, &seg(&["h"]));
    let jobs = g.get_core_resources(true).unwrap();
    assert_eq!(jobs.len(), 2);
    assert_eq!(jobs[0].url, constants::CLOSURE_LIB_URL);
    assert_eq!(jobs[0].dest, seg(&["h", "git", "SCAII", "viz", "js"]));
    assert!(jobs[0].flatten);
    assert_eq!(jobs[1].url, constants::PROTOBUF_JS_URL);
    assert_eq!(jobs[1].dest, seg(&["h", "git", "SCAII", "viz", "js"]));
    assert!(!jobs[1].flatten);
}

#[test]
fn buffer_hint_covers_both_archives() {
    let hint = buffer_capacity_hint();
    assert_eq!(hint, constants::CLOSURE_LIB_BYTES.max(constants::PROTOBUF_JS_BYTES));
}

#[test]
fn closure_lib_plan_lands_in_its_subdirectory() {
    let bytes = pack(&[
        ("closure-library-20171112/", None),
        ("closure-library-20171112/closure/base.js", Some(b"goog")),
        ("closure-library-20171112/README.md", Some(b"readme")),
    ]);
    let mut cd = CdManager::new(seg(&["viz", "js"]));
    let plan = get_closure_lib(&mut cd, &bytes).unwrap();
    assert_eq!(cd.clone_inner(), seg(&["viz", "js"]));
    let mut files = Vec::new();
    for act in &plan.actions {
        if let FsAction::WriteFile { path, data, .. } = act {
            files.push((path.clone(), data.clone()));
        }
    }
    assert_eq!(
        files,
        vec![
            (seg(&["viz", "js", "closure_library", "closure", "base.js"]), b"goog".to_vec()),
            (seg(&["viz", "js", "closure_library", "README.md"]), b"readme".to_vec()),
        ]
    );
}

#[test]
fn protobuf_js_plan_relocates_and_prunes() {
    let bytes = pack(&[("protobuf-3.5.1/js/message.js", Some(b"pb"))]);
    let mut cd = CdManager::new(seg(&["viz", "js"]));
    let plan = get_protobuf_js(&mut cd, &bytes).unwrap();
    assert_eq!(cd.clone_inner(), seg(&["viz", "js"]));
    let n = plan.actions.len();
    assert!(n >= 3);
    match &plan.actions[n - 2] {
        FsAction::Rename { from, to } => {
            assert_eq!(from, &seg(&["viz", "js", "protobuf-3.5.1", "js"]));
            assert_eq!(to, &seg(&["viz", "js", "protobuf_js"]));
        }
        other => panic!("expected a rename, got {:?}", other),
    }
    match &plan.actions[n - 1] {
        FsAction::RemoveAll { path } => {
            assert_eq!(path, &seg(&["viz", "js", "protobuf-3.5.1"]));
        }
        other => panic!("expected a prune, got {:?}", other),
    }
    match &plan.actions[0] {
        FsAction::WriteFile { path, data, .. } => {
            assert_eq!(path, &seg(&["viz", "js", "protobuf-3.5.1", "js", "message.js"]));
            assert_eq!(data, &b"pb".to_vec());
        }
        other => panic!("expected a file write, got {:?}", other),
    }
}

#[test]
fn corrupt_auxiliary_archive_fails_its_job_only() {
    let mut cd = CdManager::new(seg(&["viz", "js"]));
    let r = get_closure_lib(&mut cd, b"junk");
    assert!(matches!(r, Err(Error::CorruptArchive)));
    assert_eq!(cd.clone_inner(), seg(&["viz", "js"]));
}
