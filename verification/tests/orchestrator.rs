use std::io::Cursor;
use std::io::Write;

use scaii_get::error::Error;
use scaii_get::error::aggregate;
use scaii_get::util::CdManager;
use scaii_get::util::unzip;
use zip::write::FileOptions;
use zip::write::ZipWriter;

fn seg(parts: &[&str]) -> Vec<String> {
    parts.iter().map(|p| p.to_string()).collect()
}

#[test]
fn aggregate_of_no_failures_is_success() {
    assert!(aggregate(Vec::new()).is_ok());
    assert!(aggregate(vec![Ok(()), Ok(())]).is_ok());
}

#[test]
fn aggregate_collects_every_failure_in_order() {
    let r = aggregate(vec![
        Err(Error::NetworkFailure("first".to_string())),
        Ok(()),
        Err(Error::CorruptArchive),
    ]);
    match r {
        Err(Error::Aggregate(m)) => {
            assert_eq!(m.errors.len(), 2);
            assert!(matches!(&m.errors[0], Error::NetworkFailure(s) if s == "first"));
            assert!(matches!(m.errors[1], Error::CorruptArchive));
        }
        other => panic!("expected an aggregate failure, got {:?}", other),
    }
}

#[test]
fn one_failing_job_does_not_abort_its_sibling() {
    // Job A fails deterministically (its payload is not an archive); job B
    // succeeds. The orchestrator's join reports exactly A's failure, and
    // B's effects are fully present.
    let mut cd_a = CdManager::new(seg(&["dest", "a"]));
    let result_a: Result<(), Error> = unzip(b"simulated network garbage", &mut cd_a, false)
        .map(|_| ());

    let mut w = ZipWriter::new(Cursor::new(Vec::new()));
    w.start_file("ok.txt", FileOptions::default()).unwrap();
    w.write_all(b"b ran fine").unwrap();
    let payload_b = w.finish().unwrap().into_inner();
    let mut cd_b = CdManager::new(seg(&["dest", "b"]));
    let plan_b = unzip(&payload_b, &mut cd_b, false).unwrap();
    let result_b: Result<(), Error> = Ok(());

    let joined = aggregate(vec![result_a, result_b]);
    match joined {
        Err(Error::Aggregate(m)) => {
            assert_eq!(m.errors.len(), 1);
            assert!(matches!(m.errors[0], Error::CorruptArchive));
        }
        other => panic!("expected an aggregate failure, got {:?}", other),
    }
    assert_eq!(plan_b.actions.len(), 1);
}
