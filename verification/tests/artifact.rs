use rust_mcp_gateway::artifact::{
    check_item, plan_read, read_range, ArtifactError, Entry, Kind, Limits, Store,
};
use rust_mcp_gateway::span::Span;

fn limits() -> Limits {
    Limits { ttl: Span::from_secs(60), max_item_bytes: 8, max_total_bytes: 12 }
}

fn entry(name: &str, bytes: u64, age_secs: u64) -> Entry {
    Entry { name: name.into(), kind: Kind::File, bytes, age: Some(Span::from_secs(age_secs)) }
}

fn store(entries: Vec<Entry>) -> Store {
    Store::new(Kind::Directory, entries).unwrap()
}

#[test]
fn stores_sha256_and_reads_a_bounded_range() {
    let put = store(vec![]).put(b"abcdefgh", limits());
    let stored = put.placement.unwrap().stored(b"abcdefgh", limits());
    let found = store(vec![entry(&stored.id, 8, 0)]).read(&stored.id, limits());
    assert_eq!(found.file.unwrap(), stored.id);
    let read = read_range(b"abcdefgh", 2, 99, limits()).unwrap();
    assert_eq!(read.bytes, b"cdefgh");
    assert_eq!(read.total_bytes, 8);
    assert_eq!(read.sha256, stored.sha256);
}

#[test]
fn rejects_oversize_and_disk_pressure_then_reclaims_expired_items() {
    let refused = store(vec![]).put(b"012345678", limits());
    assert!(refused.placement.is_err());
    let stored = store(vec![]).put(b"12345678", limits()).placement.unwrap();
    let kept = entry(stored.id(), 8, 0);
    let mut full = store(vec![kept]);
    assert!(full.put(b"12345", limits()).placement.is_err());
    assert_eq!(full.cleanup(Span::from_secs(0)), vec![0]);
    assert!(full.put(b"12345", limits()).placement.is_ok());
}

#[test]
fn rejects_path_traversal_and_symlink_artifacts() {
    let mut store = store(vec![]);
    assert!(store.read("../secret", limits()).file.is_err());
    assert_eq!(
        plan_read(Some((Kind::Link, 11)), 0, 1, limits()),
        Err(ArtifactError::NotRegular)
    );
}

#[test]
fn the_root_must_be_a_directory_itself() {
    for kind in [Kind::File, Kind::Link, Kind::Other] {
        assert!(matches!(Store::new(kind, vec![]), Err(ArtifactError::IrregularRoot)));
    }
    assert_eq!(
        ArtifactError::IrregularRoot.message(),
        "artifact root must be a regular directory"
    );
}

#[test]
fn a_cleaning_takes_unfinished_and_expired_files_only() {
    let mut store = store(vec![
        entry(".x.partial", 1, 0),
        entry("young", 2, 59),
        entry("old", 3, 60),
        Entry { name: "ageless".into(), kind: Kind::File, bytes: 4, age: None },
        Entry { name: ".dir".into(), kind: Kind::Directory, bytes: 5, age: None },
        Entry { name: "link".into(), kind: Kind::Link, bytes: 6, age: Some(Span::from_secs(99)) },
    ]);
    assert_eq!(store.cleanup(Span::from_secs(60)), vec![0, 2]);
    assert_eq!(store.total_bytes(), Ok(6));
    assert_eq!(store.cleanup(Span::from_secs(60)), Vec::<usize>::new());
}

#[test]
fn a_put_cleans_first_and_keeps_the_total() {
    let mut store = store(vec![entry("old", 8, 61), entry("young", 4, 1)]);
    let put = store.put_as("id".into(), b"12345678", limits());
    assert_eq!(put.removed, vec![0]);
    let placement = put.placement.unwrap();
    assert_eq!(placement.id(), "id");
    assert_eq!(placement.temporary(), ".id.partial");
    let put = store.put_as("id".into(), b"123456789", limits());
    assert_eq!(put.placement.unwrap_err(), ArtifactError::ItemTooLarge);
    let wide = Limits { max_item_bytes: 99, ..limits() };
    let put = store.put_as("id".into(), b"123456789", wide);
    assert_eq!(put.placement.unwrap_err(), ArtifactError::TotalReached);
}

#[test]
fn the_sum_of_sizes_does_not_overflow() {
    let mut store = store(vec![entry("a", u64::MAX, 1), entry("b", 1, 1)]);
    assert_eq!(store.total_bytes(), Err(ArtifactError::AccountingOverflow));
    let put = store.put_as("id".into(), b"1", limits());
    assert_eq!(put.placement.unwrap_err(), ArtifactError::AccountingOverflow);
}

#[test]
fn what_is_told_of_an_artifact() {
    let stored = store(vec![])
        .put_as("id".into(), b"abc", limits())
        .placement
        .unwrap()
        .stored_at(b"abc", limits(), 100);
    assert_eq!(stored.id, "id");
    assert_eq!(
        stored.sha256,
        "ba7816bf8f01cfea414140de5dae2223b00361a396177a9cb410ff61f20015ad"
    );
    assert_eq!(stored.bytes, 3);
    assert_eq!(stored.expires_at_unix_seconds, 160);
    let late = store(vec![])
        .put_as("id".into(), b"abc", limits())
        .placement
        .unwrap()
        .stored_at(b"abc", limits(), u64::MAX - 1);
    assert_eq!(late.expires_at_unix_seconds, u64::MAX);
    let now = store(vec![]).put(b"abc", limits()).placement.unwrap().stored(b"abc", limits());
    assert!(now.expires_at_unix_seconds > 1_600_000_060);
}

#[test]
fn identifiers_have_one_spelling() {
    let store = store(vec![]);
    let plain = "67e5504410b1426f9247bb680e5fe0c8";
    let canonical = "67e55044-10b1-426f-9247-bb680e5fe0c8";
    for text in [
        plain.to_owned(),
        canonical.to_owned(),
        canonical.to_uppercase(),
        format!("{{{canonical}}}"),
        format!("URN:uuid:{canonical}"),
    ] {
        assert_eq!(store.path_for(&text), Ok(canonical.to_owned()));
    }
    for text in ["", "67e55044", "../67e5504410b1426f9247bb680e5fe0", "gé5504410b1426f9247bb680e5fe0c8"] {
        assert_eq!(store.path_for(text), Err(ArtifactError::InvalidId));
    }
}

#[test]
fn reads_are_bounded() {
    let file = |bytes| Some((Kind::File, bytes));
    assert_eq!(plan_read(file(10), 4, 99, limits()), Ok(6));
    assert_eq!(plan_read(file(100), 4, 99, limits()), Ok(8));
    assert_eq!(plan_read(file(100), 4, 3, limits()), Ok(3));
    assert_eq!(plan_read(file(4), 4, 3, limits()), Ok(0));
    assert_eq!(plan_read(file(4), 5, 3, limits()), Err(ArtifactError::OffsetTooLarge));
    assert_eq!(plan_read(None, 0, 3, limits()), Err(ArtifactError::NotFound));
    assert_eq!(
        plan_read(Some((Kind::Directory, 4)), 0, 3, limits()),
        Err(ArtifactError::NotRegular)
    );
    assert_eq!(read_range(b"ab", 3, 1, limits()), Err(ArtifactError::OffsetTooLarge));
    assert_eq!(ArtifactError::OffsetTooLarge.message(), "artifact offset exceeds content length");
    assert_eq!(ArtifactError::TooLargeForHost.message(), "artifact exceeds host size");
    assert_eq!(
        ArtifactError::OutOfRange.message(),
        "out of range integral type conversion attempted"
    );
}

#[test]
fn reads_one_after_the_other_give_the_whole() {
    let content = b"abcdefghij";
    let limits = Limits { max_item_bytes: 4, ..limits() };
    for limit in [1, 3, 9] {
        let mut whole = Vec::new();
        while whole.len() < content.len() {
            let read = read_range(content, whole.len(), limit, limits).unwrap();
            assert_eq!(read.total_bytes, 10);
            whole.extend(read.bytes);
        }
        assert_eq!(whole, content);
    }
}

#[test]
fn an_artifact_is_held_to_the_limit_on_one() {
    assert_eq!(check_item(8, limits()), Ok(()));
    assert_eq!(check_item(9, limits()), Err(ArtifactError::ItemTooLarge));
}
