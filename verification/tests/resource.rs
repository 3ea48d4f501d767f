use rust_mcp_gateway::encoding::{base64_encode, from_hex, to_hex};
use rust_mcp_gateway::name_map::NameMap;
use rust_mcp_gateway::resource::{
    check_read, gateway_resource_uri, list_resources, parse_gateway_resource_uri, rescope,
    resource_target, Answer, ContentUri, ErrorClass, Listed, ReadError, ReadOutcome,
    MAX_RESOURCE_BYTES,
};

#[test]
fn resource_routes_are_child_scoped_and_non_ambiguous() {
    let filesystem = gateway_resource_uri("filesystem", "file:///workspace/notes.txt");
    let git = gateway_resource_uri("git", "file:///workspace/notes.txt");
    assert_ne!(filesystem, git);
    assert_eq!(
        parse_gateway_resource_uri(&filesystem),
        Some(("filesystem".into(), "file:///workspace/notes.txt".into()))
    );
    assert!(parse_gateway_resource_uri("gateway-resource://filesystem/%2f").is_none());
    assert!(parse_gateway_resource_uri("file:///workspace/notes.txt").is_none());
}

#[test]
fn addresses_are_written_in_hexadecimal() {
    assert_eq!(gateway_resource_uri("git", "é/"), "gateway-resource://git/c3a92f");
    assert_eq!(
        parse_gateway_resource_uri("gateway-resource://git/C3A92f"),
        Some(("git".into(), "é/".into()))
    );
    for bad in [
        "gateway-resource://git",
        "gateway-resource://git/",
        "gateway-resource:///61",
        "gateway-resource://a b/61",
        "gateway-resource://git/6",
        "gateway-resource://git/6g",
        "gateway-resource://git/ff",
        "gateway-resource://git/61/62",
        "gateway-resource:/git/61",
        "gateway-resource://git/éé",
    ] {
        assert_eq!(parse_gateway_resource_uri(bad), None, "{bad}");
    }
    let longest = format!("gateway-resource://git/{}", "61".repeat(2048));
    assert!(parse_gateway_resource_uri(&longest).is_some());
    assert!(parse_gateway_resource_uri(&format!("{longest}61")).is_none());
}

#[test]
fn hexadecimal_reads_back() {
    let bytes: Vec<u8> = (0..=255).collect();
    let text = to_hex(&bytes);
    assert_eq!(&text[..8], "00010203");
    let chars: Vec<char> = text.chars().collect();
    assert_eq!(from_hex(&chars, 0), Some(bytes));
    assert_eq!(from_hex(&chars, 1), None);
}

#[test]
fn base64_is_padded() {
    assert_eq!(base64_encode(b""), "");
    assert_eq!(base64_encode(b"f"), "Zg==");
    assert_eq!(base64_encode(b"fo"), "Zm8=");
    assert_eq!(base64_encode(b"foo"), "Zm9v");
    assert_eq!(base64_encode(b"foobar"), "Zm9vYmFy");
    assert_eq!(base64_encode(&[0xfb, 0xff, 0xfe]), "+//+");
}

fn listed(uri: &str, name: &str) -> Listed {
    Listed { uri: uri.into(), name: name.into() }
}

#[test]
fn listings_go_child_by_child() {
    let answers = vec![
        Answer { child: "a".into(), resources: Some(vec![listed("x:1", "one")]) },
        Answer { child: "b".into(), resources: None },
        Answer {
            child: "c".into(),
            resources: Some(vec![
                listed("x:2", "two"),
                listed(&"u".repeat(2049), "long"),
                listed("x:3", "behind"),
            ]),
        },
    ];
    let placed = list_resources(&answers);
    assert_eq!(placed.len(), 2);
    assert_eq!(placed[0].name, "a:one");
    assert_eq!(placed[0].uri, "gateway-resource://a/783a31");
    assert_eq!((placed[1].answer, placed[1].place), (2, 0));
    assert_eq!(
        parse_gateway_resource_uri(&placed[1].uri),
        Some(("c".into(), "x:2".into()))
    );
}

#[test]
fn listings_are_bounded() {
    let many = |child: &str, n: usize| Answer {
        child: child.into(),
        resources: Some((0..n).map(|i| listed(&format!("x:{i}"), "r")).collect()),
    };
    assert_eq!(list_resources(&vec![many("a", 200), many("b", 200)]).len(), 256);
    let placed = list_resources(&vec![many("a", 300), many("b", 1)]);
    assert_eq!(placed.len(), 256);
    assert!(placed.iter().all(|entry| entry.answer == 0));
}

#[test]
fn resources_are_read_from_running_children() {
    let mut children: NameMap<u8> = NameMap::new();
    children.insert("git".into(), 1);
    assert_eq!(
        resource_target(&children, &gateway_resource_uri("git", "x:1")),
        Ok(("git".into(), "x:1".into()))
    );
    let error = resource_target(&children, &gateway_resource_uri("gone", "x:1")).unwrap_err();
    assert_eq!(error, ReadError::ChildUnavailable);
    assert_eq!(error.class(), ErrorClass::ResourceNotFound);
    let error = resource_target(&children, "x:1").unwrap_err();
    assert_eq!(error.message(), "unknown Gateway resource");
    assert_eq!(error.class(), ErrorClass::ResourceNotFound);
}

#[test]
fn answers_of_children_are_bounded() {
    assert_eq!(check_read(ReadOutcome::Answered(Some(MAX_RESOURCE_BYTES))), Ok(()));
    let error = check_read(ReadOutcome::Answered(Some(MAX_RESOURCE_BYTES + 1))).unwrap_err();
    assert_eq!(error.message(), "Gateway resource response exceeds 1 MiB bound");
    assert_eq!(error.class(), ErrorClass::InvalidParams);
    assert_eq!(check_read(ReadOutcome::Answered(None)), Err(ReadError::TooLarge));
    let error = check_read(ReadOutcome::TimedOut).unwrap_err();
    assert_eq!(error.message(), "Gateway resource read timed out");
    assert_eq!(error.class(), ErrorClass::InternalError);
    let error = check_read(ReadOutcome::Failed("eof".into())).unwrap_err();
    assert_eq!(error.message(), "Gateway resource read failed: eof");
}

#[test]
fn passed_on_parts_name_the_gateways_address() {
    assert_eq!(rescope(&ContentUri::Text("x".into()), "g"), ContentUri::Text("g".into()));
    assert_eq!(rescope(&ContentUri::Blob("x".into()), "g"), ContentUri::Blob("g".into()));
    assert_eq!(rescope(&ContentUri::Other, "g"), ContentUri::Other);
}

#[test]
fn base64_forms_join_after_whole_groups() {
    let (first, second) = (b"abcdef", b"ghij");
    let whole = base64_encode(b"abcdefghij");
    assert_eq!(whole, "YWJjZGVmZ2hpag==");
    assert_eq!(whole, base64_encode(first) + &base64_encode(second));
}

#[test]
fn any_names_without_a_slash_are_told_apart() {
    assert_ne!(gateway_resource_uri("a b", "x"), gateway_resource_uri("a  b", "x"));
    assert_ne!(gateway_resource_uri("", "x"), gateway_resource_uri("a", "x"));
    assert_ne!(gateway_resource_uri("a", "x"), gateway_resource_uri("a", "y"));
}
