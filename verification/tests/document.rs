use lib::document::{detect_kind, dotted, ArchiveObject, Kind};

fn root(stream: &str, message_type: u32) -> (String, ArchiveObject) {
    (
        stream.to_string(),
        ArchiveObject { identifier: 1, message_type, payload: Vec::new() },
    )
}

fn names(list: &[&str]) -> Vec<String> {
    list.iter().map(|n| n.to_string()).collect()
}

/// Numbers and Keynote both put message type 1 at object 1: the streams are
/// what tell them apart, and the root type decides only when they do not.
#[test]
fn the_app_is_told_by_its_streams_before_its_root() {
    let numbers = names(&["Index/Document.iwa", "Index/Tables/Tile-1007.iwa"]);
    assert_eq!(detect_kind(&numbers, &vec![root("Index/Document.iwa", 1)]), Kind::Numbers);
    let keynote = names(&["Index/Document.iwa", "Index/Slide-1031.iwa"]);
    assert_eq!(detect_kind(&keynote, &vec![root("Index/Document.iwa", 1)]), Kind::Keynote);
    let master = names(&["Index/TemplateSlide-1029.iwa"]);
    assert_eq!(detect_kind(&master, &vec![]), Kind::Keynote);
    let plain = names(&["Index/Document.iwa"]);
    assert_eq!(detect_kind(&plain, &vec![root("Index/Document.iwa", 10000)]), Kind::Pages);
    assert_eq!(detect_kind(&plain, &vec![root("Index/Document.iwa", 1)]), Kind::Numbers);
    assert_eq!(detect_kind(&plain, &vec![root("Index/Other.iwa", 10000)]), Kind::Unknown);
    assert_eq!(detect_kind(&plain, &vec![root("Index/Document.iwa", 7)]), Kind::Unknown);
}

#[test]
fn a_field_path_is_dotted() {
    assert_eq!(dotted(&vec![1, 1, 3]), "1.1.3");
    assert_eq!(dotted(&vec![12]), "12");
    assert_eq!(dotted(&vec![]), "");
}

use lib::document::{Component, DataFile, StorageInventory};

#[test]
fn a_component_lives_in_its_own_stream_or_its_name() {
    let shared = Component {
        identifier: 1,
        preferred_name: "Document".into(),
        file_name: String::new(),
        external_reference_count: 0,
    };
    assert_eq!(shared.stream_name(), "Index/Document.iwa");
    let own = Component {
        identifier: 2,
        preferred_name: "Tables/DataList".into(),
        file_name: "Tables/DataList-874443-2".into(),
        external_reference_count: 3,
    };
    assert_eq!(own.stream_name(), "Index/Tables/DataList-874443-2.iwa");
}

#[test]
fn media_is_stored_under_data_unless_it_is_a_theme_asset() {
    let stored = DataFile {
        identifier: 5,
        original_name: "photo.jpeg".into(),
        stored_name: "photo-5.jpeg".into(),
        asset_path: String::new(),
        digest: vec![],
    };
    assert_eq!(stored.entry_name(), Some("Data/photo-5.jpeg".to_string()));
    let asset = DataFile { stored_name: String::new(), ..stored };
    assert_eq!(asset.entry_name(), None);
}

#[test]
fn storage_kinds_have_names() {
    let mut storage = StorageInventory {
        identifier: 1,
        stream: "Index/Document.iwa".into(),
        kind: 0,
        length: 0,
        paragraphs: 0,
        tables: vec![],
        unknown_field: None,
    };
    assert_eq!(storage.kind_name(), "body");
    storage.kind = 3;
    assert_eq!(storage.kind_name(), "text box");
    storage.kind = 42;
    assert_eq!(storage.kind_name(), "undefined");
}

use lib::create::{message, nested, nested_message, string, varint};
use lib::document::{Document, Error, TYPE_HYPERLINK_FIELD, TYPE_PACKAGE_METADATA};
use lib::pb::{Message, Value};

fn object(identifier: u64, message_type: u32, payload: Vec<u8>) -> ArchiveObject {
    ArchiveObject { identifier, message_type, payload }
}

fn metadata() -> Vec<u8> {
    let declared = message(vec![varint(1, 4), varint(2, 900)]);
    let document = nested(
        3,
        vec![
            varint(1, 1),
            string(2, "Document"),
            nested_message(6, declared),
            nested(6, vec![varint(1, 7), varint(2, 901)]),
        ],
    );
    let tables = nested(
        3,
        vec![varint(1, 7), string(2, "Tables/DataList"), string(3, "Tables/DataList-7")],
    );
    let media = nested(
        4,
        vec![
            varint(1, 12),
            lib::create::bytes(2, vec![0xab, 0xcd]),
            string(3, "photo.jpeg"),
            string(4, "photo-12.jpeg"),
        ],
    );
    message(vec![varint(1, 5000), document, tables, media]).encode()
}

fn sample() -> Document {
    let streams = vec![
        (
            "Index/Tables/DataList-7.iwa".to_string(),
            vec![object(7, 6005, Vec::new()), object(70, 6006, vec![0x08, 0x01])],
        ),
        ("Index/Metadata.iwa".to_string(), vec![object(2, TYPE_PACKAGE_METADATA, metadata())]),
        ("Index/Document.iwa".to_string(), vec![object(1, 1, Vec::new()), object(3, 17, vec![0xff])]),
        ("Index/Empty.iwa".to_string(), vec![]),
    ];
    let entries = names(&[
        "Index/Document.iwa",
        "Index/Metadata.iwa",
        "Index/Tables/DataList-7.iwa",
        "Index/Empty.iwa",
    ]);
    Document::from_streams(&entries, streams)
}

#[test]
fn streams_are_kept_in_name_order() {
    let doc = sample();
    assert_eq!(
        doc.stream_names(),
        vec!["Index/Document.iwa", "Index/Empty.iwa", "Index/Metadata.iwa", "Index/Tables/DataList-7.iwa"]
    );
    let order: Vec<u64> = doc.objects().iter().map(|(_, o)| o.identifier).collect();
    assert_eq!(order, vec![1, 3, 2, 7, 70]);
    assert_eq!(doc.objects()[3].0, "Index/Tables/DataList-7.iwa");
    assert_eq!(doc.kind(), Kind::Numbers);
}

#[test]
fn a_later_stream_of_a_name_replaces_an_earlier_one() {
    let streams = vec![
        ("Index/Document.iwa".to_string(), vec![object(1, 10000, Vec::new())]),
        ("Index/Document.iwa".to_string(), vec![object(1, 1, Vec::new()), object(9, 2, Vec::new())]),
    ];
    let doc = Document::from_streams(&names(&["Index/Document.iwa"]), streams);
    assert_eq!(doc.stream_names(), vec!["Index/Document.iwa"]);
    assert_eq!(doc.objects().len(), 2);
    assert_eq!(doc.kind(), Kind::Numbers);
}

#[test]
fn an_object_is_found_by_its_identifier() {
    let doc = sample();
    let (stream, found) = doc.object(70).unwrap();
    assert_eq!(stream, "Index/Tables/DataList-7.iwa");
    assert_eq!(found.message_type, 6006);
    assert!(doc.object(71).is_none());
}

#[test]
fn the_package_index_lists_components_and_media() {
    let doc = sample();
    let components = doc.components();
    assert_eq!(components.len(), 2);
    assert_eq!(components[0].identifier, 1);
    assert_eq!(components[0].preferred_name, "Document");
    assert_eq!(components[0].file_name, "");
    assert_eq!(components[0].external_reference_count, 2);
    assert_eq!(components[1].stream_name(), "Index/Tables/DataList-7.iwa");
    let media = doc.data_files();
    assert_eq!(media.len(), 1);
    assert_eq!(media[0].identifier, 12);
    assert_eq!(media[0].digest, vec![0xab, 0xcd]);
    assert_eq!(media[0].original_name, "photo.jpeg");
    assert_eq!(media[0].entry_name(), Some("Data/photo-12.jpeg".to_string()));
    assert_eq!(media[0].asset_path, "");
}

#[test]
fn a_new_identifier_is_above_every_one_in_use_and_the_mark() {
    let doc = sample();
    assert_eq!(doc.last_object_identifier(), Some(5000));
    assert_eq!(doc.next_object_identifier(), 5001);
    let bare = Document::from_streams(
        &names(&["Index/Document.iwa"]),
        vec![("Index/Document.iwa".to_string(), vec![object(1, 1, Vec::new()), object(40, 2, Vec::new())])],
    );
    assert_eq!(bare.last_object_identifier(), None);
    assert_eq!(bare.next_object_identifier(), 41);
    assert!(bare.components().is_empty());
    assert!(bare.data_files().is_empty());
}

#[test]
fn an_archive_is_decoded_or_the_reason_is_given() {
    let doc = sample();
    let archive = doc.archive(70).unwrap();
    assert_eq!(archive.varint(1), Some(1));
    match doc.archive(3) {
        Err(Error::Format(text)) => {
            assert_eq!(text, "Index/Document.iwa: object 3: not a well-formed message");
        }
        _ => panic!("object 3 does not decode"),
    }
    assert!(matches!(doc.archive(99), Err(Error::NoSuchObject(99))));
}

#[test]
fn a_link_is_pointed_somewhere_else() {
    let link = message(vec![nested(1, vec![varint(1, 5)]), string(2, "https://example.com")]).encode();
    let mut doc = Document::from_streams(
        &names(&["Index/Document.iwa"]),
        vec![(
            "Index/Document.iwa".to_string(),
            vec![object(1, 10000, Vec::new()), object(8, TYPE_HYPERLINK_FIELD, link), object(9, 2001, Vec::new())],
        )],
    );
    doc.set_link_url(8, "https://example.org/ü").unwrap();
    let archive = doc.archive(8).unwrap();
    assert_eq!(archive.bytes(2), Some("https://example.org/ü".as_bytes()));
    assert!(matches!(archive.get(1), Some(Value::Bytes(_))));
    match doc.set_link_url(9, "x") {
        Err(Error::Format(text)) => {
            assert_eq!(text, "object 9 is a 2001 archive, not a hyperlink (2032)")
        }
        _ => panic!("object 9 is a storage"),
    }
    assert!(matches!(doc.set_link_url(10, "x"), Err(Error::NoSuchObject(10))));
    let mut bad = Document::from_streams(
        &names(&["Index/Document.iwa"]),
        vec![("Index/Document.iwa".to_string(), vec![object(8, TYPE_HYPERLINK_FIELD, vec![0xff])])],
    );
    match bad.set_link_url(8, "x") {
        Err(Error::Format(text)) => assert_eq!(text, "Index/Document.iwa: link 8: not a well-formed message"),
        _ => panic!("the link does not decode"),
    }
    let unchanged: Message = doc.archive(8).unwrap();
    assert_eq!(unchanged.fields.len(), 2);
}

#[test]
fn an_archive_is_written_in_place() {
    let mut doc = sample();
    let archive = message(vec![varint(1, 2), varint(4, 9)]);
    doc.set_archive(70, &archive).unwrap();
    let back = doc.archive(70).unwrap();
    assert_eq!(back.varint(1), Some(2));
    assert_eq!(back.varint(4), Some(9));
    assert_eq!(doc.object(70).unwrap().1.message_type, 6006);
    assert_eq!(doc.object(70).unwrap().0, "Index/Tables/DataList-7.iwa");
    assert!(matches!(doc.set_archive(71, &archive), Err(Error::NoSuchObject(71))));
}

#[test]
fn the_high_water_mark_only_rises() {
    let mut doc = sample();
    doc.set_last_object_identifier(4000).unwrap();
    assert_eq!(doc.last_object_identifier(), Some(5000));
    doc.set_last_object_identifier(6000).unwrap();
    assert_eq!(doc.last_object_identifier(), Some(6000));
    assert_eq!(doc.next_object_identifier(), 6001);
    assert_eq!(doc.components().len(), 2);
    let mut bare = Document::from_streams(
        &names(&["Index/Document.iwa"]),
        vec![("Index/Document.iwa".to_string(), vec![object(1, 1, Vec::new())])],
    );
    match bare.set_last_object_identifier(10) {
        Err(Error::Format(text)) => {
            assert_eq!(text, "no TSP.PackageMetadata: cannot allocate an object identifier safely")
        }
        _ => panic!("there is no package index"),
    }
    let mut broken = Document::from_streams(
        &names(&["Index/Metadata.iwa"]),
        vec![("Index/Metadata.iwa".to_string(), vec![object(2, TYPE_PACKAGE_METADATA, vec![0xff])])],
    );
    match broken.set_last_object_identifier(10) {
        Err(Error::Format(text)) => {
            assert_eq!(text, "package metadata: not a well-formed message");
        }
        _ => panic!("the index does not decode"),
    }
}

#[test]
fn a_kind_is_read_from_the_file_name_extension() {
    assert_eq!(Kind::from_extension("report.pages"), Kind::Pages);
    assert_eq!(Kind::from_extension("dir/Budget.NUMBERS"), Kind::Numbers);
    assert_eq!(Kind::from_extension("talk.key/"), Kind::Keynote);
    assert_eq!(Kind::from_extension("talk.key/."), Kind::Keynote);
    assert_eq!(Kind::from_extension("talk.key/./"), Kind::Keynote);
    assert_eq!(Kind::from_extension(".pages"), Kind::Unknown);
    assert_eq!(Kind::from_extension("x.pages/.."), Kind::Unknown);
    assert_eq!(Kind::from_extension("."), Kind::Unknown);
    assert_eq!(Kind::from_extension("notes.txt"), Kind::Unknown);
}
