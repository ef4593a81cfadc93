use lib::document::{ArchiveObject, Kind};
use lib::drawable::{containers, drawable_path, is_geometry, is_point, Placement};
use lib::pb::{Message, Value};

fn point(x: f32, y: f32) -> Message {
    let mut message = Message::default();
    message.set_in_order(1, Value::Fixed32(x.to_le_bytes()));
    message.set_in_order(2, Value::Fixed32(y.to_le_bytes()));
    message
}

fn geometry(x: f32, y: f32, w: f32, h: f32, flags: u32, angle: f32) -> Message {
    let mut message = Message::default();
    message.set_in_order(1, Value::Bytes(point(x, y).encode()));
    message.set_in_order(2, Value::Bytes(point(w, h).encode()));
    message.set_in_order(3, Value::Varint(u64::from(flags)));
    message.set_in_order(4, Value::Fixed32(angle.to_le_bytes()));
    message
}

/// The whole enumeration hangs off finding the drawable archive at an
/// unknown depth. Four levels is what a Keynote placeholder needs.
#[test]
fn the_drawable_is_found_at_any_depth() {
    let mut drawable = Message::default();
    drawable.set_in_order(
        1,
        Value::Bytes(geometry(1.0, 2.0, 3.0, 4.0, 3, 0.0).encode()),
    );

    let mut level = drawable.clone();
    for depth in 0..4 {
        let path = drawable_path(&level).expect("found");
        assert_eq!(path.len(), depth);
        let mut outer = Message::default();
        outer.set_in_order(1, Value::Bytes(level.encode()));
        level = outer;
    }
}

#[test]
fn a_message_with_no_geometry_is_not_a_drawable() {
    let mut message = Message::default();
    message.set_in_order(1, Value::Bytes(b"not a message".to_vec()));
    assert_eq!(drawable_path(&message), None);
    assert_eq!(drawable_path(&Message::default()), None);
}

/// A point is two floats; a geometry holds two of them. Neither must be
/// mistaken for the other, or the walk stops one level too early.
#[test]
fn a_point_is_not_a_geometry() {
    assert!(is_point(&point(1.0, 2.0)));
    assert!(!is_geometry(&point(1.0, 2.0)));
    assert!(is_geometry(&geometry(0.0, 0.0, 1.0, 1.0, 3, 0.0)));
}

fn reference(identifier: u64) -> Value {
    let mut message = Message::default();
    message.set_in_order(1, Value::Varint(identifier));
    Value::Bytes(message.encode())
}

fn object(stream: &str, identifier: u64, message_type: u32, archive: &Message) -> (String, ArchiveObject) {
    (
        stream.to_string(),
        ArchiveObject { identifier, message_type, payload: archive.encode() },
    )
}

/// The first container to name a drawable places it; a sheet names its own
/// drawables in order, and a group its children.
#[test]
fn the_first_container_places_a_drawable() {
    let mut sheet = Message::default();
    sheet.set_in_order(1, Value::Bytes(b"Sheet 1".to_vec()));
    sheet.append_in_order(2, reference(10));
    sheet.append_in_order(2, reference(11));
    let mut group = Message::default();
    group.append_in_order(2, reference(11));
    group.append_in_order(2, reference(12));
    let objects = vec![
        object("Index/Document.iwa", 1, 2, &sheet),
        object("Index/Document.iwa", 50, 3008, &group),
    ];
    let placed = containers(Kind::Numbers, &objects);
    assert_eq!(placed.len(), 3);
    assert_eq!(placed[&10], (Placement::Sheet("Sheet 1".to_string()), 0));
    assert_eq!(placed[&11], (Placement::Sheet("Sheet 1".to_string()), 1));
    assert_eq!(placed[&12], (Placement::Group(50), 1));
    // A sheet archive means nothing in a Keynote document.
    let placed = containers(Kind::Keynote, &objects);
    assert_eq!(placed.len(), 2);
    assert_eq!(placed[&11], (Placement::Group(50), 0));
}

/// A Keynote slide is named after its stream; Pages' z-order gives depths,
/// and what only it lists is unplaced.
#[test]
fn slides_are_named_by_stream_and_the_z_order_gives_depth() {
    let mut slide = Message::default();
    slide.append_in_order(7, reference(20));
    let objects = vec![object("Index/Slide-7.iwa", 3, 5, &slide)];
    let placed = containers(Kind::Keynote, &objects);
    assert_eq!(placed[&20], (Placement::Slide("Slide-7".to_string()), 0));

    let mut template = Message::default();
    template.append_in_order(3, reference(30));
    template.append_in_order(3, reference(31));
    let mut order = Message::default();
    order.append_in_order(1, reference(99));
    order.append_in_order(1, reference(31));
    let objects = vec![
        object("Index/Document.iwa", 4, 10143, &template),
        object("Index/Document.iwa", 5, 10015, &order),
    ];
    let placed = containers(Kind::Pages, &objects);
    assert_eq!(placed.len(), 3);
    assert_eq!(placed[&30], (Placement::SectionTemplate(4), 0));
    assert_eq!(placed[&31], (Placement::SectionTemplate(4), 1));
    assert_eq!(placed[&99], (Placement::Unknown, 0));
}

/// Floating drawables are filed page by page, through a wrapper; anchored
/// ones through the storage's attachment table and the attachment object.
#[test]
fn floating_and_anchored_drawables_are_placed() {
    let mut wrapper = Message::default();
    wrapper.set_in_order(1, reference(40));
    let mut page = Message::default();
    page.set_in_order(1, Value::Varint(2));
    page.append_in_order(4, Value::Varint(7));
    page.append_in_order(4, Value::Bytes(wrapper.encode()));
    let mut floating = Message::default();
    floating.append_in_order(1, Value::Bytes(page.encode()));

    let mut attachment = Message::default();
    attachment.set_in_order(1, reference(41));
    let mut entry = Message::default();
    entry.set_in_order(1, Value::Varint(12));
    entry.set_in_order(2, reference(60));
    let mut table = Message::default();
    table.append_in_order(1, Value::Bytes(entry.encode()));
    let mut storage = Message::default();
    storage.set_in_order(9, Value::Bytes(table.encode()));

    let objects = vec![
        object("Index/Document.iwa", 6, 10010, &floating),
        object("Index/Document.iwa", 7, 2001, &storage),
        object("Index/Document.iwa", 60, 2032, &attachment),
    ];
    let placed = containers(Kind::Pages, &objects);
    assert_eq!(placed.len(), 2);
    assert_eq!(placed[&40], (Placement::Floating { page: 2 }, 1));
    assert_eq!(placed[&41], (Placement::InText { storage: 7, character: 12 }, 0));
    assert_eq!(placed[&41].0.as_str(), "anchored in storage 7 at character 12");
}

use lib::drawable::Kind as DrawableKind;

#[test]
fn images_and_movies_are_media() {
    assert!(DrawableKind::Image.is_media());
    assert!(DrawableKind::Movie.is_media());
    assert!(!DrawableKind::Shape.is_media());
    assert!(!DrawableKind::Group.is_media());
}
