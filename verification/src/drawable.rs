//! `TSD` — the objects placed on a page, a slide or a sheet.
//!
//! Every image, shape, group, table and chart embeds a `TSD.DrawableArchive`
//! somewhere inside its own archive, and where it sits depends on the class:
//! `[1]` for an image, `[1, 1]` for a shape info, `[1, 1, 1]` for a Keynote
//! placeholder. Rather than keep a table of paths, this module finds it by
//! shape — a message whose field 1 is a geometry — and names what kind of
//! thing the object is from its message type.

pub mod field;

use vstd::prelude::*;

use std::collections::BTreeMap;

use vstd::utf8::{decode_utf8, valid_utf8};

use crate::annotations::{reference as reference_at, references, spec_reference_at, spec_references, TYPE_STORAGE};
use crate::chars::{push_decimal, push_str, to_string, string_chars, decimal, utf8_text};
use crate::document::{ArchiveObject, Kind as DocumentKind};
use crate::formula::nested_field;
use crate::pb::{
    bytes_field, decode_nested, fields_of, first_with, nested_of, values_with, varint_field, Message,
    SpecField, SpecValue, Value,
};

verus! {

broadcast use vstd::std_specs::btree::group_btree_axioms, vstd::laws_cmp::group_laws_cmp;

pub const TYPE_DRAWABLE: u32 = 3002;
pub const TYPE_CONTAINER: u32 = 3003;
pub const TYPE_SHAPE: u32 = 3004;
pub const TYPE_IMAGE: u32 = 3005;
pub const TYPE_MASK: u32 = 3006;
pub const TYPE_MOVIE: u32 = 3007;
pub const TYPE_GROUP: u32 = 3008;
pub const TYPE_CONNECTION_LINE: u32 = 3009;
pub const TYPE_SHAPE_INFO: u32 = 2011;
pub const TYPE_COMMENT_INFO: u32 = 2014;
pub const TYPE_EQUATION_INFO: u32 = 2015;
pub const TYPE_TOC_INFO: u32 = 2240;
pub const TYPE_CAPTION_INFO: u32 = 633;
pub const TYPE_TABLE_INFO: u32 = 6000;
pub const TYPE_WP_TABLE_INFO: u32 = 6007;
pub const TYPE_CHART_INFO: u32 = 5000;
pub const TYPE_CHART_DRAWABLE: u32 = 5021;
pub const TYPE_PLACEHOLDER: u32 = 7;
pub const TYPE_PLACEHOLDER_ALIAS: u32 = 12;

/// What kind of thing a drawable is, as far as its message type says.
#[derive(Debug, Clone, Copy, PartialEq, Eq, Structural)]
pub enum Kind {
    Shape,
    Image,
    Mask,
    Movie,
    Group,
    ConnectionLine,
    Table,
    Chart,
    Placeholder,
    Comment,
    Equation,
    Caption,
    Contents,
    Other,
}

pub open spec fn spec_kind_of(message_type: u32) -> Option<Kind> {
    if message_type == TYPE_SHAPE || message_type == TYPE_SHAPE_INFO {
        Some(Kind::Shape)
    } else if message_type == TYPE_IMAGE {
        Some(Kind::Image)
    } else if message_type == TYPE_MASK {
        Some(Kind::Mask)
    } else if message_type == TYPE_MOVIE {
        Some(Kind::Movie)
    } else if message_type == TYPE_GROUP {
        Some(Kind::Group)
    } else if message_type == TYPE_CONNECTION_LINE {
        Some(Kind::ConnectionLine)
    } else if message_type == TYPE_TABLE_INFO || message_type == TYPE_WP_TABLE_INFO {
        Some(Kind::Table)
    } else if message_type == TYPE_CHART_INFO || message_type == TYPE_CHART_DRAWABLE {
        Some(Kind::Chart)
    } else if message_type == TYPE_PLACEHOLDER || message_type == TYPE_PLACEHOLDER_ALIAS {
        Some(Kind::Placeholder)
    } else if message_type == TYPE_COMMENT_INFO {
        Some(Kind::Comment)
    } else if message_type == TYPE_EQUATION_INFO {
        Some(Kind::Equation)
    } else if message_type == TYPE_CAPTION_INFO {
        Some(Kind::Caption)
    } else if message_type == TYPE_TOC_INFO {
        Some(Kind::Contents)
    } else {
        None
    }
}

pub open spec fn spec_kind_name(kind: Kind) -> Seq<char> {
    match kind {
        Kind::Shape => "shape"@,
        Kind::Image => "image"@,
        Kind::Mask => "mask"@,
        Kind::Movie => "movie"@,
        Kind::Group => "group"@,
        Kind::ConnectionLine => "connection line"@,
        Kind::Table => "table"@,
        Kind::Chart => "chart"@,
        Kind::Placeholder => "placeholder"@,
        Kind::Comment => "comment"@,
        Kind::Equation => "equation"@,
        Kind::Caption => "caption"@,
        Kind::Contents => "table of contents"@,
        Kind::Other => "drawable"@,
    }
}

impl Kind {
    /// The kind a message type is, when it is a drawable's.
    pub fn of(message_type: u32) -> (r: Option<Kind>)
        ensures
            r == spec_kind_of(message_type),
    {
        if message_type == TYPE_SHAPE || message_type == TYPE_SHAPE_INFO {
            Some(Kind::Shape)
        } else if message_type == TYPE_IMAGE {
            Some(Kind::Image)
        } else if message_type == TYPE_MASK {
            Some(Kind::Mask)
        } else if message_type == TYPE_MOVIE {
            Some(Kind::Movie)
        } else if message_type == TYPE_GROUP {
            Some(Kind::Group)
        } else if message_type == TYPE_CONNECTION_LINE {
            Some(Kind::ConnectionLine)
        } else if message_type == TYPE_TABLE_INFO || message_type == TYPE_WP_TABLE_INFO {
            Some(Kind::Table)
        } else if message_type == TYPE_CHART_INFO || message_type == TYPE_CHART_DRAWABLE {
            Some(Kind::Chart)
        } else if message_type == TYPE_PLACEHOLDER || message_type == TYPE_PLACEHOLDER_ALIAS {
            Some(Kind::Placeholder)
        } else if message_type == TYPE_COMMENT_INFO {
            Some(Kind::Comment)
        } else if message_type == TYPE_EQUATION_INFO {
            Some(Kind::Equation)
        } else if message_type == TYPE_CAPTION_INFO {
            Some(Kind::Caption)
        } else if message_type == TYPE_TOC_INFO {
            Some(Kind::Contents)
        } else {
            None
        }
    }

    pub fn as_str(self) -> (r: &'static str)
        ensures
            r@ == spec_kind_name(self),
    {
        match self {
            Kind::Shape => "shape",
            Kind::Image => "image",
            Kind::Mask => "mask",
            Kind::Movie => "movie",
            Kind::Group => "group",
            Kind::ConnectionLine => "connection line",
            Kind::Table => "table",
            Kind::Chart => "chart",
            Kind::Placeholder => "placeholder",
            Kind::Comment => "comment",
            Kind::Equation => "equation",
            Kind::Caption => "caption",
            Kind::Contents => "table of contents",
            Kind::Other => "drawable",
        }
    }

    /// Media drawables keep an `originalSize` beside their geometry, and the
    /// app maintains the two together.
    pub fn is_media(self) -> (r: bool)
        ensures
            r == (self == Kind::Image || self == Kind::Movie),
    {
        match self {
            Kind::Image | Kind::Movie => true,
            _ => false,
        }
    }
}

/// Which of the six generators draws a shape's outline.
#[derive(Debug, Clone, Copy, PartialEq, Eq, Structural)]
pub enum PathSourceKind {
    /// Arrows, stars, plus signs — one control point.
    Point,
    /// Rounded rectangle, polygon, chevron — one scalar.
    Scalar,
    /// A baked path.
    Bezier,
    /// A speech bubble.
    Callout,
    /// A connector between two objects.
    ConnectionLine,
    /// A user-editable node list.
    EditableBezier,
}

/// How a stroke's dash pattern reads.
///
/// Dashes and dots are the *same* `TSDPattern` type — the difference is that a
/// dotted pattern's first entry is smaller than 1.
#[derive(Debug, Clone, Copy, PartialEq, Eq, Structural)]
pub enum StrokePattern {
    /// A solid line.
    Solid,
    /// No line at all.
    Empty,
    Dashed,
    Dotted,
}

/// Where a drawable sits, as the document says rather than as it is drawn.
#[derive(Debug, Clone, PartialEq, Eq)]
pub enum Placement {
    /// A Numbers sheet.
    Sheet(String),
    /// A Keynote slide, by the stream that holds it.
    Slide(String),
    /// A Pages section template — the page furniture a template puts down.
    SectionTemplate(u64),
    /// Pages' floating drawables: on the page, out of the text flow, on the
    /// page the archive files them under.
    Floating { page: u32 },
    /// Anchored in or inline with text, at a character index.
    InText { storage: u64, character: u64 },
    /// A child of a group.
    Group(u64),
    /// The mask of an image, or an image's caption or title.
    PartOf(u64),
    Unknown,
}

/// A placement in words; a floating page is counted from one.
pub open spec fn spec_placement_text(p: Placement) -> Seq<char> {
    match p {
        Placement::Sheet(name) => "sheet "@ + name@,
        Placement::Slide(stream) => "slide "@ + stream@,
        Placement::SectionTemplate(owner) => "section template "@ + decimal(owner as nat),
        Placement::Floating { page } => "floating on page "@ + decimal((page + 1) as nat),
        Placement::InText { storage, character } => "anchored in storage "@ + decimal(
            storage as nat,
        ) + " at character "@ + decimal(character as nat),
        Placement::Group(owner) => "in group "@ + decimal(owner as nat),
        Placement::PartOf(owner) => "part of "@ + decimal(owner as nat),
        Placement::Unknown => "unplaced"@,
    }
}

fn push_string(out: &mut Vec<char>, s: &String)
    ensures
        final(out)@ == old(out)@ + s@,
{
    push_str(out, s.as_str());
}

impl Placement {
    pub fn as_str(&self) -> (r: String)
        requires
            self matches Placement::Floating { page } ==> page < u32::MAX,
        ensures
            r@ == spec_placement_text(*self),
    {
        let mut out: Vec<char> = Vec::new();
        match self {
            Placement::Sheet(name) => {
                push_str(&mut out, "sheet ");
                push_string(&mut out, name);
            },
            Placement::Slide(stream) => {
                push_str(&mut out, "slide ");
                push_string(&mut out, stream);
            },
            Placement::SectionTemplate(owner) => {
                push_str(&mut out, "section template ");
                push_decimal(&mut out, *owner);
            },
            Placement::Floating { page } => {
                push_str(&mut out, "floating on page ");
                push_decimal(&mut out, (*page + 1) as u64);
            },
            Placement::InText { storage, character } => {
                push_str(&mut out, "anchored in storage ");
                push_decimal(&mut out, *storage);
                push_str(&mut out, " at character ");
                push_decimal(&mut out, *character);
            },
            Placement::Group(owner) => {
                push_str(&mut out, "in group ");
                push_decimal(&mut out, *owner);
            },
            Placement::PartOf(owner) => {
                push_str(&mut out, "part of ");
                push_decimal(&mut out, *owner);
            },
            Placement::Unknown => {
                push_str(&mut out, "unplaced");
            },
        }
        assert(out@ =~= spec_placement_text(*self));
        to_string(&out)
    }
}

// -- finding the drawable archive ------------------------------------------------------

/// Whether a message looks like a `TSP.Point` or `TSP.Size` — two floats, at
/// fields 1 and 2, and nothing else.
pub open spec fn spec_is_point(fs: Seq<SpecField>) -> bool {
    fs.len() > 0 && forall|i: int| 0 <= i < fs.len() ==> #[trigger] point_field(fs[i])
}

/// A coordinate of a point: a float at field 1 or 2.
pub open spec fn point_field(f: SpecField) -> bool {
    (f.number == 1 || f.number == 2) && f.value is Fixed32
}

/// Whether field `number` holds a point.
pub open spec fn point_at(fs: Seq<SpecField>, number: u32) -> bool {
    match nested_field(fs, number) {
        Some(p) => spec_is_point(p),
        None => false,
    }
}

/// The wire type a geometry gives each of its fields: a point and a size, a
/// small varint of flags, a float angle — and nothing else.
pub open spec fn geometry_field_fits(f: SpecField) -> bool {
    if f.number == 1 || f.number == 2 {
        f.value is Bytes
    } else if f.number == 3 {
        f.value is Varint
    } else if f.number == 4 {
        f.value is Fixed32
    } else {
        false
    }
}

/// Whether a message looks like a `TSD.GeometryArchive`: a point at field 1 or
/// a size at field 2, and only the four fields a geometry has.
pub open spec fn spec_is_geometry(fs: Seq<SpecField>) -> bool {
    (point_at(fs, 1) || point_at(fs, 2)) && forall|i: int|
        0 <= i < fs.len() ==> #[trigger] geometry_field_fits(fs[i])
}

/// Does this message look like a `TSP.Point` or `TSP.Size` — two floats?
pub fn is_point(message: &Message) -> (r: bool)
    ensures
        r == spec_is_point(message@),
{
    if message.fields.len() == 0 {
        return false;
    }
    let mut i: usize = 0;
    while i < message.fields.len()
        invariant
            i <= message.fields@.len(),
            message@.len() == message.fields@.len(),
            message@.len() > 0,
            forall|k: int| 0 <= k < i ==> #[trigger] point_field(message@[k]),
        decreases message.fields@.len() - i,
    {
        let f = &message.fields[i];
        assert(message@[i as int] == f@);
        let fits = (f.number == 1 || f.number == 2) && match f.value {
            Value::Fixed32(_) => true,
            _ => false,
        };
        if !fits {
            assert(!point_field(message@[i as int]));
            return false;
        }
        i = i + 1;
    }
    true
}

fn point_at_field(message: &Message, number: u32) -> (r: bool)
    ensures
        r == point_at(message@, number),
{
    match crate::formula::nested(message, number) {
        Some(p) => is_point(&p),
        None => false,
    }
}

/// Does this message look like a `TSD.GeometryArchive`?
///
/// The test is structural rather than positional because the whole point of
/// [`drawable_path`] is not to assume how deep the drawable sits: a geometry is
/// a message whose first two fields are a point and a size, whose field 3 is a
/// small varint and whose field 4 is a float.
pub fn is_geometry(message: &Message) -> (r: bool)
    ensures
        r == spec_is_geometry(message@),
{
    if !point_at_field(message, 1) && !point_at_field(message, 2) {
        return false;
    }
    let mut i: usize = 0;
    while i < message.fields.len()
        invariant
            i <= message.fields@.len(),
            message@.len() == message.fields@.len(),
            point_at(message@, 1) || point_at(message@, 2),
            forall|k: int| 0 <= k < i ==> #[trigger] geometry_field_fits(message@[k]),
        decreases message.fields@.len() - i,
    {
        let f = &message.fields[i];
        assert(message@[i as int] == f@);
        let fits = if f.number == 1 || f.number == 2 {
            match f.value {
                Value::Bytes(_) => true,
                _ => false,
            }
        } else if f.number == 3 {
            match f.value {
                Value::Varint(_) => true,
                _ => false,
            }
        } else if f.number == 4 {
            match f.value {
                Value::Fixed32(_) => true,
                _ => false,
            }
        } else {
            false
        };
        if !fits {
            assert(!geometry_field_fits(message@[i as int]));
            return false;
        }
        i = i + 1;
    }
    true
}

/// The field path from a message to the drawable archive inside it, looking
/// at most `depth` levels down through field 1.
pub open spec fn spec_walk(fs: Seq<SpecField>, depth: nat) -> Option<Seq<u32>>
    decreases depth,
{
    if depth == 0 {
        None
    } else {
        match nested_field(fs, 1) {
            None => None,
            Some(inner) => if spec_is_geometry(inner) {
                Some(Seq::empty())
            } else {
                match spec_walk(inner, (depth - 1) as nat) {
                    Some(path) => Some(seq![1u32] + path),
                    None => None,
                }
            },
        }
    }
}

/// The drawable archive's path: `super` is field 1 everywhere, so this walks
/// field 1 until it finds a message whose own field 1 is a geometry — at most
/// eight levels, so that a cycle or a misidentified payload cannot run away.
pub open spec fn spec_drawable_path(fs: Seq<SpecField>) -> Option<Seq<u32>> {
    spec_walk(fs, 8)
}

fn walk(message: &Message, depth: usize) -> (r: Option<Vec<u32>>)
    ensures
        match spec_walk(message@, depth as nat) {
            Some(p) => r matches Some(v) && v@ == p,
            None => r is None,
        },
    decreases depth,
{
    if depth == 0 {
        return None;
    }
    let inner = match crate::formula::nested(message, 1) {
        Some(m) => m,
        None => return None,
    };
    if is_geometry(&inner) {
        return Some(Vec::new());
    }
    let mut path = match walk(&inner, depth - 1) {
        Some(p) => p,
        None => return None,
    };
    let ghost rest = path@;
    path.insert(0, 1);
    assert(path@ =~= seq![1u32] + rest);
    Some(path)
}

/// Field path from an object's payload to the `TSD.DrawableArchive` inside it.
///
/// Returns an empty path when the payload *is* the drawable archive. Four
/// levels is the deepest real documents go (`KN.PlaceholderArchive`).
pub fn drawable_path(archive: &Message) -> (r: Option<Vec<u32>>)
    ensures
        match spec_drawable_path(archive@) {
            Some(p) => r matches Some(v) && v@ == p,
            None => r is None,
        },
{
    walk(archive, 8)
}

/// Whether a field with this number is present.
pub open spec fn has_field(fs: Seq<SpecField>, number: u32) -> bool {
    first_with(fs, number) is Some
}

/// Which framework has grafted fields onto this archive. Proto2 extensions
/// look like plain high-numbered fields on the wire, so the only way to name
/// one is to know which host message it belongs to.
pub open spec fn spec_extensions(kind: Kind, body: Seq<SpecField>) -> Seq<Seq<char>> {
    match kind {
        Kind::Image => (if has_field(body, 200) {
            seq!["gallery"@]
        } else {
            Seq::empty()
        }) + (if has_field(body, 300) {
            seq!["web video"@]
        } else {
            Seq::empty()
        }) + (if has_field(body, 100) || has_field(body, 101) || has_field(body, 102)
            || has_field(body, 103) {
            seq!["equation"@]
        } else {
            Seq::empty()
        }),
        Kind::Movie => (if has_field(body, 100) {
            seq!["live video"@]
        } else {
            Seq::empty()
        }) + (if has_field(body, 200) {
            seq!["3D object"@]
        } else {
            Seq::empty()
        }),
        Kind::Group => if has_field(body, 100) {
            seq!["freehand drawing"@]
        } else {
            Seq::empty()
        },
        _ => Seq::empty(),
    }
}

pub fn extensions(kind: Kind, body: &Message) -> (r: Vec<&'static str>)
    ensures
        r@.len() == spec_extensions(kind, body@).len(),
        forall|i: int| 0 <= i < r@.len() ==> r@[i]@ == spec_extensions(kind, body@)[i],
{
    let mut out: Vec<&'static str> = Vec::new();
    match kind {
        Kind::Image => {
            if body.get(200).is_some() {
                out.push("gallery");
            }
            let ghost a = out@;
            if body.get(300).is_some() {
                out.push("web video");
            }
            let ghost b = out@;
            if body.get(100).is_some() || body.get(101).is_some() || body.get(102).is_some()
                || body.get(103).is_some() {
                out.push("equation");
            }
            proof {
                let s = spec_extensions(kind, body@);
                assert(out@.len() == s.len());
                assert forall|i: int| 0 <= i < out@.len() implies out@[i]@ == s[i] by {
                    let first = if has_field(body@, 200) {
                        seq!["gallery"@]
                    } else {
                        Seq::<Seq<char>>::empty()
                    };
                    let second = if has_field(body@, 300) {
                        seq!["web video"@]
                    } else {
                        Seq::<Seq<char>>::empty()
                    };
                    assert(a.len() == first.len());
                    assert(b.len() == first.len() + second.len());
                }
            }
        },
        Kind::Movie => {
            if body.get(100).is_some() {
                out.push("live video");
            }
            if body.get(200).is_some() {
                out.push("3D object");
            }
        },
        Kind::Group => {
            if body.get(100).is_some() {
                out.push("freehand drawing");
            }
        },
        _ => {},
    }
    out
}

/// A `TSP.Reference` or `TSP.DataReference` — both are `{1: identifier}`.
pub open spec fn spec_reference(b: Seq<u8>) -> Option<u64> {
    match nested_of(b) {
        Some(m) => varint_field(m, 1),
        None => None,
    }
}

pub fn reference(bytes: &[u8]) -> (r: Option<u64>)
    ensures
        r == spec_reference(bytes@),
{
    match decode_nested(bytes) {
        Some(m) => m.varint(1),
        None => None,
    }
}


// -- where drawables sit ---------------------------------------------------------------

/// A placement as a mathematical object.
pub enum PlacementView {
    Sheet(Seq<char>),
    Slide(Seq<char>),
    SectionTemplate(u64),
    Floating { page: u32 },
    InText { storage: u64, character: u64 },
    Group(u64),
    PartOf(u64),
    Unknown,
}

impl View for Placement {
    type V = PlacementView;

    open spec fn view(&self) -> PlacementView {
        match self {
            Placement::Sheet(name) => PlacementView::Sheet(name@),
            Placement::Slide(stream) => PlacementView::Slide(stream@),
            Placement::SectionTemplate(owner) => PlacementView::SectionTemplate(*owner),
            Placement::Floating { page } => PlacementView::Floating { page: *page },
            Placement::InText { storage, character } => PlacementView::InText {
                storage: *storage,
                character: *character,
            },
            Placement::Group(owner) => PlacementView::Group(*owner),
            Placement::PartOf(owner) => PlacementView::PartOf(*owner),
            Placement::Unknown => PlacementView::Unknown,
        }
    }
}

impl Placement {
    /// The same placement, again.
    pub fn duplicate(&self) -> (r: Placement)
        ensures
            r@ == self@,
    {
        match self {
            Placement::Sheet(name) => Placement::Sheet(name.clone()),
            Placement::Slide(stream) => Placement::Slide(stream.clone()),
            Placement::SectionTemplate(owner) => Placement::SectionTemplate(*owner),
            Placement::Floating { page } => Placement::Floating { page: *page },
            Placement::InText { storage, character } => Placement::InText {
                storage: *storage,
                character: *character,
            },
            Placement::Group(owner) => Placement::Group(*owner),
            Placement::PartOf(owner) => Placement::PartOf(*owner),
            Placement::Unknown => Placement::Unknown,
        }
    }
}

/// A field's text, when its bytes are UTF-8.
pub open spec fn utf8_field(fs: Seq<SpecField>, number: u32) -> Option<Seq<char>> {
    match bytes_field(fs, number) {
        Some(b) => if valid_utf8(b) {
            Some(decode_utf8(b))
        } else {
            None
        },
        None => None,
    }
}

fn string(message: &Message, number: u32) -> (r: Option<String>)
    ensures
        match utf8_field(message@, number) {
            Some(t) => r matches Some(s) && s@ == t,
            None => r is None,
        },
{
    match message.bytes(number) {
        Some(b) => utf8_text(b),
        None => None,
    }
}

/// What follows the last `/`, or the whole text when there is none.
pub open spec fn last_segment(s: Seq<char>) -> Seq<char>
    decreases s.len(),
{
    if s.len() == 0 {
        s
    } else if s.last() == '/' {
        Seq::empty()
    } else {
        last_segment(s.drop_last()).push(s.last())
    }
}

/// The text with every trailing `.iwa` taken off.
pub open spec fn without_iwa(s: Seq<char>) -> Seq<char>
    decreases s.len(),
{
    if s.len() >= 4 && s.subrange(s.len() - 4, s.len() as int) == seq!['.', 'i', 'w', 'a'] {
        without_iwa(s.subrange(0, s.len() - 4))
    } else {
        s
    }
}

/// The slide a Keynote stream holds: the last segment of its name, without
/// the extension.
pub open spec fn slide_name(stream: Seq<char>) -> Seq<char> {
    without_iwa(last_segment(stream))
}

fn slide_of(stream: &String) -> (r: String)
    ensures
        r@ == slide_name(stream@),
{
    let chars = string_chars(stream);
    let n = chars.len();
    let mut start: usize = 0;
    let mut i: usize = 0;
    while i < n
        invariant
            n == chars@.len(),
            start <= i <= n,
            last_segment(chars@.take(i as int)) == chars@.subrange(start as int, i as int),
        decreases n - i,
    {
        assert(chars@.take(i + 1).drop_last() =~= chars@.take(i as int));
        if chars[i] == '/' {
            start = i + 1;
            assert(last_segment(chars@.take(i + 1)) =~= chars@.subrange(start as int, i + 1));
        } else {
            assert(last_segment(chars@.take(i + 1)) =~= chars@.subrange(start as int, i + 1));
        }
        i = i + 1;
    }
    assert(chars@.take(n as int) =~= chars@);
    let mut end: usize = n;
    while end - start >= 4 && chars[end - 4] == '.' && chars[end - 3] == 'i' && chars[end - 2]
        == 'w' && chars[end - 1] == 'a'
        invariant
            n == chars@.len(),
            start <= end <= n,
            slide_name(stream@) == without_iwa(chars@.subrange(start as int, end as int)),
        decreases end,
    {
        let ghost s = chars@.subrange(start as int, end as int);
        assert(s.subrange(s.len() - 4, s.len() as int) =~= seq!['.', 'i', 'w', 'a']);
        assert(s.subrange(0, s.len() - 4) =~= chars@.subrange(start as int, end - 4));
        end = end - 4;
    }
    proof {
        let s = chars@.subrange(start as int, end as int);
        if s.len() >= 4 {
            let tail = s.subrange(s.len() - 4, s.len() as int);
            if tail == seq!['.', 'i', 'w', 'a'] {
                assert(tail[0] == chars@[end - 4]);
                assert(tail[1] == chars@[end - 3]);
                assert(tail[2] == chars@[end - 2]);
                assert(tail[3] == chars@[end - 1]);
            }
        }
    }
    let mut out: Vec<char> = Vec::new();
    let mut k: usize = start;
    while k < end
        invariant
            start <= k <= end <= n,
            n == chars@.len(),
            out@ == chars@.subrange(start as int, k as int),
        decreases end - k,
    {
        out.push(chars[k]);
        assert(out@ =~= chars@.subrange(start as int, k + 1));
        k = k + 1;
    }
    to_string(&out)
}

/// Each target at its position in the list, all with one placement.
pub open spec fn indexed(targets: Seq<u64>, p: PlacementView) -> Seq<(u64, PlacementView, nat)> {
    Seq::new(targets.len(), |z: int| (targets[z], p, z as nat))
}

/// A list of records as mathematical objects.
pub open spec fn records_view(rs: Seq<(u64, Placement, usize)>) -> Seq<(u64, PlacementView, nat)> {
    rs.map_values(|r: (u64, Placement, usize)| (r.0, r.1@, r.2 as nat))
}

proof fn lemma_records_view_push(rs: Seq<(u64, Placement, usize)>, x: (u64, Placement, usize))
    ensures
        records_view(rs.push(x)) == records_view(rs).push((x.0, x.1@, x.2 as nat)),
{
    assert(records_view(rs.push(x)) =~= records_view(rs).push((x.0, x.1@, x.2 as nat)));
}

proof fn lemma_depths_view_push(ds: Seq<(u64, usize)>, x: (u64, usize))
    ensures
        depths_view(ds.push(x)) == depths_view(ds).push((x.0, x.1 as nat)),
{
    assert(depths_view(ds.push(x)) =~= depths_view(ds).push((x.0, x.1 as nat)));
}

fn indexed_records(targets: &Vec<u64>, p: &Placement) -> (r: Vec<(u64, Placement, usize)>)
    ensures
        records_view(r@) == indexed(targets@, p@),
{
    let mut out: Vec<(u64, Placement, usize)> = Vec::new();
    let mut z: usize = 0;
    while z < targets.len()
        invariant
            z <= targets@.len(),
            records_view(out@) == indexed(targets@.take(z as int), p@),
        decreases targets@.len() - z,
    {
        let ghost before = out@;
        let item = (targets[z], p.duplicate(), z);
        out.push(item);
        proof {
            lemma_records_view_push(before, item);
        }
        assert(records_view(out@) =~= indexed(targets@.take(z + 1), p@));
        z = z + 1;
    }
    assert(targets@.take(targets@.len() as int) =~= targets@);
    out
}

/// The page a `TP.FloatingDrawablesArchive` entry files its drawables under.
pub open spec fn page_number(page: Seq<SpecField>) -> u32 {
    match varint_field(page, 1) {
        Some(v) => v as u32,
        None => 0,
    }
}

/// The drawable one entry of a page names, through the wrapper
/// `{1: {1: identifier}}`.
pub open spec fn entry_target(v: SpecValue) -> Option<u64> {
    match v {
        SpecValue::Bytes(b) => match nested_of(b) {
            Some(wrapper) => spec_reference_at(wrapper, 1),
            None => None,
        },
        _ => None,
    }
}

/// The drawables of one page, each at its position among the page's entries.
pub open spec fn page_records(entries: Seq<SpecValue>, page: u32) -> Seq<(u64, PlacementView, nat)>
    decreases entries.len(),
{
    if entries.len() == 0 {
        Seq::empty()
    } else {
        let rest = page_records(entries.drop_last(), page);
        match entry_target(entries.last()) {
            Some(t) => rest.push((t, PlacementView::Floating { page }, (entries.len() - 1) as nat)),
            None => rest,
        }
    }
}

/// The drawables of every page, page by page.
pub open spec fn floating_records(pages: Seq<SpecValue>) -> Seq<(u64, PlacementView, nat)>
    decreases pages.len(),
{
    if pages.len() == 0 {
        Seq::empty()
    } else {
        let rest = floating_records(pages.drop_last());
        match pages.last() {
            SpecValue::Bytes(raw) => match nested_of(raw) {
                Some(page) => rest + page_records(values_with(page, 4), page_number(page)),
                None => rest,
            },
            _ => rest,
        }
    }
}

fn page_entries(page: &Message) -> (r: Vec<(u64, Placement, usize)>)
    ensures
        records_view(r@) == page_records(values_with(page@, 4), page_number(page@)),
{
    let number: u32 = match page.varint(1) {
        Some(v) => v as u32,
        None => 0,
    };
    let entries = page.all(4);
    let ghost vs = values_with(page@, 4);
    let mut out: Vec<(u64, Placement, usize)> = Vec::new();
    let mut z: usize = 0;
    while z < entries.len()
        invariant
            z <= entries@.len(),
            entries@.len() == vs.len(),
            forall|k: int| 0 <= k < entries@.len() ==> #[trigger] entries@[k]@ == vs[k],
            number == page_number(page@),
            records_view(out@) == page_records(vs.take(z as int), number),
        decreases entries@.len() - z,
    {
        assert(vs.take(z + 1).drop_last() =~= vs.take(z as int));
        assert(vs.take(z + 1).last() == entries@[z as int]@);
        match entries[z] {
            Value::Bytes(raw) => match decode_nested(raw.as_slice()) {
                Some(wrapper) => match reference_at(&wrapper, 1) {
                    Some(target) => {
                        out.push((target, Placement::Floating { page: number }, z));
                        assert(records_view(out@) =~= page_records(vs.take(z + 1), number));
                    },
                    None => {},
                },
                None => {},
            },
            _ => {},
        }
        z = z + 1;
    }
    assert(vs.take(entries@.len() as int) =~= vs);
    out
}

fn floating_entries(archive: &Message) -> (r: Vec<(u64, Placement, usize)>)
    ensures
        records_view(r@) == floating_records(values_with(archive@, 1)),
{
    let pages = archive.all(1);
    let ghost vs = values_with(archive@, 1);
    let mut out: Vec<(u64, Placement, usize)> = Vec::new();
    let mut i: usize = 0;
    while i < pages.len()
        invariant
            i <= pages@.len(),
            pages@.len() == vs.len(),
            forall|k: int| 0 <= k < pages@.len() ==> #[trigger] pages@[k]@ == vs[k],
            records_view(out@) == floating_records(vs.take(i as int)),
        decreases pages@.len() - i,
    {
        assert(vs.take(i + 1).drop_last() =~= vs.take(i as int));
        assert(vs.take(i + 1).last() == pages@[i as int]@);
        match pages[i] {
            Value::Bytes(raw) => match decode_nested(raw.as_slice()) {
                Some(page) => {
                    let mut more = page_entries(&page);
                    let ghost before = out@;
                    out.append(&mut more);
                    assert(records_view(out@) =~= records_view(before) + page_records(
                        values_with(page@, 4),
                        page_number(page@),
                    ));
                },
                None => {},
            },
            _ => {},
        }
        i = i + 1;
    }
    assert(vs.take(pages@.len() as int) =~= vs);
    out
}

/// The payload of the first object with this identifier.
pub open spec fn object_payload(objects: Seq<(String, ArchiveObject)>, identifier: u64) -> Option<Seq<u8>>
    decreases objects.len(),
{
    if objects.len() == 0 {
        None
    } else if objects[0].1.identifier == identifier {
        Some(objects[0].1.payload@)
    } else {
        object_payload(objects.drop_first(), identifier)
    }
}

fn find_payload(objects: &Vec<(String, ArchiveObject)>, identifier: u64) -> (r: Option<&Vec<u8>>)
    ensures
        match object_payload(objects@, identifier) {
            Some(p) => r matches Some(b) && b@ == p,
            None => r is None,
        },
{
    let mut i: usize = 0;
    assert(objects@.skip(0) =~= objects@);
    while i < objects.len()
        invariant
            i <= objects@.len(),
            object_payload(objects@, identifier) == object_payload(objects@.skip(i as int), identifier),
        decreases objects@.len() - i,
    {
        assert(objects@.skip(i as int).drop_first() =~= objects@.skip(i + 1));
        assert(objects@.skip(i as int)[0] == objects@[i as int]);
        if objects[i].1.identifier == identifier {
            return Some(&objects[i].1.payload);
        }
        i = i + 1;
    }
    None
}

/// The drawable an attachment object holds at its field 1.
pub open spec fn attachment_target(objects: Seq<(String, ArchiveObject)>, attachment: u64) -> Option<u64> {
    match object_payload(objects, attachment) {
        Some(p) => match fields_of(p) {
            Some(a) => spec_reference_at(a, 1),
            None => None,
        },
        None => None,
    }
}

/// The drawables a storage's attachment table anchors, each at its position
/// in the table: `{1: character index, 2: -> TSWP.DrawableAttachmentArchive}`.
pub open spec fn attachment_records(
    rows: Seq<SpecValue>,
    storage: u64,
    objects: Seq<(String, ArchiveObject)>,
) -> Seq<(u64, PlacementView, nat)>
    decreases rows.len(),
{
    if rows.len() == 0 {
        Seq::empty()
    } else {
        let rest = attachment_records(rows.drop_last(), storage, objects);
        let z = (rows.len() - 1) as nat;
        match rows.last() {
            SpecValue::Bytes(raw) => match nested_of(raw) {
                Some(entry) => match spec_reference_at(entry, 2) {
                    Some(attachment) => match attachment_target(objects, attachment) {
                        Some(target) => rest.push(
                            (
                                target,
                                PlacementView::InText {
                                    storage,
                                    character: match varint_field(entry, 1) {
                                        Some(c) => c,
                                        None => 0,
                                    },
                                },
                                z,
                            ),
                        ),
                        None => rest,
                    },
                    None => rest,
                },
                None => rest,
            },
            _ => rest,
        }
    }
}

fn attachment_entries(table: &Message, storage: u64, objects: &Vec<(String, ArchiveObject)>) -> (r: Vec<
    (u64, Placement, usize),
>)
    ensures
        records_view(r@) == attachment_records(values_with(table@, 1), storage, objects@),
{
    let rows = table.all(1);
    let ghost vs = values_with(table@, 1);
    let mut out: Vec<(u64, Placement, usize)> = Vec::new();
    let mut z: usize = 0;
    while z < rows.len()
        invariant
            z <= rows@.len(),
            rows@.len() == vs.len(),
            forall|k: int| 0 <= k < rows@.len() ==> #[trigger] rows@[k]@ == vs[k],
            records_view(out@) == attachment_records(vs.take(z as int), storage, objects@),
        decreases rows@.len() - z,
    {
        assert(vs.take(z + 1).drop_last() =~= vs.take(z as int));
        assert(vs.take(z + 1).last() == rows@[z as int]@);
        if let Value::Bytes(raw) = rows[z] {
            if let Some(entry) = decode_nested(raw.as_slice()) {
                let character: u64 = match entry.varint(1) {
                    Some(c) => c,
                    None => 0,
                };
                if let Some(attachment) = reference_at(&entry, 2) {
                    let target = match find_payload(objects, attachment) {
                        Some(payload) => match Message::decode(payload.as_slice()) {
                            Ok(a) => reference_at(&a, 1),
                            Err(_) => None,
                        },
                        None => None,
                    };
                    if let Some(target) = target {
                        out.push((target, Placement::InText { storage, character }, z));
                        assert(records_view(out@) =~= attachment_records(
                            vs.take(z + 1),
                            storage,
                            objects@,
                        ));
                    }
                }
            }
        }
        z = z + 1;
    }
    assert(vs.take(rows@.len() as int) =~= vs);
    out
}

/// What one object says about where drawables sit, in the order it lists
/// them: a Numbers sheet (2) lists its drawables at field 2, a Keynote slide
/// (5) at field 7, a Pages floating-drawables archive (10010) page by page, a
/// Pages section template (10143) at field 3, a group (3008) at field 2, and a
/// text storage (2001) through its attachment table at field 9.
pub open spec fn object_records(
    kind: DocumentKind,
    stream: Seq<char>,
    object: ArchiveObject,
    objects: Seq<(String, ArchiveObject)>,
) -> Seq<(u64, PlacementView, nat)> {
    match fields_of(object.payload@) {
        None => Seq::empty(),
        Some(archive) => {
            let t = object.message_type;
            if t == 2 && kind == DocumentKind::Numbers {
                indexed(
                    spec_references(archive, 2),
                    PlacementView::Sheet(
                        match utf8_field(archive, 1) {
                            Some(name) => name,
                            None => Seq::empty(),
                        },
                    ),
                )
            } else if t == 5 && kind == DocumentKind::Keynote {
                indexed(spec_references(archive, 7), PlacementView::Slide(slide_name(stream)))
            } else if t == 10010 && kind == DocumentKind::Pages {
                floating_records(values_with(archive, 1))
            } else if t == 10143 && kind == DocumentKind::Pages {
                indexed(spec_references(archive, 3), PlacementView::SectionTemplate(object.identifier))
            } else if t == TYPE_GROUP {
                indexed(spec_references(archive, 2), PlacementView::Group(object.identifier))
            } else if t == TYPE_STORAGE {
                match nested_field(archive, 9) {
                    Some(table) => attachment_records(values_with(table, 1), object.identifier, objects),
                    None => Seq::empty(),
                }
            } else {
                Seq::empty()
            }
        },
    }
}

/// Depths one object gives: Pages' document-wide z-order (10015) lists every
/// drawable at field 1, deepest first.
pub open spec fn object_depths(kind: DocumentKind, object: ArchiveObject) -> Seq<(u64, nat)> {
    match fields_of(object.payload@) {
        Some(archive) => if object.message_type == 10015 && kind == DocumentKind::Pages {
            let targets = spec_references(archive, 1);
            Seq::new(targets.len(), |z: int| (targets[z], z as nat))
        } else {
            Seq::empty()
        },
        None => Seq::empty(),
    }
}

/// Every record of the first `n` objects, object by object.
pub open spec fn records_upto(
    kind: DocumentKind,
    objects: Seq<(String, ArchiveObject)>,
    n: nat,
) -> Seq<(u64, PlacementView, nat)>
    decreases n,
{
    if n == 0 || n > objects.len() {
        Seq::empty()
    } else {
        records_upto(kind, objects, (n - 1) as nat) + object_records(
            kind,
            objects[n - 1].0@,
            objects[n - 1].1,
            objects,
        )
    }
}

/// Every depth of the first `n` objects, object by object.
pub open spec fn depths_upto(kind: DocumentKind, objects: Seq<(String, ArchiveObject)>, n: nat) -> Seq<
    (u64, nat),
>
    decreases n,
{
    if n == 0 || n > objects.len() {
        Seq::empty()
    } else {
        depths_upto(kind, objects, (n - 1) as nat) + object_depths(kind, objects[n - 1].1)
    }
}

/// Records taken in order, the first for each drawable kept.
pub open spec fn first_records(m: Map<u64, (PlacementView, nat)>, rs: Seq<(u64, PlacementView, nat)>) -> Map<
    u64,
    (PlacementView, nat),
>
    decreases rs.len(),
{
    if rs.len() == 0 {
        m
    } else {
        let before = first_records(m, rs.drop_last());
        let r = rs.last();
        if before.contains_key(r.0) {
            before
        } else {
            before.insert(r.0, (r.1, r.2))
        }
    }
}

/// Depths taken in order, the last for each drawable kept.
pub open spec fn last_depths(ds: Seq<(u64, nat)>) -> Map<u64, nat>
    decreases ds.len(),
{
    if ds.len() == 0 {
        Map::empty()
    } else {
        last_depths(ds.drop_last()).insert(ds.last().0, ds.last().1)
    }
}

/// The depth listing applied to the first records: a listed drawable takes
/// the listing's depth, keeping its placement or, when no container named it,
/// unplaced.
pub open spec fn combined(first: Map<u64, (PlacementView, nat)>, depth: Map<u64, nat>) -> Map<
    u64,
    (PlacementView, nat),
> {
    Map::new(
        |t: u64| first.contains_key(t) || depth.contains_key(t),
        |t: u64|
            (
                if first.contains_key(t) {
                    first[t].0
                } else {
                    PlacementView::Unknown
                },
                if depth.contains_key(t) {
                    depth[t]
                } else {
                    first[t].1
                },
            ),
    )
}

/// Where every drawable a container names sits, and how deep: its placement
/// is that of the first container to name it, and its depth its position
/// there — unless Pages' document-wide order lists it, whose last word on the
/// depth wins. A drawable that only the order lists is unplaced.
pub open spec fn spec_containers(kind: DocumentKind, objects: Seq<(String, ArchiveObject)>) -> Map<
    u64,
    (PlacementView, nat),
> {
    combined(
        first_records(Map::empty(), records_upto(kind, objects, objects.len())),
        last_depths(depths_upto(kind, objects, objects.len())),
    )
}

/// A map of placements as a mathematical object.
pub open spec fn placements_view(out: Map<u64, (Placement, usize)>) -> Map<u64, (PlacementView, nat)> {
    Map::new(|t: u64| out.contains_key(t), |t: u64| (out[t].0@, out[t].1 as nat))
}

/// A list of depths as a mathematical object.
pub open spec fn depths_view(ds: Seq<(u64, usize)>) -> Seq<(u64, nat)> {
    ds.map_values(|d: (u64, usize)| (d.0, d.1 as nat))
}

/// One depth applied to the placements.
pub open spec fn depth_step(m: Map<u64, (PlacementView, nat)>, d: (u64, nat)) -> Map<
    u64,
    (PlacementView, nat),
> {
    if m.contains_key(d.0) {
        m.insert(d.0, (m[d.0].0, d.1))
    } else {
        m.insert(d.0, (PlacementView::Unknown, d.1))
    }
}

/// Depths applied one after another.
pub open spec fn apply_depths(m: Map<u64, (PlacementView, nat)>, ds: Seq<(u64, nat)>) -> Map<
    u64,
    (PlacementView, nat),
>
    decreases ds.len(),
{
    if ds.len() == 0 {
        m
    } else {
        depth_step(apply_depths(m, ds.drop_last()), ds.last())
    }
}

proof fn lemma_first_records_append(
    m: Map<u64, (PlacementView, nat)>,
    a: Seq<(u64, PlacementView, nat)>,
    b: Seq<(u64, PlacementView, nat)>,
)
    ensures
        first_records(m, a + b) == first_records(first_records(m, a), b),
    decreases b.len(),
{
    if b.len() == 0 {
        assert(a + b =~= a);
    } else {
        assert((a + b).drop_last() =~= a + b.drop_last());
        lemma_first_records_append(m, a, b.drop_last());
    }
}

/// Applying depths one after another is the same as letting the last depth
/// of each drawable win.
proof fn lemma_apply_depths(first: Map<u64, (PlacementView, nat)>, ds: Seq<(u64, nat)>)
    ensures
        apply_depths(first, ds) == combined(first, last_depths(ds)),
    decreases ds.len(),
{
    if ds.len() == 0 {
        assert(combined(first, Map::empty()) =~= first);
    } else {
        lemma_apply_depths(first, ds.drop_last());
        assert(apply_depths(first, ds) =~= combined(first, last_depths(ds)));
    }
}

proof fn lemma_records_step(kind: DocumentKind, objects: Seq<(String, ArchiveObject)>, i: nat)
    requires
        i < objects.len(),
    ensures
        records_upto(kind, objects, i + 1) == records_upto(kind, objects, i) + object_records(
            kind,
            objects[i as int].0@,
            objects[i as int].1,
            objects,
        ),
        depths_upto(kind, objects, i + 1) == depths_upto(kind, objects, i) + object_depths(
            kind,
            objects[i as int].1,
        ),
{
}

fn record_all(out: &mut BTreeMap<u64, (Placement, usize)>, rs: &Vec<(u64, Placement, usize)>)
    ensures
        placements_view(final(out)@) == first_records(placements_view(old(out)@), records_view(rs@)),
{
    let ghost rv = records_view(rs@);
    let mut i: usize = 0;
    while i < rs.len()
        invariant
            i <= rs@.len(),
            rv == records_view(rs@),
            placements_view(out@) == first_records(placements_view(old(out)@), rv.take(i as int)),
        decreases rs@.len() - i,
    {
        assert(rv.take(i + 1).drop_last() =~= rv.take(i as int));
        let target = rs[i].0;
        if !out.contains_key(&target) {
            let ghost before = out@;
            out.insert(target, (rs[i].1.duplicate(), rs[i].2));
            assert(placements_view(out@) =~= placements_view(before).insert(
                target,
                (rs@[i as int].1@, rs@[i as int].2 as nat),
            ));
        }
        i = i + 1;
    }
    assert(rv.take(rs@.len() as int) =~= rv);
}

fn depth_entries(kind: DocumentKind, object: &ArchiveObject) -> (r: Vec<(u64, usize)>)
    ensures
        depths_view(r@) == object_depths(kind, *object),
{
    let mut out: Vec<(u64, usize)> = Vec::new();
    if object.message_type == 10015 && kind == DocumentKind::Pages {
        if let Ok(archive) = Message::decode(object.payload.as_slice()) {
            let targets = references(&archive, 1);
            let mut z: usize = 0;
            while z < targets.len()
                invariant
                    z <= targets@.len(),
                    depths_view(out@) == Seq::new(z as nat, |k: int| (targets@[k], k as nat)),
                decreases targets@.len() - z,
            {
                let ghost before = out@;
                out.push((targets[z], z));
                proof {
                    lemma_depths_view_push(before, (targets@[z as int], z));
                }
                assert(depths_view(out@) =~= Seq::new((z + 1) as nat, |k: int| (targets@[k], k as nat)));
                z = z + 1;
            }
        }
    }
    proof {
        let t = object.message_type;
        if !(t == 10015 && kind == DocumentKind::Pages) || fields_of(object.payload@) is None {
            assert(depths_view(out@) =~= Seq::<(u64, nat)>::empty());
        }
    }
    out
}

fn object_entries(
    kind: DocumentKind,
    stream: &String,
    object: &ArchiveObject,
    objects: &Vec<(String, ArchiveObject)>,
) -> (r: Vec<(u64, Placement, usize)>)
    ensures
        records_view(r@) == object_records(kind, stream@, *object, objects@),
{
    let archive = match Message::decode(object.payload.as_slice()) {
        Ok(a) => a,
        Err(_) => {
            let none: Vec<(u64, Placement, usize)> = Vec::new();
            assert(records_view(none@) =~= Seq::<(u64, PlacementView, nat)>::empty());
            return none;
        },
    };
    let t = object.message_type;
    if t == 2 && kind == DocumentKind::Numbers {
        let name = match string(&archive, 1) {
            Some(s) => s,
            None => String::new(),
        };
        indexed_records(&references(&archive, 2), &Placement::Sheet(name))
    } else if t == 5 && kind == DocumentKind::Keynote {
        indexed_records(&references(&archive, 7), &Placement::Slide(slide_of(stream)))
    } else if t == 10010 && kind == DocumentKind::Pages {
        floating_entries(&archive)
    } else if t == 10143 && kind == DocumentKind::Pages {
        indexed_records(&references(&archive, 3), &Placement::SectionTemplate(object.identifier))
    } else if t == TYPE_GROUP {
        indexed_records(&references(&archive, 2), &Placement::Group(object.identifier))
    } else if t == TYPE_STORAGE {
        match crate::formula::nested(&archive, 9) {
            Some(table) => attachment_entries(&table, object.identifier, objects),
            None => {
                let none: Vec<(u64, Placement, usize)> = Vec::new();
                assert(records_view(none@) =~= Seq::<(u64, PlacementView, nat)>::empty());
                none
            },
        }
    } else {
        let none: Vec<(u64, Placement, usize)> = Vec::new();
        assert(records_view(none@) =~= Seq::<(u64, PlacementView, nat)>::empty());
        none
    }
}

/// Where each drawable sits, from the lists that hold it.
///
/// A drawable is placed by the first container that names it, at its
/// position in that container's list; Pages' document-wide z-order then
/// gives the depth of everything it lists, whatever container it turned out
/// to belong to. `objects` is the document's object list, stream by stream.
pub fn containers(kind: DocumentKind, objects: &Vec<(String, ArchiveObject)>) -> (r: BTreeMap<
    u64,
    (Placement, usize),
>)
    ensures
        placements_view(r@) == spec_containers(kind, objects@),
{
    let mut out: BTreeMap<u64, (Placement, usize)> = BTreeMap::new();
    let mut depth: Vec<(u64, usize)> = Vec::new();
    assert(placements_view(out@) =~= Map::<u64, (PlacementView, nat)>::empty());
    assert(depths_view(depth@) =~= Seq::<(u64, nat)>::empty());
    let mut i: usize = 0;
    while i < objects.len()
        invariant
            i <= objects@.len(),
            placements_view(out@) == first_records(
                Map::empty(),
                records_upto(kind, objects@, i as nat),
            ),
            depths_view(depth@) == depths_upto(kind, objects@, i as nat),
        decreases objects@.len() - i,
    {
        proof {
            lemma_records_step(kind, objects@, i as nat);
            lemma_first_records_append(
                Map::empty(),
                records_upto(kind, objects@, i as nat),
                object_records(kind, objects@[i as int].0@, objects@[i as int].1, objects@),
            );
        }
        let recs = object_entries(kind, &objects[i].0, &objects[i].1, objects);
        record_all(&mut out, &recs);
        let mut more = depth_entries(kind, &objects[i].1);
        let ghost before = depth@;
        depth.append(&mut more);
        assert(depths_view(depth@) =~= depths_view(before) + object_depths(kind, objects@[i as int].1));
        i = i + 1;
    }
    let ghost first = placements_view(out@);
    let ghost dv = depths_view(depth@);
    let mut j: usize = 0;
    while j < depth.len()
        invariant
            j <= depth@.len(),
            dv == depths_view(depth@),
            placements_view(out@) == apply_depths(first, dv.take(j as int)),
        decreases depth@.len() - j,
    {
        assert(dv.take(j + 1).drop_last() =~= dv.take(j as int));
        let (target, z) = depth[j];
        let ghost before = out@;
        match out.remove(&target) {
            Some(entry) => {
                out.insert(target, (entry.0, z));
                assert(placements_view(out@) =~= depth_step(placements_view(before), (target, z as nat)));
            },
            None => {
                out.insert(target, (Placement::Unknown, z));
                assert(placements_view(out@) =~= depth_step(placements_view(before), (target, z as nat)));
            },
        }
        j = j + 1;
    }
    proof {
        assert(dv.take(depth@.len() as int) =~= dv);
        lemma_apply_depths(first, dv);
    }
    out
}


// -- laws ------------------------------------------------------------------------------

/// **A point is not a geometry.** A geometry holds two points; the one must
/// never be mistaken for the other, or the walk stops one level too early.
pub proof fn law_point_is_not_geometry(fs: Seq<SpecField>)
    requires
        spec_is_point(fs),
    ensures
        !spec_is_geometry(fs),
{
    assert(point_field(fs[0]));
    assert(!geometry_field_fits(fs[0]));
}

proof fn lemma_walk_shape(fs: Seq<SpecField>, depth: nat)
    ensures
        spec_walk(fs, depth) matches Some(p) ==> p.len() < depth && forall|i: int|
            0 <= i < p.len() ==> p[i] == 1,
    decreases depth,
{
    if depth > 0 {
        if let Some(inner) = nested_field(fs, 1) {
            if !spec_is_geometry(inner) {
                lemma_walk_shape(inner, (depth - 1) as nat);
                if let Some(rest) = spec_walk(inner, (depth - 1) as nat) {
                    let p = seq![1u32] + rest;
                    assert forall|i: int| 0 <= i < p.len() implies p[i] == 1 by {
                        if i > 0 {
                            assert(p[i] == rest[i - 1]);
                        }
                    }
                }
            }
        }
    }
}

/// **The walk is bounded.** The path to a drawable archive only ever follows
/// field 1 — `super` — and is at most seven steps long, so neither a cycle
/// nor a misidentified payload can make it run away.
pub proof fn law_drawable_path_is_bounded(fs: Seq<SpecField>)
    ensures
        spec_drawable_path(fs) matches Some(p) ==> p.len() < 8 && forall|i: int|
            0 <= i < p.len() ==> p[i] == 1,
{
    lemma_walk_shape(fs, 8);
}

/// No record names a drawable unplaced.
pub open spec fn all_placed(rs: Seq<(u64, PlacementView, nat)>) -> bool {
    forall|j: int| 0 <= j < rs.len() ==> !((#[trigger] rs[j]).1 is Unknown)
}

proof fn lemma_page_records_placed(entries: Seq<SpecValue>, page: u32)
    ensures
        all_placed(page_records(entries, page)),
    decreases entries.len(),
{
    if entries.len() > 0 {
        lemma_page_records_placed(entries.drop_last(), page);
    }
}

proof fn lemma_floating_records_placed(pages: Seq<SpecValue>)
    ensures
        all_placed(floating_records(pages)),
    decreases pages.len(),
{
    if pages.len() > 0 {
        lemma_floating_records_placed(pages.drop_last());
        if let SpecValue::Bytes(raw) = pages.last() {
            if let Some(page) = nested_of(raw) {
                let a = floating_records(pages.drop_last());
                let b = page_records(values_with(page, 4), page_number(page));
                lemma_page_records_placed(values_with(page, 4), page_number(page));
                assert forall|j: int| 0 <= j < (a + b).len() implies !((#[trigger] (a + b)[j]).1 is Unknown) by {
                    if j < a.len() {
                        assert((a + b)[j] == a[j]);
                    } else {
                        assert((a + b)[j] == b[j - a.len()]);
                    }
                }
            }
        }
    }
}

proof fn lemma_attachment_records_placed(
    rows: Seq<SpecValue>,
    storage: u64,
    objects: Seq<(String, ArchiveObject)>,
)
    ensures
        all_placed(attachment_records(rows, storage, objects)),
    decreases rows.len(),
{
    if rows.len() > 0 {
        lemma_attachment_records_placed(rows.drop_last(), storage, objects);
    }
}

proof fn lemma_object_records_placed(
    kind: DocumentKind,
    stream: Seq<char>,
    object: ArchiveObject,
    objects: Seq<(String, ArchiveObject)>,
)
    ensures
        all_placed(object_records(kind, stream, object, objects)),
{
    if let Some(archive) = fields_of(object.payload@) {
        lemma_floating_records_placed(values_with(archive, 1));
        if let Some(table) = nested_field(archive, 9) {
            lemma_attachment_records_placed(values_with(table, 1), object.identifier, objects);
        }
    }
}

proof fn lemma_records_upto(kind: DocumentKind, objects: Seq<(String, ArchiveObject)>, n: nat, i: int, k: int)
    requires
        0 <= i < n <= objects.len(),
        0 <= k < object_records(kind, objects[i].0@, objects[i].1, objects).len(),
    ensures
        all_placed(records_upto(kind, objects, n)),
        records_upto(kind, objects, n).contains(
            object_records(kind, objects[i].0@, objects[i].1, objects)[k],
        ),
    decreases n,
{
    let a = records_upto(kind, objects, (n - 1) as nat);
    let b = object_records(kind, objects[n - 1].0@, objects[n - 1].1, objects);
    lemma_object_records_placed(kind, objects[n - 1].0@, objects[n - 1].1, objects);
    if i < n - 1 {
        lemma_records_upto(kind, objects, (n - 1) as nat, i, k);
        let j = choose|j: int| 0 <= j < a.len() && a[j] == object_records(
            kind,
            objects[i].0@,
            objects[i].1,
            objects,
        )[k];
        assert((a + b)[j] == a[j]);
    } else {
        lemma_all_placed_upto(kind, objects, (n - 1) as nat);
        assert((a + b)[a.len() + k] == b[k]);
    }
    assert forall|j: int| 0 <= j < (a + b).len() implies !((#[trigger] (a + b)[j]).1 is Unknown) by {
        lemma_all_placed_upto(kind, objects, (n - 1) as nat);
        if j < a.len() {
            assert((a + b)[j] == a[j]);
        } else {
            assert((a + b)[j] == b[j - a.len()]);
        }
    }
}

proof fn lemma_all_placed_upto(kind: DocumentKind, objects: Seq<(String, ArchiveObject)>, n: nat)
    ensures
        all_placed(records_upto(kind, objects, n)),
    decreases n,
{
    if n > 0 && n <= objects.len() {
        lemma_all_placed_upto(kind, objects, (n - 1) as nat);
        let a = records_upto(kind, objects, (n - 1) as nat);
        let b = object_records(kind, objects[n - 1].0@, objects[n - 1].1, objects);
        lemma_object_records_placed(kind, objects[n - 1].0@, objects[n - 1].1, objects);
        assert forall|j: int| 0 <= j < (a + b).len() implies !((#[trigger] (a + b)[j]).1 is Unknown) by {
            if j < a.len() {
                assert((a + b)[j] == a[j]);
            } else {
                assert((a + b)[j] == b[j - a.len()]);
            }
        }
    }
}

proof fn lemma_first_records_placed(m: Map<u64, (PlacementView, nat)>, rs: Seq<(u64, PlacementView, nat)>, t: u64)
    requires
        all_placed(rs),
        forall|u: u64| #[trigger] m.contains_key(u) ==> !(m[u].0 is Unknown),
        exists|j: int| 0 <= j < rs.len() && (#[trigger] rs[j]).0 == t,
    ensures
        first_records(m, rs).contains_key(t),
        !(first_records(m, rs)[t].0 is Unknown),
    decreases rs.len(),
{
    let j = choose|j: int| 0 <= j < rs.len() && (#[trigger] rs[j]).0 == t;
    let before = rs.drop_last();
    assert(all_placed(before)) by {
        assert forall|k: int| 0 <= k < before.len() implies !((#[trigger] before[k]).1 is Unknown) by {
            assert(before[k] == rs[k]);
        }
    }
    if j < rs.len() - 1 {
        assert(before[j] == rs[j]);
        lemma_first_records_placed(m, before, t);
    } else {
        lemma_first_records_keeps_placed(m, before);
        assert(rs[rs.len() - 1] == rs.last());
    }
}

proof fn lemma_first_records_keeps_placed(m: Map<u64, (PlacementView, nat)>, rs: Seq<(u64, PlacementView, nat)>)
    requires
        all_placed(rs),
        forall|u: u64| #[trigger] m.contains_key(u) ==> !(m[u].0 is Unknown),
    ensures
        forall|u: u64| #[trigger] first_records(m, rs).contains_key(u) ==> !(first_records(m, rs)[u].0 is Unknown),
    decreases rs.len(),
{
    if rs.len() > 0 {
        let before = rs.drop_last();
        assert(all_placed(before)) by {
            assert forall|k: int| 0 <= k < before.len() implies !((#[trigger] before[k]).1 is Unknown) by {
                assert(before[k] == rs[k]);
            }
        }
        lemma_first_records_keeps_placed(m, before);
        assert(rs[rs.len() - 1] == rs.last());
    }
}

/// **A drawable a container names is never unplaced.** Whatever depth the
/// z-order gives it, a drawable that some container lists keeps the placement
/// of the first container to list it.
pub proof fn law_listed_drawables_are_placed(
    kind: DocumentKind,
    objects: Seq<(String, ArchiveObject)>,
    i: int,
    k: int,
)
    requires
        0 <= i < objects.len(),
        0 <= k < object_records(kind, objects[i].0@, objects[i].1, objects).len(),
    ensures
        ({
            let t = object_records(kind, objects[i].0@, objects[i].1, objects)[k].0;
            &&& spec_containers(kind, objects).contains_key(t)
            &&& !(spec_containers(kind, objects)[t].0 is Unknown)
        }),
{
    let rs = records_upto(kind, objects, objects.len());
    let r = object_records(kind, objects[i].0@, objects[i].1, objects)[k];
    lemma_records_upto(kind, objects, objects.len(), i, k);
    let j = choose|j: int| 0 <= j < rs.len() && rs[j] == r;
    assert(rs[j].0 == r.0);
    lemma_first_records_placed(Map::empty(), rs, r.0);
}

/// **Each drawable type is of its own family.** A chart — `TSCH.ChartInfo`
/// (5000) or the chart drawable (5021) — is a chart and nothing else; a table
/// — `TST.TableInfoArchive` (6000) or its Pages form (6007) — is a table and
/// nothing else; and no chart type is ever classified as a table. Every
/// other drawable type has its own kind in the same way.
pub proof fn law_charts_and_tables_are_their_own_kinds(message_type: u32)
    ensures
        spec_kind_of(message_type) == Some(Kind::Chart) <==> (message_type == 5000 || message_type == 5021),
        spec_kind_of(message_type) == Some(Kind::Table) <==> (message_type == 6000 || message_type == 6007),
        spec_kind_of(message_type) is Some ==> spec_kind_of(message_type) != Some(Kind::Table) || !(
        message_type == 5000 || message_type == 5021),
        spec_kind_of(message_type) == Some(Kind::Shape) <==> (message_type == 3004 || message_type == 2011),
        spec_kind_of(message_type) == Some(Kind::Image) <==> message_type == 3005,
        spec_kind_of(message_type) == Some(Kind::Mask) <==> message_type == 3006,
        spec_kind_of(message_type) == Some(Kind::Movie) <==> message_type == 3007,
        spec_kind_of(message_type) == Some(Kind::Group) <==> message_type == 3008,
        spec_kind_of(message_type) == Some(Kind::ConnectionLine) <==> message_type == 3009,
        spec_kind_of(message_type) == Some(Kind::Placeholder) <==> (message_type == 7 || message_type == 12),
        spec_kind_of(message_type) == Some(Kind::Comment) <==> message_type == 2014,
        spec_kind_of(message_type) == Some(Kind::Equation) <==> message_type == 2015,
        spec_kind_of(message_type) == Some(Kind::Caption) <==> message_type == 633,
        spec_kind_of(message_type) == Some(Kind::Contents) <==> message_type == 2240,
        spec_kind_of(message_type) != Some(Kind::Other),
{
}

} // verus!
