//! What a document says about itself: which app wrote it, which streams its
//! components live in, where its media is stored, and what its text storages
//! hold.
//!
//! A [`Document`] is a package's object streams, decoded and filed by name;
//! everything it answers is read off those objects, and the package index
//! (`TSP.PackageMetadata`) among them.
//!
//! All three apps share the container, the IWA framing and most object
//! types; the kind only affects which document-level archives are present.

use core::ops::Range;

use vstd::prelude::*;
use vstd::string::StrSliceExecFns;

use crate::chars::{
    chars_before, chars_of, decimal, lemma_text_before_total, lemma_text_before_transitive, push_decimal,
    lossy_string, push_str, string_chars, text_before, to_string, utf8_lossy,
};
use crate::pb::{
    bytes_field, copy_range, fields_bytes, fields_of, first_with, index_of_first, insertion_point, law_set_in_order_then_get,
    lemma_fields_of_encodable, lemma_index_of_first, lemma_insertion_point, lemma_message_roundtrip, set_in_order_spec, set_spec, law_set_then_get,
    field_is_encodable, values_with, varint_field, Message, SpecField,
    SpecValue, Value,
};
use vstd::utf8::encode_utf8;

verus! {

/// Which app wrote the document.
#[derive(Debug, Clone, Copy, PartialEq, Eq, Structural)]
pub enum Kind {
    Pages,
    Numbers,
    Keynote,
    Unknown,
}

pub open spec fn ascii_lower(c: char) -> char {
    if 'A' <= c && c <= 'Z' {
        ((c as int) + 32) as char
    } else {
        c
    }
}

/// `s` with its ASCII capitals lowered.
pub open spec fn lowered(s: Seq<char>) -> Seq<char> {
    s.map_values(|c: char| ascii_lower(c))
}

/// The index of the last `c` in `s`, when there is one.
pub open spec fn last_index_of(s: Seq<char>, c: char) -> Option<int>
    decreases s.len(),
{
    if s.len() == 0 {
        None
    } else if s.last() == c {
        Some(s.len() - 1)
    } else {
        last_index_of(s.drop_last(), c)
    }
}

/// A path without what it may end with that names no component of its own:
/// separators, and `.` components (`x.pages/.` is `x.pages`).
pub open spec fn without_trailing_slashes(s: Seq<char>) -> Seq<char>
    decreases s.len(),
{
    if s.len() > 0 && (s.last() == '/' || (s.len() >= 2 && s.last() == '.' && s[s.len() - 2] == '/')) {
        without_trailing_slashes(s.drop_last())
    } else {
        s
    }
}

/// The last component of a path.
pub open spec fn file_name(path: Seq<char>) -> Seq<char> {
    let p = without_trailing_slashes(path);
    match last_index_of(p, '/') {
        Some(i) => p.skip(i + 1),
        None => p,
    }
}

/// A path's extension: what follows the last `.` of its file name, where that
/// `.` is not the name's first character — `.pages` alone has none — and the
/// name is not `..`.
pub open spec fn extension(path: Seq<char>) -> Option<Seq<char>> {
    let name = file_name(path);
    if name == seq!['.', '.'] {
        None
    } else {
        match last_index_of(name, '.') {
            Some(i) => if i > 0 {
                Some(name.skip(i + 1))
            } else {
                None
            },
            None => None,
        }
    }
}

pub open spec fn spec_kind_from_extension(path: Seq<char>) -> Kind {
    match extension(path) {
        Some(e) => if lowered(e) == "pages"@ {
            Kind::Pages
        } else if lowered(e) == "numbers"@ {
            Kind::Numbers
        } else if lowered(e) == "key"@ {
            Kind::Keynote
        } else {
            Kind::Unknown
        },
        None => Kind::Unknown,
    }
}

fn lower(c: char) -> (r: char)
    ensures
        r == ascii_lower(c),
{
    if 'A' <= c && c <= 'Z' {
        let code: u32 = c as u32 + 32;
        (code as u8) as char
    } else {
        c
    }
}

/// Whether the characters `s[from..]`, lowered, are `word`.
fn lowered_equals(s: &Vec<char>, from: usize, word: &str) -> (r: bool)
    requires
        from <= s@.len(),
    ensures
        r == (lowered(s@.skip(from as int)) == word@),
{
    let n = word.unicode_len();
    if s.len() - from != n {
        assert(lowered(s@.skip(from as int)).len() != word@.len());
        return false;
    }
    let mut i: usize = 0;
    while i < n
        invariant
            from <= s@.len(),
            s@.len() <= usize::MAX,
            s@.len() - from == n,
            n == word@.len(),
            i <= n,
            forall|k: int| 0 <= k < i ==> ascii_lower(s@[from + k]) == word@[k],
        decreases n - i,
    {
        if lower(s[from + i]) != word.get_char(i) {
            assert(lowered(s@.skip(from as int))[i as int] != word@[i as int]);
            return false;
        }
        i = i + 1;
    }
    assert(lowered(s@.skip(from as int)) =~= word@);
    true
}

fn last_index(s: &Vec<char>, end: usize, c: char) -> (r: Option<usize>)
    requires
        end <= s@.len(),
    ensures
        match last_index_of(s@.take(end as int), c) {
            Some(i) => r matches Some(j) && j == i,
            None => r is None,
        },
        r matches Some(j) ==> j < end,
{
    let mut i: usize = end;
    while i > 0
        invariant
            i <= end <= s@.len(),
            last_index_of(s@.take(end as int), c) == last_index_of(s@.take(i as int), c),
        decreases i,
    {
        assert(s@.take(i as int).drop_last() =~= s@.take(i - 1));
        if s[i - 1] == c {
            return Some(i - 1);
        }
        i = i - 1;
    }
    None
}

proof fn lemma_trailing_prefix(s: Seq<char>)
    ensures
        exists|k: int| 0 <= k <= s.len() && without_trailing_slashes(s) == s.take(k),
    decreases s.len(),
{
    if s.len() > 0 && (s.last() == '/' || (s.len() >= 2 && s.last() == '.' && s[s.len() - 2] == '/')) {
        lemma_trailing_prefix(s.drop_last());
        let k = choose|k: int| 0 <= k <= s.drop_last().len() && without_trailing_slashes(s.drop_last()) == s.drop_last().take(k);
        assert(s.drop_last().take(k) =~= s.take(k));
    } else {
        assert(s.take(s.len() as int) =~= s);
    }
}

impl Kind {
    /// The kind a file's extension names, in any case: `.pages`, `.numbers`,
    /// `.key`.
    pub fn from_extension(path: &str) -> (r: Kind)
        ensures
            r == spec_kind_from_extension(path@),
    {
        let mut chars: Vec<char> = Vec::new();
        push_str(&mut chars, path);
        assert(chars@ =~= path@);
        let mut end: usize = chars.len();
        assert(chars@.take(end as int) =~= chars@);
        while end > 0 && (chars[end - 1] == '/' || (end >= 2 && chars[end - 1] == '.' && chars[end - 2] == '/'))
            invariant
                end <= chars@.len(),
                without_trailing_slashes(chars@) == without_trailing_slashes(chars@.take(end as int)),
            decreases end,
        {
            assert(chars@.take(end as int).drop_last() =~= chars@.take(end - 1));
            end = end - 1;
        }
        let ghost p = chars@.take(end as int);
        assert(without_trailing_slashes(p) == p);
        let start: usize = match last_index(&chars, end, '/') {
            Some(i) => i + 1,
            None => 0,
        };
        let ghost name = p.skip(start as int);
        assert(file_name(path@) == name);
        let mut name_chars: Vec<char> = Vec::new();
        let mut k: usize = start;
        while k < end
            invariant
                start <= k <= end <= chars@.len(),
                name_chars@ == chars@.subrange(start as int, k as int),
            decreases end - k,
        {
            name_chars.push(chars[k]);
            assert(chars@.subrange(start as int, k + 1) =~= chars@.subrange(start as int, k as int).push(
                chars@[k as int],
            ));
            k = k + 1;
        }
        assert(name_chars@ =~= name);
        if name_chars.len() == 2 && name_chars[0] == '.' && name_chars[1] == '.' {
            assert(name =~= seq!['.', '.']);
            return Kind::Unknown;
        }
        assert(name != seq!['.', '.']);
        let dot = match last_index(&name_chars, name_chars.len(), '.') {
            Some(i) => i,
            None => {
                assert(name_chars@.take(name_chars@.len() as int) =~= name_chars@);
                return Kind::Unknown;
            },
        };
        assert(name_chars@.take(name_chars@.len() as int) =~= name_chars@);
        if dot == 0 {
            return Kind::Unknown;
        }
        if lowered_equals(&name_chars, dot + 1, "pages") {
            Kind::Pages
        } else if lowered_equals(&name_chars, dot + 1, "numbers") {
            Kind::Numbers
        } else if lowered_equals(&name_chars, dot + 1, "key") {
            Kind::Keynote
        } else {
            Kind::Unknown
        }
    }

    pub fn as_str(self) -> (r: &'static str)
        ensures
            r@ == (match self {
                Kind::Pages => "Pages"@,
                Kind::Numbers => "Numbers"@,
                Kind::Keynote => "Keynote"@,
                Kind::Unknown => "unknown"@,
            }),
    {
        match self {
            Kind::Pages => "Pages",
            Kind::Numbers => "Numbers",
            Kind::Keynote => "Keynote",
            Kind::Unknown => "unknown",
        }
    }
}

/// One entry of `TSP.PackageMetadata.components`.
#[derive(Debug, Clone)]
pub struct Component {
    pub identifier: u64,
    /// `preferred_name`, e.g. `"Document"` or `"Tables/DataList"`.
    pub preferred_name: String,
    /// `file_name` when the component has its own stream, e.g.
    /// `"Tables/DataList-874443-2"`. Empty when it shares the stream named by
    /// `preferred_name`.
    pub file_name: String,
    /// Number of `external_references` entries — a rough measure of how central
    /// the component is to the document.
    pub external_reference_count: usize,
}

impl Component {
    /// Package entry holding this component's objects:
    /// `Index/{file_name or preferred_name}.iwa`.
    pub fn stream_name(&self) -> (r: String)
        ensures
            r@ == "Index/"@ + (if self.file_name@.len() == 0 {
                self.preferred_name@
            } else {
                self.file_name@
            }) + ".iwa"@,
    {
        let stem = if self.file_name.as_str().unicode_len() == 0 {
            self.preferred_name.as_str()
        } else {
            self.file_name.as_str()
        };
        let mut out: Vec<char> = Vec::new();
        push_str(&mut out, "Index/");
        push_str(&mut out, stem);
        push_str(&mut out, ".iwa");
        to_string(&out)
    }
}

/// One entry of `TSP.PackageMetadata.datas` — the media registry.
#[derive(Debug, Clone)]
pub struct DataFile {
    /// Identifier drawables use to refer to this media. Not a package object id.
    pub identifier: u64,
    /// Name the file had when it was placed into the document.
    pub original_name: String,
    /// Name under `Data/`. Empty for assets that live in the app's own theme
    /// bundle and are therefore not copied into the package.
    pub stored_name: String,
    /// Path within the app's theme bundle, when this is a theme asset.
    pub asset_path: String,
    /// 20-byte digest iWork uses to deduplicate media.
    pub digest: Vec<u8>,
}

impl DataFile {
    /// Package entry holding the bytes, if they are stored in the package.
    pub fn entry_name(&self) -> (r: Option<String>)
        ensures
            match r {
                Some(s) => self.stored_name@.len() > 0 && s@ == "Data/"@ + self.stored_name@,
                None => self.stored_name@.len() == 0,
            },
    {
        if self.stored_name.as_str().unicode_len() == 0 {
            return None;
        }
        let mut out: Vec<char> = Vec::new();
        push_str(&mut out, "Data/");
        push_str(&mut out, self.stored_name.as_str());
        Some(to_string(&out))
    }
}

/// One attribute table of one storage.
#[derive(Debug, Clone)]
pub struct StorageTable {
    pub field: u32,
    pub name: &'static str,
    pub entries: usize,
}

/// A `TSWP.StorageArchive` and everything anchored into it.
#[derive(Debug, Clone)]
pub struct StorageInventory {
    pub identifier: u64,
    pub stream: String,
    /// `StorageArchive.kind`: 0 body, 1 header, 2 footnote, 3 text box, 4 note,
    /// 5 cell, 6 unclassified, 7 table of contents, 8 undefined. The default is
    /// 3, so a storage with no field 1 is a text box.
    pub kind: u64,
    /// Length of the text in UTF-16 code units.
    pub length: u64,
    pub paragraphs: usize,
    pub tables: Vec<StorageTable>,
    /// A length-delimited field that is not a table this crate knows — the
    /// reason an edit on this storage would be refused.
    pub unknown_field: Option<u32>,
}

pub open spec fn spec_storage_kind_name(kind: u64) -> Seq<char> {
    if kind == 0 {
        "body"@
    } else if kind == 1 {
        "header"@
    } else if kind == 2 {
        "footnote"@
    } else if kind == 3 {
        "text box"@
    } else if kind == 4 {
        "note"@
    } else if kind == 5 {
        "cell"@
    } else if kind == 6 {
        "unclassified"@
    } else if kind == 7 {
        "table of contents"@
    } else {
        "undefined"@
    }
}

impl StorageInventory {
    pub fn kind_name(&self) -> (r: &'static str)
        ensures
            r@ == spec_storage_kind_name(self.kind),
    {
        let kind = self.kind;
        if kind == 0 {
            "body"
        } else if kind == 1 {
            "header"
        } else if kind == 2 {
            "footnote"
        } else if kind == 3 {
            "text box"
        } else if kind == 4 {
            "note"
        } else if kind == 5 {
            "cell"
        } else if kind == 6 {
            "unclassified"
        } else if kind == 7 {
            "table of contents"
        } else {
            "undefined"
        }
    }
}

/// A hyperlink or other smart field, and the text it covers.
#[derive(Debug)]
pub struct SmartField {
    pub storage: u64,
    /// The field archive — 2031 placeholder, 2032 hyperlink, 2034 date and
    /// time, 2036 mail merge, and the rest of 2031–2042.
    pub object: u64,
    pub message_type: u32,
    /// Characters the field covers, in UTF-16 code units.
    pub range: Range<u64>,
    /// Field 2 of the archive: on a hyperlink the URL, on a mail-merge field
    /// the contacts property the field stands for.
    pub payload: Option<String>,
    pub text: String,
}

/// One paragraph's list state.
#[derive(Debug)]
pub struct ListParagraph {
    pub range: Range<u64>,
    /// Indent depth, counted from 0.
    pub level: u64,
    /// `TSWP.ListStyleArchive` in force, if the storage names one.
    pub style: Option<u64>,
    pub text: String,
}

impl Clone for SmartField {
    fn clone(&self) -> (r: SmartField)
        ensures
            r.storage == self.storage,
            r.object == self.object,
            r.message_type == self.message_type,
            r.range.start == self.range.start,
            r.range.end == self.range.end,
            r.text@ == self.text@,
    {
        SmartField {
            storage: self.storage,
            object: self.object,
            message_type: self.message_type,
            range: Range { start: self.range.start, end: self.range.end },
            payload: self.payload.clone(),
            text: self.text.clone(),
        }
    }
}

impl Clone for ListParagraph {
    fn clone(&self) -> (r: ListParagraph)
        ensures
            r.range.start == self.range.start,
            r.range.end == self.range.end,
            r.level == self.level,
            r.style == self.style,
            r.text@ == self.text@,
    {
        ListParagraph {
            range: Range { start: self.range.start, end: self.range.end },
            level: self.level,
            style: self.style,
            text: self.text.clone(),
        }
    }
}

/// The style over a run, resolved.
#[derive(Debug, Clone)]
pub struct ResolvedStyle {
    /// The object the run points at, named or not.
    pub style: u64,
    /// Nearest ancestor with a name, which is the style a user would say the
    /// text is in.
    pub named: Option<u64>,
    pub name: Option<String>,
    /// Set on the anonymous archives iWork writes for directly formatted text.
    pub is_variation: bool,
    /// `override_count`, field 10, reported as it is found.
    pub override_count: Option<u64>,
    /// Properties set anywhere between the run and its named style.
    pub overrides: Vec<String>,
}

/// One object of a document's object streams: its identifier, its message
/// type and its encoded archive. A document's objects are listed stream by
/// stream, each with the name of the stream that holds it.
pub struct ArchiveObject {
    pub identifier: u64,
    pub message_type: u32,
    pub payload: Vec<u8>,
}

/// A run of styled text, held by `TSWP.StorageArchive`.
#[derive(Debug, Clone)]
pub struct TextStorage {
    /// Object identifier.
    pub identifier: u64,
    /// Stream the object lives in.
    pub stream: String,
    pub text: String,
}

// -- telling the apps apart by their objects ------------------------------------------

/// Whether `s` begins with `prefix`.
pub open spec fn starts_with(s: Seq<char>, prefix: Seq<char>) -> bool {
    prefix.len() <= s.len() && s.take(prefix.len() as int) == prefix
}

fn has_prefix(s: &str, prefix: &str) -> (r: bool)
    ensures
        r == starts_with(s@, prefix@),
{
    let text = chars_of(s);
    let head = chars_of(prefix);
    if head.len() > text.len() {
        return false;
    }
    let mut i: usize = 0;
    while i < head.len()
        invariant
            i <= head@.len() <= text@.len(),
            text@ == s@,
            head@ == prefix@,
            forall|k: int| 0 <= k < i ==> text@[k] == head@[k],
        decreases head@.len() - i,
    {
        if text[i] != head[i] {
            assert(s@.take(prefix@.len() as int)[i as int] != prefix@[i as int]);
            return false;
        }
        i = i + 1;
    }
    assert(s@.take(prefix@.len() as int) =~= prefix@);
    true
}

fn same_text(a: &str, b: &str) -> (r: bool)
    ensures
        r == (a@ == b@),
{
    crate::chars::same_chars(&chars_of(a), &chars_of(b))
}

/// The message type of object 1 in the document stream, where there is one.
pub open spec fn root_type(objects: Seq<(String, ArchiveObject)>) -> Option<u32>
    decreases objects.len(),
{
    if objects.len() == 0 {
        None
    } else if objects[0].0@ == "Index/Document.iwa"@ && objects[0].1.identifier == 1 {
        Some(objects[0].1.message_type)
    } else {
        root_type(objects.drop_first())
    }
}

/// Which app wrote a package, from its entry names and its objects alone.
///
/// Numbers spreads tables over `Index/Tables/` and Keynote writes a stream
/// per slide and per master; failing both, the root archive's type decides:
/// 10000 is Pages' own, and 1 — which Numbers and Keynote both use — is
/// Numbers, a Keynote package having been caught by its slides already.
pub open spec fn spec_detect_kind(names: Seq<Seq<char>>, objects: Seq<(String, ArchiveObject)>) -> Kind {
    if exists|i: int| 0 <= i < names.len() && starts_with(#[trigger] names[i], "Index/Tables/"@) {
        Kind::Numbers
    } else if exists|i: int|
        0 <= i < names.len() && (starts_with(#[trigger] names[i], "Index/Slide"@) || starts_with(
            names[i],
            "Index/TemplateSlide"@,
        )) {
        Kind::Keynote
    } else {
        match root_type(objects) {
            Some(10000) => Kind::Pages,
            Some(1) => Kind::Numbers,
            _ => Kind::Unknown,
        }
    }
}

pub fn detect_kind(names: &Vec<String>, objects: &Vec<(String, ArchiveObject)>) -> (r: Kind)
    ensures
        r == spec_detect_kind(names@.map_values(|n: String| n@), objects@),
{
    let ghost view = names@.map_values(|n: String| n@);
    let mut i: usize = 0;
    while i < names.len()
        invariant
            i <= names@.len(),
            view == names@.map_values(|n: String| n@),
            forall|k: int| 0 <= k < i ==> !starts_with(#[trigger] view[k], "Index/Tables/"@),
        decreases names@.len() - i,
    {
        if has_prefix(names[i].as_str(), "Index/Tables/") {
            assert(starts_with(view[i as int], "Index/Tables/"@));
            return Kind::Numbers;
        }
        i = i + 1;
    }
    let mut j: usize = 0;
    while j < names.len()
        invariant
            j <= names@.len(),
            view == names@.map_values(|n: String| n@),
            forall|k: int| 0 <= k < names@.len() ==> !starts_with(#[trigger] view[k], "Index/Tables/"@),
            forall|k: int|
                0 <= k < j ==> !(starts_with(#[trigger] view[k], "Index/Slide"@) || starts_with(
                    view[k],
                    "Index/TemplateSlide"@,
                )),
        decreases names@.len() - j,
    {
        if has_prefix(names[j].as_str(), "Index/Slide") || has_prefix(names[j].as_str(), "Index/TemplateSlide") {
            assert(starts_with(view[j as int], "Index/Slide"@) || starts_with(
                view[j as int],
                "Index/TemplateSlide"@,
            ));
            return Kind::Keynote;
        }
        j = j + 1;
    }
    let mut k: usize = 0;
    assert(objects@.skip(0) =~= objects@);
    while k < objects.len()
        invariant
            k <= objects@.len(),
            root_type(objects@) == root_type(objects@.skip(k as int)),
            view == names@.map_values(|n: String| n@),
            forall|m: int| 0 <= m < names@.len() ==> !starts_with(#[trigger] view[m], "Index/Tables/"@),
            forall|m: int|
                0 <= m < names@.len() ==> !(starts_with(#[trigger] view[m], "Index/Slide"@) || starts_with(
                    view[m],
                    "Index/TemplateSlide"@,
                )),
        decreases objects@.len() - k,
    {
        assert(objects@.skip(k as int).drop_first() =~= objects@.skip(k + 1));
        assert(objects@.skip(k as int)[0] == objects@[k as int]);
        let (stream, object) = &objects[k];
        let document = "Index/Document.iwa";
        if object.identifier == 1 && same_text(stream.as_str(), document) {
            return match object.message_type {
                10000 => Kind::Pages,
                1 => Kind::Numbers,
                _ => Kind::Unknown,
            };
        }
        k = k + 1;
    }
    Kind::Unknown
}

/// A path of field numbers, dotted: `1.1.3`.
pub open spec fn spec_dotted(path: Seq<u32>) -> Seq<char>
    decreases path.len(),
{
    if path.len() == 0 {
        Seq::empty()
    } else if path.len() == 1 {
        decimal(path[0] as nat)
    } else {
        spec_dotted(path.drop_last()) + seq!['.'] + decimal(path.last() as nat)
    }
}

pub fn dotted(path: &Vec<u32>) -> (r: String)
    ensures
        r@ == spec_dotted(path@),
{
    let mut out: Vec<char> = Vec::new();
    let mut i: usize = 0;
    while i < path.len()
        invariant
            i <= path@.len(),
            out@ == spec_dotted(path@.take(i as int)),
        decreases path@.len() - i,
    {
        assert(path@.take(i + 1).drop_last() =~= path@.take(i as int));
        if i > 0 {
            out.push('.');
        }
        push_decimal(&mut out, path[i] as u64);
        assert(out@ =~= spec_dotted(path@.take(i + 1)));
        i = i + 1;
    }
    assert(path@.take(i as int) =~= path@);
    to_string(&out)
}

// -- an open document ----------------------------------------------------------------

/// `TSP.PackageMetadata`, the index of a package's components and media.
pub const TYPE_PACKAGE_METADATA: u32 = 11006;

/// Why a document could not give what was asked of it.
#[derive(Debug)]
pub enum Error {
    /// No object has this identifier.
    NoSuchObject(u64),
    /// What was asked of the document does not fit it, in words.
    Format(String),
}

/// Why an object cannot take a link address.
pub open spec fn not_a_hyperlink_text(object: u64, message_type: u32) -> Seq<char> {
    "object "@ + decimal(object as nat) + " is a "@ + decimal(message_type as nat)
        + " archive, not a hyperlink (2032)"@
}

/// Why no object identifier can be allocated.
pub open spec fn no_package_index_text() -> Seq<char> {
    "no TSP.PackageMetadata: cannot allocate an object identifier safely"@
}

fn not_a_hyperlink(object: u64, message_type: u32) -> (r: Error)
    ensures
        r matches Error::Format(text) && text@ == not_a_hyperlink_text(object, message_type),
{
    let mut out: Vec<char> = Vec::new();
    push_str(&mut out, "object ");
    push_decimal(&mut out, object);
    push_str(&mut out, " is a ");
    push_decimal(&mut out, message_type as u64);
    push_str(&mut out, " archive, not a hyperlink (2032)");
    Error::Format(to_string(&out))
}

/// Why an archive cannot be read: the stream, what the object is, its
/// identifier, and that its bytes are not a well-formed message.
pub open spec fn malformed_text(stream: Seq<char>, what: Seq<char>, object: u64) -> Seq<char> {
    stream + ": "@ + what + " "@ + decimal(object as nat) + ": not a well-formed message"@
}

/// Why the package index cannot be read.
pub open spec fn malformed_index_text() -> Seq<char> {
    "package metadata: not a well-formed message"@
}

fn malformed(stream: &str, what: &str, object: u64) -> (r: Error)
    ensures
        r matches Error::Format(text) && text@ == malformed_text(stream@, what@, object),
{
    let mut out: Vec<char> = Vec::new();
    push_str(&mut out, stream);
    push_str(&mut out, ": ");
    push_str(&mut out, what);
    push_str(&mut out, " ");
    push_decimal(&mut out, object);
    push_str(&mut out, ": not a well-formed message");
    proof {
        assert(out@ =~= malformed_text(stream@, what@, object));
    }
    Error::Format(to_string(&out))
}

fn malformed_index() -> (r: Error)
    ensures
        r matches Error::Format(text) && text@ == malformed_index_text(),
{
    let mut out: Vec<char> = Vec::new();
    push_str(&mut out, "package metadata: not a well-formed message");
    Error::Format(to_string(&out))
}

fn no_package_index() -> (r: Error)
    ensures
        r matches Error::Format(text) && text@ == no_package_index_text(),
{
    let mut out: Vec<char> = Vec::new();
    push_str(&mut out, "no TSP.PackageMetadata: cannot allocate an object identifier safely");
    Error::Format(to_string(&out))
}

/// `TSWP.HyperlinkFieldArchive`: `{1: {1: uuid}, 2: url}`.
pub const TYPE_HYPERLINK_FIELD: u32 = 2032;

/// Decoded streams filed by name, one after the other: a later stream of a
/// name replaces an earlier one.
pub open spec fn filed(streams: Seq<(String, Vec<ArchiveObject>)>) -> Map<Seq<char>, Seq<ArchiveObject>>
    decreases streams.len(),
{
    if streams.len() == 0 {
        Map::empty()
    } else {
        filed(streams.drop_last()).insert(streams.last().0@, streams.last().1@)
    }
}

/// Names in strictly ascending order, and so each of them once.
pub open spec fn ascending(names: Seq<Seq<char>>) -> bool {
    forall|i: int, j: int| 0 <= i < j < names.len() ==> text_before(#[trigger] names[i], #[trigger] names[j])
}

/// The objects of each named stream in turn, each with its stream's name.
pub open spec fn gathered(names: Seq<Seq<char>>, streams: Map<Seq<char>, Seq<ArchiveObject>>) -> Seq<
    (Seq<char>, ArchiveObject),
>
    decreases names.len(),
{
    if names.len() == 0 {
        Seq::empty()
    } else {
        let name = names.last();
        gathered(names.drop_last(), streams) + streams[name].map_values(|o: ArchiveObject| (name, o))
    }
}

/// An object list with each stream name taken as its text.
pub open spec fn named_objects(objects: Seq<(String, ArchiveObject)>) -> Seq<(Seq<char>, ArchiveObject)> {
    objects.map_values(|p: (String, ArchiveObject)| (p.0@, p.1))
}

/// The names of a list of streams.
pub open spec fn stream_keys(streams: Seq<(String, Vec<ArchiveObject>)>) -> Seq<Seq<char>> {
    streams.map_values(|e: (String, Vec<ArchiveObject>)| e.0@)
}

/// The objects of a list of streams, one stream after the other.
pub open spec fn spread(streams: Seq<(String, Vec<ArchiveObject>)>) -> Seq<(Seq<char>, ArchiveObject)>
    decreases streams.len(),
{
    if streams.len() == 0 {
        Seq::empty()
    } else {
        let last = streams.last();
        spread(streams.drop_last()) + last.1@.map_values(|o: ArchiveObject| (last.0@, o))
    }
}

/// Filing one more stream in front of others changes nothing when a later
/// stream has its name.
proof fn lemma_filed_prepend(x: (String, Vec<ArchiveObject>), t: Seq<(String, Vec<ArchiveObject>)>)
    ensures
        filed(seq![x] + t) == (if filed(t).dom().contains(x.0@) {
            filed(t)
        } else {
            filed(t).insert(x.0@, x.1@)
        }),
    decreases t.len(),
{
    let u = seq![x] + t;
    if t.len() == 0 {
        assert(u.drop_last() =~= Seq::<(String, Vec<ArchiveObject>)>::empty());
        assert(u.last() == x);
        assert(filed(t) == Map::<Seq<char>, Seq<ArchiveObject>>::empty());
        assert(filed(u) == filed(u.drop_last()).insert(x.0@, x.1@));
        assert(filed(u.drop_last()) == Map::<Seq<char>, Seq<ArchiveObject>>::empty());
        assert(!filed(t).dom().contains(x.0@));
    } else {
        assert(u.drop_last() =~= seq![x] + t.drop_last());
        assert(u.last() == t.last());
        lemma_filed_prepend(x, t.drop_last());
        let before = filed(t.drop_last());
        let l = t.last();
        assert(filed(t) == before.insert(l.0@, l.1@));
        assert(filed(u) == filed(seq![x] + t.drop_last()).insert(l.0@, l.1@));
        if before.dom().contains(x.0@) {
        } else if x.0@ == l.0@ {
            assert(before.insert(x.0@, x.1@).insert(l.0@, l.1@) =~= before.insert(l.0@, l.1@));
        } else {
            assert(before.insert(x.0@, x.1@).insert(l.0@, l.1@) =~= before.insert(l.0@, l.1@).insert(
                x.0@,
                x.1@,
            ));
        }
    }
}

/// The elements of `v` in the opposite order.
fn reversed<T>(v: Vec<T>) -> (r: Vec<T>)
    ensures
        r@.len() == v@.len(),
        forall|i: int| 0 <= i < v@.len() ==> r@[i] == v@[v@.len() - 1 - i],
{
    let ghost all = v@;
    let mut v = v;
    let mut r: Vec<T> = Vec::new();
    while v.len() > 0
        invariant
            v@.len() <= all.len(),
            v@ == all.take(v@.len() as int),
            r@.len() + v@.len() == all.len(),
            forall|i: int| 0 <= i < r@.len() ==> r@[i] == all[all.len() - 1 - i],
        decreases v@.len(),
    {
        let ghost n = v@.len();
        let x = v.pop().unwrap();
        assert(x == all[n - 1]);
        assert(v@ =~= all.take(n - 1));
        r.push(x);
    }
    r
}

/// Where `name` stands among ascending stream names: the first place whose
/// name does not sort before it, and whether that name is `name` itself.
fn place_of(sorted: &Vec<(String, Vec<ArchiveObject>)>, name: &String) -> (r: (usize, bool))
    requires
        ascending(stream_keys(sorted@)),
    ensures
        r.0 <= sorted@.len(),
        forall|j: int| 0 <= j < r.0 ==> text_before(#[trigger] stream_keys(sorted@)[j], name@),
        r.1 ==> r.0 < sorted@.len() && stream_keys(sorted@)[r.0 as int] == name@,
        !r.1 ==> (r.0 < sorted@.len() ==> text_before(name@, stream_keys(sorted@)[r.0 as int])),
{
    let target = string_chars(name);
    let mut i: usize = 0;
    while i < sorted.len()
        invariant
            i <= sorted@.len(),
            target@ == name@,
            forall|j: int| 0 <= j < i ==> text_before(#[trigger] stream_keys(sorted@)[j], name@),
        decreases sorted@.len() - i,
    {
        let here = string_chars(&sorted[i].0);
        assert(here@ == stream_keys(sorted@)[i as int]);
        if !chars_before(&here, &target) {
            proof {
                lemma_text_before_total(here@, target@);
            }
            return (i, sorted[i].0 == *name);
        }
        i = i + 1;
    }
    (i, false)
}

/// Streams filed by name, in ascending name order.
fn file_streams(streams: Vec<(String, Vec<ArchiveObject>)>) -> (r: Vec<(String, Vec<ArchiveObject>)>)
    ensures
        ascending(stream_keys(r@)),
        forall|k: int| 0 <= k < r@.len() ==> (#[trigger] r@[k]).1@ == filed(streams@)[r@[k].0@],
        forall|k: int| 0 <= k < r@.len() ==> filed(streams@).dom().contains(#[trigger] stream_keys(r@)[k]),
        forall|name: Seq<char>|
            #[trigger] filed(streams@).dom().contains(name) ==> stream_keys(r@).contains(name),
{
    let ghost all = streams@;
    let mut rest = streams;
    let mut sorted: Vec<(String, Vec<ArchiveObject>)> = Vec::new();
    assert(all.skip(all.len() as int) =~= Seq::<(String, Vec<ArchiveObject>)>::empty());
    assert(filed(all.skip(all.len() as int)) =~= Map::<Seq<char>, Seq<ArchiveObject>>::empty());
    while rest.len() > 0
        invariant
            rest@.len() <= all.len(),
            rest@ == all.take(rest@.len() as int),
            ascending(stream_keys(sorted@)),
            forall|k: int|
                0 <= k < sorted@.len() ==> (#[trigger] sorted@[k]).1@ == filed(all.skip(rest@.len() as int))[sorted@[k].0@],
            forall|k: int|
                0 <= k < sorted@.len() ==> filed(all.skip(rest@.len() as int)).dom().contains(
                    #[trigger] stream_keys(sorted@)[k],
                ),
            forall|name: Seq<char>|
                #[trigger] filed(all.skip(rest@.len() as int)).dom().contains(name) ==> stream_keys(
                    sorted@,
                ).contains(name),
        decreases rest@.len(),
    {
        let ghost n = rest@.len() as int;
        let ghost before = filed(all.skip(n));
        let ghost old_sorted = sorted@;
        let entry = rest.pop().unwrap();
        assert(entry == all[n - 1]);
        assert(rest@ =~= all.take(n - 1));
        assert(all.skip(n - 1) =~= seq![entry] + all.skip(n));
        proof {
            lemma_filed_prepend(entry, all.skip(n));
        }
        let (at, found) = place_of(&sorted, &entry.0);
        if found {
            assert(stream_keys(sorted@)[at as int] == entry.0@);
            assert(before.dom().contains(entry.0@));
        } else {
            let ghost name = entry.0@;
            let ghost objects = entry.1@;
            proof {
                assert forall|j: int| 0 <= j < old_sorted.len() implies #[trigger] stream_keys(old_sorted)[j] != name by {
                    if j < at {
                        lemma_text_before_total(stream_keys(old_sorted)[j], name);
                    } else {
                        if j > at {
                            lemma_text_before_transitive(
                                name,
                                stream_keys(old_sorted)[at as int],
                                stream_keys(old_sorted)[j],
                            );
                        }
                        lemma_text_before_total(stream_keys(old_sorted)[j], name);
                    }
                }
                assert(!before.dom().contains(name));
            }
            sorted.insert(at, entry);
            proof {
                let keys = stream_keys(sorted@);
                assert(keys =~= stream_keys(old_sorted).insert(at as int, name));
                assert forall|i: int, j: int| 0 <= i < j < keys.len() implies text_before(
                    #[trigger] keys[i],
                    #[trigger] keys[j],
                ) by {
                    let old_keys = stream_keys(old_sorted);
                    if j < at {
                        assert(keys[i] == old_keys[i] && keys[j] == old_keys[j]);
                    } else if j == at {
                        assert(keys[i] == old_keys[i]);
                    } else if i == at {
                        assert(keys[j] == old_keys[j - 1]);
                        if j - 1 > at {
                            lemma_text_before_transitive(name, old_keys[at as int], old_keys[j - 1]);
                        }
                    } else if i < at {
                        assert(keys[i] == old_keys[i] && keys[j] == old_keys[j - 1]);
                        assert(text_before(name, old_keys[j - 1])) by {
                            if j - 1 > at {
                                lemma_text_before_transitive(name, old_keys[at as int], old_keys[j - 1]);
                            }
                        }
                        lemma_text_before_transitive(old_keys[i], name, old_keys[j - 1]);
                    } else {
                        assert(keys[i] == old_keys[i - 1] && keys[j] == old_keys[j - 1]);
                    }
                }
                let after = filed(all.skip(n - 1));
                assert(after == before.insert(name, objects));
                assert forall|k: int| 0 <= k < sorted@.len() implies (#[trigger] sorted@[k]).1@ == after[sorted@[k].0@]
                    && after.dom().contains(stream_keys(sorted@)[k]) by {
                    assert(stream_keys(sorted@)[k] == sorted@[k].0@);
                    if k < at {
                        assert(sorted@[k] == old_sorted[k]);
                        assert(stream_keys(old_sorted)[k] == old_sorted[k].0@);
                        assert(stream_keys(old_sorted)[k] != name);
                    } else if k > at {
                        assert(sorted@[k] == old_sorted[k - 1]);
                        assert(stream_keys(old_sorted)[k - 1] == old_sorted[k - 1].0@);
                        assert(stream_keys(old_sorted)[k - 1] != name);
                    }
                }
                assert forall|other: Seq<char>| #[trigger] after.dom().contains(other) implies keys.contains(other) by {
                    if other == name {
                        assert(keys[at as int] == name);
                    } else {
                        assert(before.dom().contains(other));
                        assert(stream_keys(old_sorted).contains(other));
                        let j = choose|j: int| 0 <= j < old_sorted.len() && stream_keys(old_sorted)[j] == other;
                        if j < at {
                            assert(keys[j] == other);
                        } else {
                            assert(keys[j + 1] == other);
                        }
                    }
                }
            }
        }
    }
    assert(all.skip(0) =~= all);
    sorted
}

/// The spread of streams whose objects are those a map files under their
/// names is the map's objects gathered by those names.
proof fn lemma_spread_gathered(s: Seq<(String, Vec<ArchiveObject>)>, m: Map<Seq<char>, Seq<ArchiveObject>>)
    requires
        forall|k: int| 0 <= k < s.len() ==> (#[trigger] s[k]).1@ == m[s[k].0@],
    ensures
        spread(s) == gathered(stream_keys(s), m),
    decreases s.len(),
{
    if s.len() > 0 {
        assert forall|k: int| 0 <= k < s.drop_last().len() implies (#[trigger] s.drop_last()[k]).1@ == m[s.drop_last()[k].0@] by {
            assert(s.drop_last()[k] == s[k]);
        }
        lemma_spread_gathered(s.drop_last(), m);
        assert(stream_keys(s).drop_last() =~= stream_keys(s.drop_last()));
        assert(stream_keys(s).last() == s.last().0@);
        assert(s.last() == s[s.len() - 1]);
    }
}

/// The names of streams, and their objects one stream after the other, each
/// with the name of its stream.
fn spread_streams(sorted: Vec<(String, Vec<ArchiveObject>)>) -> (r: (Vec<String>, Vec<(String, ArchiveObject)>))
    ensures
        r.0@.map_values(|n: String| n@) == stream_keys(sorted@),
        named_objects(r.1@) == spread(sorted@),
{
    let ghost all = sorted@;
    let mut pending = reversed(sorted);
    let mut names: Vec<String> = Vec::new();
    let mut objects: Vec<(String, ArchiveObject)> = Vec::new();
    assert(all.take(0) =~= Seq::<(String, Vec<ArchiveObject>)>::empty());
    assert(names@.map_values(|n: String| n@) =~= stream_keys(all.take(0)));
    assert(named_objects(objects@) =~= spread(all.take(0)));
    while pending.len() > 0
        invariant
            pending@.len() <= all.len(),
            forall|i: int| 0 <= i < pending@.len() ==> pending@[i] == all[all.len() - 1 - i],
            names@.map_values(|n: String| n@) == stream_keys(all.take(all.len() - pending@.len())),
            named_objects(objects@) == spread(all.take(all.len() - pending@.len())),
        decreases pending@.len(),
    {
        let ghost done = all.len() - pending@.len();
        let entry = pending.pop().unwrap();
        assert(entry == all[done]);
        let (name, stream) = entry;
        let ghost before = objects@;
        let ghost items = stream@;
        let mut queue = reversed(stream);
        assert(items.take(0) =~= Seq::<ArchiveObject>::empty());
        assert(named_objects(objects@) =~= named_objects(before) + items.take(0).map_values(
            |o: ArchiveObject| (name@, o),
        ));
        while queue.len() > 0
            invariant
                queue@.len() <= items.len(),
                forall|i: int| 0 <= i < queue@.len() ==> queue@[i] == items[items.len() - 1 - i],
                named_objects(objects@) == named_objects(before) + items.take(
                    items.len() - queue@.len(),
                ).map_values(|o: ArchiveObject| (name@, o)),
            decreases queue@.len(),
        {
            let ghost taken = items.len() - queue@.len();
            let ghost was = objects@;
            let object = queue.pop().unwrap();
            assert(object == items[taken]);
            let ghost pushed = object;
            objects.push((name.clone(), object));
            assert(named_objects(objects@) =~= named_objects(was).push((name@, pushed)));
            assert(items.take(taken + 1) =~= items.take(taken).push(items[taken]));
            assert(items.take(taken + 1).map_values(|o: ArchiveObject| (name@, o)) =~= items.take(
                taken,
            ).map_values(|o: ArchiveObject| (name@, o)).push((name@, pushed)));
        }
        let ghost names_before = names@;
        names.push(name);
        proof {
            assert(all.take(done + 1).drop_last() =~= all.take(done));
            assert(all.take(done + 1).last() == all[done]);
            assert(items.take(items.len() as int) =~= items);
            assert(names@.map_values(|n: String| n@) =~= names_before.map_values(|n: String| n@).push(
                all[done].0@,
            ));
            assert(stream_keys(all.take(done + 1)) =~= stream_keys(all.take(done)).push(all[done].0@));
        }
    }
    assert(all.take(all.len() as int) =~= all);
    (names, objects)
}

/// An open document: the object streams of a package, decoded, in the order
/// of their names.
pub struct Document {
    kind: Kind,
    names: Vec<String>,
    objects: Vec<(String, ArchiveObject)>,
}

impl Document {
    /// The app that wrote the document.
    pub closed spec fn written_by(&self) -> Kind {
        self.kind
    }

    /// The names of the object streams, in order.
    pub closed spec fn stream_list(&self) -> Seq<Seq<char>> {
        self.names@.map_values(|n: String| n@)
    }

    /// Every object, stream by stream, each with the name of its stream.
    pub closed spec fn object_list(&self) -> Seq<(String, ArchiveObject)> {
        self.objects@
    }

    /// A document from its package's entry names and its object streams, each
    /// decoded: the streams are filed by name in name order, a later stream
    /// replacing an earlier one of the same name, and the app that wrote the
    /// document is told from the entry names and the objects.
    pub fn from_streams(entries: &Vec<String>, streams: Vec<(String, Vec<ArchiveObject>)>) -> (r: Document)
        ensures
            ascending(r.stream_list()),
            forall|name: Seq<char>| #[trigger] filed(streams@).dom().contains(name) <==> r.stream_list().contains(name),
            named_objects(r.object_list()) == gathered(r.stream_list(), filed(streams@)),
            r.written_by() == spec_detect_kind(entries@.map_values(|n: String| n@), r.object_list()),
    {
        let ghost all = streams@;
        let sorted = file_streams(streams);
        let ghost keys = stream_keys(sorted@);
        proof {
            lemma_spread_gathered(sorted@, filed(all));
        }
        let (names, objects) = spread_streams(sorted);
        let kind = detect_kind(entries, &objects);
        let r = Document { kind, names, objects };
        proof {
            assert(r.stream_list() == keys);
            assert forall|name: Seq<char>| #[trigger] filed(all).dom().contains(name) <==> r.stream_list().contains(name) by {
                if r.stream_list().contains(name) {
                    let k = choose|k: int| 0 <= k < keys.len() && keys[k] == name;
                    assert(filed(all).dom().contains(keys[k]));
                }
            }
        }
        r
    }
}

/// A component as a value: what [`Component`] holds, its names as text.
pub struct ComponentView {
    pub identifier: u64,
    pub preferred_name: Seq<char>,
    pub file_name: Seq<char>,
    pub external_reference_count: nat,
}

impl View for Component {
    type V = ComponentView;

    open spec fn view(&self) -> ComponentView {
        ComponentView {
            identifier: self.identifier,
            preferred_name: self.preferred_name@,
            file_name: self.file_name@,
            external_reference_count: self.external_reference_count as nat,
        }
    }
}

/// A media entry as a value: what [`DataFile`] holds, its names as text.
pub struct DataFileView {
    pub identifier: u64,
    pub original_name: Seq<char>,
    pub stored_name: Seq<char>,
    pub asset_path: Seq<char>,
    pub digest: Seq<u8>,
}

impl View for DataFile {
    type V = DataFileView;

    open spec fn view(&self) -> DataFileView {
        DataFileView {
            identifier: self.identifier,
            original_name: self.original_name@,
            stored_name: self.stored_name@,
            asset_path: self.asset_path@,
            digest: self.digest@,
        }
    }
}

/// A text field of the package index: its UTF-8, repaired where it is not
/// well formed, or nothing when the field is absent.
pub open spec fn index_text(bytes: Option<Seq<u8>>) -> Seq<char> {
    match bytes {
        Some(b) => utf8_lossy(b),
        None => Seq::empty(),
    }
}

fn text_field(message: &Message, number: u32) -> (r: String)
    ensures
        r@ == index_text(bytes_field(message@, number)),
{
    match message.bytes(number) {
        Some(b) => lossy_string(b),
        None => String::new(),
    }
}

/// The package index: the first `TSP.PackageMetadata` object's archive,
/// when it is a well-formed message.
pub open spec fn spec_package_metadata(objects: Seq<(String, ArchiveObject)>) -> Option<Seq<SpecField>>
    decreases objects.len(),
{
    if objects.len() == 0 {
        None
    } else if objects[0].1.message_type == TYPE_PACKAGE_METADATA {
        fields_of(objects[0].1.payload@)
    } else {
        spec_package_metadata(objects.drop_first())
    }
}

/// `TSP.ComponentInfo`: its identifier (0 when it has none), its two names,
/// and how many external references it declares.
pub open spec fn component_of(value: SpecValue) -> Option<ComponentView> {
    match value {
        SpecValue::Bytes(raw) => match fields_of(raw) {
            Some(c) => Some(
                ComponentView {
                    identifier: match varint_field(c, 1) {
                        Some(v) => v,
                        None => 0,
                    },
                    preferred_name: index_text(bytes_field(c, 2)),
                    file_name: index_text(bytes_field(c, 3)),
                    external_reference_count: values_with(c, 6).len(),
                },
            ),
            None => None,
        },
        _ => None,
    }
}

pub open spec fn components_of(values: Seq<SpecValue>) -> Seq<ComponentView>
    decreases values.len(),
{
    if values.len() == 0 {
        Seq::empty()
    } else {
        let rest = components_of(values.drop_last());
        match component_of(values.last()) {
            Some(c) => rest.push(c),
            None => rest,
        }
    }
}

/// `TSP.DataInfo`: its identifier (0 when it has none), digest, and names.
pub open spec fn data_file_of(value: SpecValue) -> Option<DataFileView> {
    match value {
        SpecValue::Bytes(raw) => match fields_of(raw) {
            Some(d) => Some(
                DataFileView {
                    identifier: match varint_field(d, 1) {
                        Some(v) => v,
                        None => 0,
                    },
                    digest: match bytes_field(d, 2) {
                        Some(b) => b,
                        None => Seq::empty(),
                    },
                    original_name: index_text(bytes_field(d, 3)),
                    stored_name: index_text(bytes_field(d, 4)),
                    asset_path: index_text(bytes_field(d, 5)),
                },
            ),
            None => None,
        },
        _ => None,
    }
}

pub open spec fn data_files_of(values: Seq<SpecValue>) -> Seq<DataFileView>
    decreases values.len(),
{
    if values.len() == 0 {
        Seq::empty()
    } else {
        let rest = data_files_of(values.drop_last());
        match data_file_of(values.last()) {
            Some(d) => rest.push(d),
            None => rest,
        }
    }
}

/// `k` is where the first object with this identifier stands.
pub open spec fn first_object(objects: Seq<(String, ArchiveObject)>, identifier: u64, k: int) -> bool {
    &&& 0 <= k < objects.len()
    &&& objects[k].1.identifier == identifier
    &&& forall|j: int| 0 <= j < k ==> (#[trigger] objects[j]).1.identifier != identifier
}

/// The highest identifier among the objects, 0 when there are none.
pub open spec fn highest_identifier(objects: Seq<(String, ArchiveObject)>) -> u64
    decreases objects.len(),
{
    if objects.len() == 0 {
        0
    } else {
        let rest = highest_identifier(objects.drop_last());
        if objects.last().1.identifier > rest {
            objects.last().1.identifier
        } else {
            rest
        }
    }
}

/// No object's identifier is above the highest.
proof fn lemma_highest_identifier(objects: Seq<(String, ArchiveObject)>)
    ensures
        forall|k: int| 0 <= k < objects.len() ==> (#[trigger] objects[k]).1.identifier <= highest_identifier(objects),
    decreases objects.len(),
{
    if objects.len() > 0 {
        lemma_highest_identifier(objects.drop_last());
        assert forall|k: int| 0 <= k < objects.len() implies (#[trigger] objects[k]).1.identifier <= highest_identifier(objects) by {
            if k < objects.len() - 1 {
                assert(objects.drop_last()[k] == objects[k]);
            }
        }
    }
}

/// The package's own high-water mark, field 1 of the package index.
pub open spec fn spec_last_object_identifier(objects: Seq<(String, ArchiveObject)>) -> Option<u64> {
    match spec_package_metadata(objects) {
        Some(meta) => varint_field(meta, 1),
        None => None,
    }
}

/// The identifier a new object may take: above every identifier in use and
/// above the package's high-water mark.
pub open spec fn spec_next_object_identifier(objects: Seq<(String, ArchiveObject)>) -> int {
    let mark = match spec_last_object_identifier(objects) {
        Some(v) => v,
        None => 0,
    };
    let highest = highest_identifier(objects);
    (if highest > mark {
        highest
    } else {
        mark
    }) + 1
}

impl Document {
    pub fn kind(&self) -> (r: Kind)
        ensures
            r == self.written_by(),
    {
        self.kind
    }

    /// The names of the object streams, in order.
    pub fn stream_names(&self) -> (r: Vec<&str>)
        ensures
            r@.map_values(|n: &str| n@) == self.stream_list(),
    {
        let mut out: Vec<&str> = Vec::new();
        let mut i: usize = 0;
        while i < self.names.len()
            invariant
                i <= self.names@.len(),
                out@.map_values(|n: &str| n@) == self.names@.take(i as int).map_values(|n: String| n@),
            decreases self.names@.len() - i,
        {
            let ghost was = out@;
            out.push(self.names[i].as_str());
            assert(out@.map_values(|n: &str| n@) =~= was.map_values(|n: &str| n@).push(self.names@[i as int]@));
            assert(self.names@.take(i + 1).map_values(|n: String| n@) =~= self.names@.take(i as int).map_values(
                |n: String| n@,
            ).push(self.names@[i as int]@));
            i = i + 1;
        }
        assert(self.names@.take(i as int) =~= self.names@);
        out
    }

    /// Every object, stream by stream, each with the name of its stream.
    pub fn objects(&self) -> (r: &Vec<(String, ArchiveObject)>)
        ensures
            r@ == self.object_list(),
    {
        &self.objects
    }

    /// The first object with this identifier, and the stream it is in.
    pub fn object(&self, identifier: u64) -> (r: Option<(&str, &ArchiveObject)>)
        ensures
            match r {
                Some((name, object)) => exists|k: int|
                    first_object(self.object_list(), identifier, k) && name@ == self.object_list()[k].0@
                        && *object == self.object_list()[k].1,
                None => forall|k: int|
                    0 <= k < self.object_list().len() ==> (#[trigger] self.object_list()[k]).1.identifier
                        != identifier,
            },
    {
        let mut i: usize = 0;
        while i < self.objects.len()
            invariant
                i <= self.objects@.len(),
                forall|j: int| 0 <= j < i ==> (#[trigger] self.objects@[j]).1.identifier != identifier,
            decreases self.objects@.len() - i,
        {
            if self.objects[i].1.identifier == identifier {
                assert(first_object(self.object_list(), identifier, i as int));
                return Some((self.objects[i].0.as_str(), &self.objects[i].1));
            }
            i = i + 1;
        }
        None
    }

    /// The package index, when the document has one that decodes.
    fn package_metadata(&self) -> (r: Option<Message>)
        ensures
            match spec_package_metadata(self.object_list()) {
                Some(fs) => r matches Some(m) && m@ == fs,
                None => r is None,
            },
    {
        let ghost all = self.objects@;
        let mut k: usize = 0;
        assert(all.skip(0) =~= all);
        while k < self.objects.len()
            invariant
                k <= all.len(),
                all == self.objects@,
                spec_package_metadata(all) == spec_package_metadata(all.skip(k as int)),
            decreases all.len() - k,
        {
            assert(all.skip(k as int).drop_first() =~= all.skip(k + 1));
            assert(all.skip(k as int)[0] == all[k as int]);
            let object = &self.objects[k].1;
            if object.message_type == TYPE_PACKAGE_METADATA {
                return match Message::decode(object.payload.as_slice()) {
                    Ok(m) => Some(m),
                    Err(_) => None,
                };
            }
            k = k + 1;
        }
        None
    }

    /// Every component the package index lists, in order.
    pub fn components(&self) -> (r: Vec<Component>)
        ensures
            r@.map_values(|c: Component| c@) == match spec_package_metadata(self.object_list()) {
                Some(meta) => components_of(values_with(meta, 3)),
                None => Seq::empty(),
            },
    {
        let meta = match self.package_metadata() {
            Some(m) => m,
            None => {
                let out: Vec<Component> = Vec::new();
                assert(out@.map_values(|c: Component| c@) =~= Seq::<ComponentView>::empty());
                return out;
            },
        };
        let values = meta.all(3);
        let ghost vs = values_with(meta@, 3);
        let mut out: Vec<Component> = Vec::new();
        let mut i: usize = 0;
        assert(vs.take(0) =~= Seq::<SpecValue>::empty());
        assert(out@.map_values(|c: Component| c@) =~= components_of(vs.take(0)));
        while i < values.len()
            invariant
                i <= values@.len(),
                values@.len() == vs.len(),
                forall|k: int| 0 <= k < values@.len() ==> values@[k]@ == vs[k],
                out@.map_values(|c: Component| c@) == components_of(vs.take(i as int)),
            decreases values@.len() - i,
        {
            assert(vs.take(i + 1).drop_last() =~= vs.take(i as int));
            assert(vs.take(i + 1).last() == vs[i as int]);
            let ghost was = out@;
            match values[i] {
                Value::Bytes(raw) => {
                    match Message::decode(raw.as_slice()) {
                        Ok(c) => {
                            let identifier = match c.varint(1) {
                                Some(v) => v,
                                None => 0,
                            };
                            let preferred_name = text_field(&c, 2);
                            let file_name = text_field(&c, 3);
                            let external_reference_count = c.all(6).len();
                            let component = Component {
                                identifier,
                                preferred_name,
                                file_name,
                                external_reference_count,
                            };
                            let ghost v = component@;
                            out.push(component);
                            assert(out@.map_values(|c: Component| c@) =~= was.map_values(|c: Component| c@).push(v));
                        },
                        Err(_) => {},
                    }
                },
                _ => {},
            }
            i = i + 1;
        }
        assert(vs.take(i as int) =~= vs);
        out
    }

    /// Every media entry the package index lists, in order.
    pub fn data_files(&self) -> (r: Vec<DataFile>)
        ensures
            r@.map_values(|d: DataFile| d@) == match spec_package_metadata(self.object_list()) {
                Some(meta) => data_files_of(values_with(meta, 4)),
                None => Seq::empty(),
            },
    {
        let meta = match self.package_metadata() {
            Some(m) => m,
            None => {
                let out: Vec<DataFile> = Vec::new();
                assert(out@.map_values(|d: DataFile| d@) =~= Seq::<DataFileView>::empty());
                return out;
            },
        };
        let values = meta.all(4);
        let ghost vs = values_with(meta@, 4);
        let mut out: Vec<DataFile> = Vec::new();
        let mut i: usize = 0;
        assert(vs.take(0) =~= Seq::<SpecValue>::empty());
        assert(out@.map_values(|d: DataFile| d@) =~= data_files_of(vs.take(0)));
        while i < values.len()
            invariant
                i <= values@.len(),
                values@.len() == vs.len(),
                forall|k: int| 0 <= k < values@.len() ==> values@[k]@ == vs[k],
                out@.map_values(|d: DataFile| d@) == data_files_of(vs.take(i as int)),
            decreases values@.len() - i,
        {
            assert(vs.take(i + 1).drop_last() =~= vs.take(i as int));
            assert(vs.take(i + 1).last() == vs[i as int]);
            let ghost was = out@;
            match values[i] {
                Value::Bytes(raw) => {
                    match Message::decode(raw.as_slice()) {
                        Ok(d) => {
                            let identifier = match d.varint(1) {
                                Some(v) => v,
                                None => 0,
                            };
                            let digest = match d.bytes(2) {
                                Some(b) => copy_range(b, 0, b.len()),
                                None => Vec::new(),
                            };
                            let original_name = text_field(&d, 3);
                            let stored_name = text_field(&d, 4);
                            let asset_path = text_field(&d, 5);
                            let file = DataFile { identifier, original_name, stored_name, asset_path, digest };
                            let ghost v = file@;
                            assert(v.digest == match bytes_field(d@, 2) {
                                Some(b) => b,
                                None => Seq::<u8>::empty(),
                            });
                            out.push(file);
                            assert(out@.map_values(|d: DataFile| d@) =~= was.map_values(|d: DataFile| d@).push(v));
                        },
                        Err(_) => {},
                    }
                },
                _ => {},
            }
            i = i + 1;
        }
        assert(vs.take(i as int) =~= vs);
        out
    }

    /// The highest object identifier the document has ever allocated, field
    /// 1 of the package index.
    pub fn last_object_identifier(&self) -> (r: Option<u64>)
        ensures
            r == spec_last_object_identifier(self.object_list()),
    {
        match self.package_metadata() {
            Some(meta) => meta.varint(1),
            None => None,
        }
    }

    /// An identifier a new object may take: above every identifier in use and
    /// above the package's own high-water mark.
    pub fn next_object_identifier(&self) -> (r: u64)
        requires
            spec_next_object_identifier(self.object_list()) <= u64::MAX,
        ensures
            r == spec_next_object_identifier(self.object_list()),
            forall|k: int| 0 <= k < self.object_list().len() ==> (#[trigger] self.object_list()[k]).1.identifier < r,
            spec_last_object_identifier(self.object_list()) matches Some(mark) ==> mark < r,
    {
        proof {
            lemma_highest_identifier(self.objects@);
        }
        let mut highest: u64 = 0;
        let mut i: usize = 0;
        assert(self.objects@.take(0) =~= Seq::<(String, ArchiveObject)>::empty());
        while i < self.objects.len()
            invariant
                i <= self.objects@.len(),
                highest == highest_identifier(self.objects@.take(i as int)),
            decreases self.objects@.len() - i,
        {
            assert(self.objects@.take(i + 1).drop_last() =~= self.objects@.take(i as int));
            assert(self.objects@.take(i + 1).last() == self.objects@[i as int]);
            if self.objects[i].1.identifier > highest {
                highest = self.objects[i].1.identifier;
            }
            i = i + 1;
        }
        assert(self.objects@.take(i as int) =~= self.objects@);
        let mark = match self.last_object_identifier() {
            Some(v) => v,
            None => 0,
        };
        let top = if highest > mark {
            highest
        } else {
            mark
        };
        top + 1
    }

    /// Any object's archive, decoded at the wire level: the fields come back
    /// as they were written, in the order they were written.
    pub fn archive(&self, identifier: u64) -> (r: Result<Message, Error>)
        ensures
            match r {
                Ok(m) => exists|k: int|
                    first_object(self.object_list(), identifier, k) && fields_of(
                        self.object_list()[k].1.payload@,
                    ) == Some(m@),
                Err(Error::NoSuchObject(x)) => x == identifier && forall|k: int|
                    0 <= k < self.object_list().len() ==> (#[trigger] self.object_list()[k]).1.identifier
                        != identifier,
                Err(Error::Format(text)) => exists|k: int|
                    first_object(self.object_list(), identifier, k) && text@ == malformed_text(
                        self.object_list()[k].0@,
                        "object"@,
                        identifier,
                    ) && fields_of(self.object_list()[k].1.payload@) is None,
            },
    {
        match self.object(identifier) {
            Some((name, object)) => match Message::decode(object.payload.as_slice()) {
                Ok(m) => Ok(m),
                Err(_) => Err(malformed(name, "object", identifier)),
            },
            None => Err(Error::NoSuchObject(identifier)),
        }
    }
}

impl Document {
    /// Point a hyperlink at a different address.
    ///
    /// The whole of a link is field 2 of its `TSWP.HyperlinkFieldArchive`, so
    /// changing it is changing that one field of one object; what the text
    /// says is separate and stays as it was. Refused, with the document as it
    /// was, when no object has the identifier, when the first that has it is
    /// not a hyperlink, or when its archive does not decode.
    pub fn set_link_url(&mut self, identifier: u64, url: &str) -> (r: Result<(), Error>)
        ensures
            final(self).written_by() == old(self).written_by(),
            final(self).stream_list() == old(self).stream_list(),
            final(self).object_list().len() == old(self).object_list().len(),
            match r {
                Ok(()) => exists|k: int|
                    {
                        &&& first_object(old(self).object_list(), identifier, k)
                        &&& old(self).object_list()[k].1.message_type == TYPE_HYPERLINK_FIELD
                        &&& fields_of(old(self).object_list()[k].1.payload@) matches Some(fs)
                        &&& final(self).object_list()[k].0 == old(self).object_list()[k].0
                        &&& final(self).object_list()[k].1.identifier == identifier
                        &&& final(self).object_list()[k].1.message_type == TYPE_HYPERLINK_FIELD
                        &&& final(self).object_list()[k].1.payload@ == fields_bytes(
                            set_in_order_spec(fs, 2, SpecValue::Bytes(encode_utf8(url@))),
                        )
                        &&& forall|j: int|
                            0 <= j < old(self).object_list().len() && j != k ==> final(self).object_list()[j]
                                == old(self).object_list()[j]
                    },
                Err(Error::NoSuchObject(x)) => {
                    &&& x == identifier
                    &&& final(self).object_list() == old(self).object_list()
                    &&& forall|k: int|
                        0 <= k < old(self).object_list().len() ==> (#[trigger] old(
                            self,
                        ).object_list()[k]).1.identifier != identifier
                },
                Err(Error::Format(text)) => {
                    &&& final(self).object_list() == old(self).object_list()
                    &&& exists|k: int|
                        first_object(old(self).object_list(), identifier, k) && ((old(self).object_list()[k].1.message_type
                            != TYPE_HYPERLINK_FIELD && text@ == not_a_hyperlink_text(
                            identifier,
                            old(self).object_list()[k].1.message_type,
                        )) || (old(self).object_list()[k].1.message_type == TYPE_HYPERLINK_FIELD
                            && text@ == malformed_text(old(self).object_list()[k].0@, "link"@, identifier)
                            && fields_of(old(self).object_list()[k].1.payload@) is None))
                },
            },
    {
        let i = match self.locate(identifier) {
            Some(i) => i,
            None => {
                return Err(Error::NoSuchObject(identifier));
            },
        };
        let message_type = self.objects[i].1.message_type;
        if message_type != TYPE_HYPERLINK_FIELD {
            return Err(not_a_hyperlink(identifier, message_type));
        }
        let mut archive = match Message::decode(self.objects[i].1.payload.as_slice()) {
            Ok(m) => m,
            Err(_) => {
                return Err(malformed(self.objects[i].0.as_str(), "link", identifier));
            },
        };
        let link = crate::create::string(2, url);
        archive.set_in_order(2, link.value);
        let payload = archive.encode();
        let name = self.objects[i].0.clone();
        self.objects.set(i, (name, ArchiveObject { identifier, message_type, payload }));
        Ok(())
    }

    /// Where the first object with this identifier stands.
    fn locate(&self, identifier: u64) -> (r: Option<usize>)
        ensures
            match r {
                Some(i) => first_object(self.object_list(), identifier, i as int),
                None => forall|k: int|
                    0 <= k < self.object_list().len() ==> (#[trigger] self.object_list()[k]).1.identifier
                        != identifier,
            },
    {
        let mut i: usize = 0;
        while i < self.objects.len()
            invariant
                i <= self.objects@.len(),
                forall|j: int| 0 <= j < i ==> (#[trigger] self.objects@[j]).1.identifier != identifier,
            decreases self.objects@.len() - i,
        {
            if self.objects[i].1.identifier == identifier {
                return Some(i);
            }
            i = i + 1;
        }
        None
    }
}

/// A link pointed at an address reads that address back: the archive
/// `set_link_url` writes decodes again, its field 2 holds the address's
/// UTF-8, and every other field reads as it did.
pub proof fn law_link_reads_back(payload: Seq<u8>, url: Seq<char>, other: u32)
    requires
        fields_of(payload) is Some,
        encode_utf8(url).len() <= u64::MAX,
        other != 2,
    ensures
        ({
            let fs = fields_of(payload).unwrap();
            let written = set_in_order_spec(fs, 2, SpecValue::Bytes(encode_utf8(url)));
            &&& fields_of(fields_bytes(written)) == Some(written)
            &&& bytes_field(written, 2) == Some(encode_utf8(url))
            &&& first_with(written, other) == first_with(fs, other)
        }),
{
    let fs = fields_of(payload).unwrap();
    let v = SpecValue::Bytes(encode_utf8(url));
    let written = set_in_order_spec(fs, 2, v);
    let field = SpecField { number: 2, value: v };
    lemma_fields_of_encodable(payload);
    lemma_index_of_first(fs, 2);
    lemma_insertion_point(fs, 2);
    assert(field_is_encodable(field));
    assert forall|i: int| 0 <= i < written.len() implies field_is_encodable(#[trigger] written[i]) by {
        match index_of_first(fs, 2) {
            Some(at) => {
                if i != at {
                    assert(written[i] == fs[i]);
                }
            },
            None => {
                let at = insertion_point(fs, 2) as int;
                if i < at {
                    assert(written[i] == fs[i]);
                } else if i > at {
                    assert(written[i] == fs[i - 1]);
                }
            },
        }
    }
    lemma_message_roundtrip(written);
    law_set_in_order_then_get(fs, 2, v, other);
}

/// `m` is where the first `TSP.PackageMetadata` object stands.
pub open spec fn first_metadata(objects: Seq<(String, ArchiveObject)>, m: int) -> bool {
    &&& 0 <= m < objects.len()
    &&& objects[m].1.message_type == TYPE_PACKAGE_METADATA
    &&& forall|j: int| 0 <= j < m ==> (#[trigger] objects[j]).1.message_type != TYPE_PACKAGE_METADATA
}

/// The package index is what the first `TSP.PackageMetadata` object decodes to.
proof fn lemma_package_metadata_at(objects: Seq<(String, ArchiveObject)>, m: int)
    requires
        first_metadata(objects, m),
    ensures
        spec_package_metadata(objects) == fields_of(objects[m].1.payload@),
    decreases m,
{
    if m > 0 {
        assert(objects[0].1.message_type != TYPE_PACKAGE_METADATA);
        assert forall|j: int| 0 <= j < m - 1 implies (#[trigger] objects.drop_first()[j]).1.message_type
            != TYPE_PACKAGE_METADATA by {
            assert(objects.drop_first()[j] == objects[j + 1]);
        }
        lemma_package_metadata_at(objects.drop_first(), m - 1);
    }
}

/// With no `TSP.PackageMetadata` object there is no package index.
proof fn lemma_no_package_metadata(objects: Seq<(String, ArchiveObject)>)
    requires
        forall|j: int| 0 <= j < objects.len() ==> (#[trigger] objects[j]).1.message_type != TYPE_PACKAGE_METADATA,
    ensures
        spec_package_metadata(objects) is None,
    decreases objects.len(),
{
    if objects.len() > 0 {
        assert forall|j: int| 0 <= j < objects.drop_first().len() implies (#[trigger] objects.drop_first()[j]).1.message_type
            != TYPE_PACKAGE_METADATA by {
            assert(objects.drop_first()[j] == objects[j + 1]);
        }
        lemma_no_package_metadata(objects.drop_first());
    }
}

impl Document {
    /// Replace the archive of the object at `i`, keeping its stream, its
    /// identifier and its type.
    fn replace_payload(&mut self, i: usize, payload: Vec<u8>)
        requires
            i < old(self).objects@.len(),
        ensures
            final(self).kind == old(self).kind,
            final(self).names@ == old(self).names@,
            final(self).objects@ == old(self).objects@.update(
                i as int,
                (
                    old(self).objects@[i as int].0,
                    ArchiveObject {
                        identifier: old(self).objects@[i as int].1.identifier,
                        message_type: old(self).objects@[i as int].1.message_type,
                        payload,
                    },
                ),
            ),
    {
        let name = self.objects[i].0.clone();
        let identifier = self.objects[i].1.identifier;
        let message_type = self.objects[i].1.message_type;
        self.objects.set(i, (name, ArchiveObject { identifier, message_type, payload }));
    }

    /// Write an archive in place of the first object with this identifier,
    /// which keeps its stream and its type.
    pub fn set_archive(&mut self, identifier: u64, archive: &Message) -> (r: Result<(), Error>)
        ensures
            final(self).written_by() == old(self).written_by(),
            final(self).stream_list() == old(self).stream_list(),
            final(self).object_list().len() == old(self).object_list().len(),
            match r {
                Ok(()) => exists|k: int|
                    {
                        &&& first_object(old(self).object_list(), identifier, k)
                        &&& final(self).object_list()[k].0 == old(self).object_list()[k].0
                        &&& final(self).object_list()[k].1.identifier == identifier
                        &&& final(self).object_list()[k].1.message_type == old(self).object_list()[k].1.message_type
                        &&& final(self).object_list()[k].1.payload@ == fields_bytes(archive@)
                        &&& forall|j: int|
                            0 <= j < old(self).object_list().len() && j != k ==> final(self).object_list()[j]
                                == old(self).object_list()[j]
                    },
                Err(Error::NoSuchObject(x)) => {
                    &&& x == identifier
                    &&& final(self).object_list() == old(self).object_list()
                    &&& forall|k: int|
                        0 <= k < old(self).object_list().len() ==> (#[trigger] old(
                            self,
                        ).object_list()[k]).1.identifier != identifier
                },
                Err(_) => false,
            },
    {
        let i = match self.locate(identifier) {
            Some(i) => i,
            None => {
                return Err(Error::NoSuchObject(identifier));
            },
        };
        let payload = archive.encode();
        self.replace_payload(i, payload);
        Ok(())
    }

    /// Raise the package's high-water mark, field 1 of the package index, to
    /// at least `value`, so that the app does not hand out an identifier this
    /// library has already used.
    ///
    /// The index is the first `TSP.PackageMetadata` object; the archive
    /// rewritten is that of the first object carrying its identifier. Nothing
    /// changes when the mark is already `value` or above, and nothing when the
    /// document has no index or the archive does not decode, which are the
    /// errors.
    #[verifier::spinoff_prover]
    pub fn set_last_object_identifier(&mut self, value: u64) -> (r: Result<(), Error>)
        ensures
            final(self).written_by() == old(self).written_by(),
            final(self).stream_list() == old(self).stream_list(),
            final(self).object_list().len() == old(self).object_list().len(),
            match r {
                Ok(()) => exists|m: int, k: int|
                    #![trigger first_metadata(old(self).object_list(), m), first_object(old(self).object_list(), old(self).object_list()[m].1.identifier, k)]
                    {
                        &&& first_metadata(old(self).object_list(), m)
                        &&& first_object(old(self).object_list(), old(self).object_list()[m].1.identifier, k)
                        &&& fields_of(old(self).object_list()[k].1.payload@) matches Some(fs)
                        &&& if (match varint_field(fs, 1) {
                            Some(v) => v,
                            None => 0,
                        }) < value {
                            &&& final(self).object_list()[k].0 == old(self).object_list()[k].0
                            &&& final(self).object_list()[k].1.identifier == old(self).object_list()[k].1.identifier
                            &&& final(self).object_list()[k].1.message_type == old(self).object_list()[k].1.message_type
                            &&& final(self).object_list()[k].1.payload@ == fields_bytes(
                                set_spec(fs, 1, SpecValue::Varint(value)),
                            )
                            &&& forall|j: int|
                                0 <= j < old(self).object_list().len() && j != k ==> final(self).object_list()[j]
                                    == old(self).object_list()[j]
                        } else {
                            final(self).object_list() == old(self).object_list()
                        }
                    },
                Err(Error::Format(text)) => final(self).object_list() == old(self).object_list() && ((
                text@ == no_package_index_text() && forall|j: int|
                    0 <= j < old(self).object_list().len() ==> (#[trigger] old(
                        self,
                    ).object_list()[j]).1.message_type != TYPE_PACKAGE_METADATA) || (text@
                    == malformed_index_text() && exists|m: int, k: int|
                    #![trigger first_metadata(old(self).object_list(), m), first_object(old(self).object_list(), old(self).object_list()[m].1.identifier, k)]
                    {
                        &&& first_metadata(old(self).object_list(), m)
                        &&& first_object(old(self).object_list(), old(self).object_list()[m].1.identifier, k)
                        &&& fields_of(old(self).object_list()[k].1.payload@) is None
                    })),
                Err(_) => false,
            },
            r is Ok && (exists|m: int|
                first_metadata(old(self).object_list(), m) && first_object(
                    old(self).object_list(),
                    old(self).object_list()[m].1.identifier,
                    m,
                )) ==> (match spec_last_object_identifier(final(self).object_list()) {
                Some(mark) => mark,
                None => 0,
            }) >= value,
    {
        let mut m: usize = 0;
        while m < self.objects.len() && self.objects[m].1.message_type != TYPE_PACKAGE_METADATA
            invariant
                m <= self.objects@.len(),
                forall|j: int| 0 <= j < m ==> (#[trigger] self.objects@[j]).1.message_type != TYPE_PACKAGE_METADATA,
            decreases self.objects@.len() - m,
        {
            m = m + 1;
        }
        if m == self.objects.len() {
            return Err(no_package_index());
        }
        assert(first_metadata(self.object_list(), m as int));
        let metadata = self.objects[m].1.identifier;
        let k = match self.locate(metadata) {
            Some(k) => k,
            None => {
                assert(self.objects@[m as int].1.identifier == metadata);
                return Err(Error::NoSuchObject(metadata));
            },
        };
        let mut archive = match Message::decode(self.objects[k].1.payload.as_slice()) {
            Ok(a) => a,
            Err(_) => {
                assert(first_object(self.object_list(), self.object_list()[m as int].1.identifier, k as int));
                assert(exists|mm: int, kk: int|
                    #![trigger first_metadata(old(self).object_list(), mm), first_object(old(self).object_list(), old(self).object_list()[mm].1.identifier, kk)]
                    {
                        &&& first_metadata(old(self).object_list(), mm)
                        &&& first_object(old(self).object_list(), old(self).object_list()[mm].1.identifier, kk)
                        &&& fields_of(old(self).object_list()[kk].1.payload@) is None
                    });
                return Err(malformed_index());
            },
        };
        let ghost fs = archive@;
        let mark = match archive.varint(1) {
            Some(v) => v,
            None => 0,
        };
        let ghost before = self.objects@;
        if mark < value {
            archive.set(1, Value::Varint(value));
            let payload = archive.encode();
            self.replace_payload(k, payload);
            proof {
                if m == k {
                    let after = self.objects@;
                    let written = set_spec(fs, 1, SpecValue::Varint(value));
                    assert(first_metadata(after, m as int)) by {
                        assert forall|j: int| 0 <= j < m implies (#[trigger] after[j]).1.message_type
                            != TYPE_PACKAGE_METADATA by {
                            assert(after[j] == before[j]);
                        }
                    }
                    lemma_package_metadata_at(after, m as int);
                    lemma_fields_of_encodable(before[k as int].1.payload@);
                    lemma_index_of_first(fs, 1);
                    assert forall|i: int| 0 <= i < written.len() implies field_is_encodable(#[trigger] written[i]) by {
                        match index_of_first(fs, 1) {
                            Some(at) => {
                                if i != at {
                                    assert(written[i] == fs[i]);
                                }
                            },
                            None => {
                                if i < fs.len() {
                                    assert(written[i] == fs[i]);
                                }
                            },
                        }
                    }
                    lemma_message_roundtrip(written);
                    law_set_then_get(fs, 1, SpecValue::Varint(value), 2);
                }
            }
        } else {
            proof {
                if m == k {
                    lemma_package_metadata_at(before, m as int);
                }
            }
        }
        Ok(())
    }
}

} // verus!
