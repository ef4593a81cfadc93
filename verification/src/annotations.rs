//! Comments and change tracking — the review layer.
//!
//! A comment is anchored from one of three places: a highlight table of a
//! text storage (through a `TSWP.HighlightArchive`), the `comment` field of a
//! drawable archive, or a cell's comment list. A tracked change is an entry of
//! a storage's insertion or deletion table.
//!
//! **The anchor tables are one level deeper than the schema reads.** A
//! storage's field 21/22/23/25 is the *table* — a wrapper whose repeated
//! field 1 holds the `{character_index, reference}` entries, exactly like
//! every other attribute table. Decoding the field as though it were an entry
//! finds nothing, and every comment reports unattached.

use std::collections::{BTreeMap, BTreeSet};

use vstd::prelude::*;
use vstd::std_specs::btree::{increasing_seq, spec_btree_map_iter};
use vstd::std_specs::cmp::OrdSpec;
use vstd::std_specs::iter::IteratorSpec;

use crate::chars::{decimal, push_decimal, push_str, to_string};
use crate::formula::nested_field;
use crate::pb::{
    decode_nested, first_with, nested_of, varint_field, Field, Message, SpecField, SpecValue,
    Value,
};

verus! {

broadcast use vstd::std_specs::btree::group_btree_axioms, vstd::laws_cmp::group_laws_cmp;

/// `TSWP.StorageArchive` — a text storage.
pub const TYPE_STORAGE: u32 = 2001;
/// `TSK.AnnotationAuthorArchive` — a comment or change author.
pub const TYPE_AUTHOR: u32 = 212;
/// `TSK.AnnotationAuthorStorageArchive` — the document's list of them.
pub const TYPE_AUTHOR_STORAGE: u32 = 213;
/// `TSD.CommentStorageArchive` — a comment, or one reply to one.
pub const TYPE_COMMENT_STORAGE: u32 = 3056;
/// `TSWP.CommentInfoArchive` — the floating bubble a text comment is drawn as.
pub const TYPE_COMMENT_INFO: u32 = 2014;
/// `TSWP.HighlightArchive` — a comment's anchor in text.
pub const TYPE_HIGHLIGHT: u32 = 2013;
/// `TSWP.ChangeArchive` — one tracked insertion or deletion.
pub const TYPE_CHANGE: u32 = 2060;
/// `TSK.DeprecatedChangeAuthorArchive` — a pre-collaboration change author.
pub const TYPE_DEPRECATED_CHANGE_AUTHOR: u32 = 2061;
/// `TSWP.ChangeSessionArchive` — an editing session, with its author and date.
pub const TYPE_CHANGE_SESSION: u32 = 2062;
/// `TST.TableDataList.ListType.COMMENT_STORAGE` — the list a cell's comment is
/// an entry of.
pub const CELL_COMMENT_LIST: u32 = 10;

/// `TSWP.StorageArchive.table_insertion` — tracked insertions.
pub const INSERTION_TABLE: u32 = 21;
/// `table_deletion` — tracked deletions, whose characters stay in the text.
pub const DELETION_TABLE: u32 = 22;
/// `table_highlight` — a run table of comment anchors.
pub const HIGHLIGHT_TABLE: u32 = 23;
/// `table_overlapping_highlight` — anchors with a length of their own.
pub const OVERLAPPING_HIGHLIGHT_TABLE: u32 = 25;

/// The schema's name for one of the storage's anchor tables.
pub open spec fn spec_table_name(field: u32) -> Option<Seq<char>> {
    if field == 21 {
        Some("table_insertion"@)
    } else if field == 22 {
        Some("table_deletion"@)
    } else if field == 23 {
        Some("table_highlight"@)
    } else if field == 25 {
        Some("table_overlapping_highlight"@)
    } else {
        None
    }
}

pub fn table_name(field: u32) -> (r: Option<&'static str>)
    ensures
        match spec_table_name(field) {
            Some(t) => r matches Some(s) && s@ == t,
            None => r is None,
        },
{
    if field == INSERTION_TABLE {
        Some("table_insertion")
    } else if field == DELETION_TABLE {
        Some("table_deletion")
    } else if field == HIGHLIGHT_TABLE {
        Some("table_highlight")
    } else if field == OVERLAPPING_HIGHLIGHT_TABLE {
        Some("table_overlapping_highlight")
    } else {
        None
    }
}

/// What a comment is attached to.
#[derive(Debug, Clone, Copy, PartialEq, Eq, Structural)]
pub enum Anchor {
    /// A range of text: an entry in `table_highlight` (23) or
    /// `table_overlapping_highlight` (25) of this storage.
    Text {
        storage: u64,
        /// Field number of the table the entry came from — 23 or 25.
        table: u32,
        /// First character covered, in UTF-16 code units.
        start: u64,
        /// How many characters, where the table says so. `table_highlight` is a
        /// run table and does not: its entry reaches to the next one.
        length: Option<u64>,
    },
    /// An image, a shape, a table or a chart: `TSD.DrawableArchive.comment`.
    Drawable(u64),
    /// A cell of a table, through `TST.CommentStorageWrapperArchive`.
    Cell(u64),
    /// A `TSWP.CommentInfoArchive` — the bubble, whose own anchor is the
    /// highlight in the text it points at.
    Bubble(u64),
    /// A reply: it hangs off another comment, not off the document.
    ReplyTo(u64),
    /// The comment is in the document and nothing this crate walks points at
    /// it. Reported rather than dropped.
    Unattached,
}

/// An anchor in words.
pub open spec fn spec_anchor_text(a: Anchor) -> Seq<char> {
    match a {
        Anchor::Text { storage, table, start, length } => {
            let name = match spec_table_name(table) {
                Some(n) => n,
                None => seq!['?'],
            };
            match length {
                Some(n) => "storage "@ + decimal(storage as nat) + seq![' '] + decimal(start as nat)
                    + ".."@ + decimal((start + n) as nat) + " ("@ + name + seq![')'],
                None => "storage "@ + decimal(storage as nat) + " from "@ + decimal(start as nat)
                    + " ("@ + name + seq![')'],
            }
        },
        Anchor::Drawable(id) => "drawable "@ + decimal(id as nat),
        Anchor::Cell(id) => "cell storage "@ + decimal(id as nat),
        Anchor::Bubble(id) => "comment shape "@ + decimal(id as nat),
        Anchor::ReplyTo(id) => "reply to comment "@ + decimal(id as nat),
        Anchor::Unattached => "unattached"@,
    }
}

impl Anchor {
    pub fn as_str(&self) -> (r: String)
        requires
            (*self) matches Anchor::Text { start, length: Some(n), .. } ==> start + n <= u64::MAX,
        ensures
            r@ == spec_anchor_text(*self),
    {
        let mut out: Vec<char> = Vec::new();
        match *self {
            Anchor::Text { storage, table, start, length } => {
                push_str(&mut out, "storage ");
                push_decimal(&mut out, storage);
                match length {
                    Some(n) => {
                        out.push(' ');
                        push_decimal(&mut out, start);
                        push_str(&mut out, "..");
                        push_decimal(&mut out, start + n);
                    },
                    None => {
                        push_str(&mut out, " from ");
                        push_decimal(&mut out, start);
                    },
                }
                push_str(&mut out, " (");
                match table_name(table) {
                    Some(name) => push_str(&mut out, name),
                    None => out.push('?'),
                }
                out.push(')');
            },
            Anchor::Drawable(id) => {
                push_str(&mut out, "drawable ");
                push_decimal(&mut out, id);
            },
            Anchor::Cell(id) => {
                push_str(&mut out, "cell storage ");
                push_decimal(&mut out, id);
            },
            Anchor::Bubble(id) => {
                push_str(&mut out, "comment shape ");
                push_decimal(&mut out, id);
            },
            Anchor::ReplyTo(id) => {
                push_str(&mut out, "reply to comment ");
                push_decimal(&mut out, id);
            },
            Anchor::Unattached => {
                push_str(&mut out, "unattached");
            },
        }
        assert(out@ =~= spec_anchor_text(*self));
        to_string(&out)
    }
}

/// `TSWP.ChangeArchive.ChangeKind`.
///
/// **There is no zero value**: insertion is 1 and deletion is 2. An archive
/// whose kind field is absent or zero is therefore not an insertion — it is an
/// archive this crate does not understand, which is what
/// [`ChangeKind::Unknown`] says.
#[derive(Debug, Clone, Copy, PartialEq, Eq, Structural)]
pub enum ChangeKind {
    Insertion,
    Deletion,
    Unknown(u64),
}

pub open spec fn spec_change_kind(value: Option<u64>) -> ChangeKind {
    match value {
        Some(v) => if v == 1 {
            ChangeKind::Insertion
        } else if v == 2 {
            ChangeKind::Deletion
        } else {
            ChangeKind::Unknown(v)
        },
        None => ChangeKind::Unknown(0),
    }
}

impl ChangeKind {
    pub fn from_varint(value: Option<u64>) -> (r: ChangeKind)
        ensures
            r == spec_change_kind(value),
    {
        match value {
            Some(1) => ChangeKind::Insertion,
            Some(2) => ChangeKind::Deletion,
            Some(v) => ChangeKind::Unknown(v),
            None => ChangeKind::Unknown(0),
        }
    }

    pub fn as_str(self) -> (r: &'static str)
        ensures
            r@ == (match self {
                ChangeKind::Insertion => "insertion"@,
                ChangeKind::Deletion => "deletion"@,
                ChangeKind::Unknown(_) => "unknown kind"@,
            }),
    {
        match self {
            ChangeKind::Insertion => "insertion",
            ChangeKind::Deletion => "deletion",
            ChangeKind::Unknown(_) => "unknown kind",
        }
    }
}

// -- references --------------------------------------------------------------------------

/// The object a field's `TSP.Reference` names.
pub open spec fn spec_reference_at(fs: Seq<SpecField>, field: u32) -> Option<u64> {
    match nested_field(fs, field) {
        Some(m) => crate::pb::spec_reference_target(m),
        None => None,
    }
}

pub fn reference(message: &Message, field: u32) -> (r: Option<u64>)
    ensures
        r == spec_reference_at(message@, field),
{
    match crate::formula::nested(message, field) {
        Some(m) => crate::pb::reference_target(&m),
        None => None,
    }
}

/// The object a value names, when it is a `TSP.Reference`.
pub open spec fn value_reference(v: SpecValue) -> Option<u64> {
    match v {
        SpecValue::Bytes(b) => match nested_of(b) {
            Some(m) => crate::pb::spec_reference_target(m),
            None => None,
        },
        _ => None,
    }
}

/// Every object the fields with this number name, in order.
pub open spec fn spec_references(fs: Seq<SpecField>, field: u32) -> Seq<u64>
    decreases fs.len(),
{
    if fs.len() == 0 {
        Seq::empty()
    } else {
        let rest = spec_references(fs.drop_last(), field);
        if fs.last().number == field {
            match value_reference(fs.last().value) {
                Some(t) => rest.push(t),
                None => rest,
            }
        } else {
            rest
        }
    }
}

fn value_reference_of(v: &Value) -> (r: Option<u64>)
    ensures
        r == value_reference(v@),
{
    match v {
        Value::Bytes(b) => match decode_nested(b.as_slice()) {
            Some(m) => crate::pb::reference_target(&m),
            None => None,
        },
        _ => None,
    }
}

pub fn references(message: &Message, field: u32) -> (r: Vec<u64>)
    ensures
        r@ == spec_references(message@, field),
{
    let mut out: Vec<u64> = Vec::new();
    let mut i: usize = 0;
    while i < message.fields.len()
        invariant
            i <= message.fields@.len(),
            message@.len() == message.fields@.len(),
            out@ == spec_references(message@.take(i as int), field),
        decreases message.fields@.len() - i,
    {
        assert(message@.take(i + 1).drop_last() =~= message@.take(i as int));
        assert(message@.take(i + 1).last() == message.fields@[i as int]@);
        let f = &message.fields[i];
        if f.number == field {
            match value_reference_of(&f.value) {
                Some(t) => out.push(t),
                None => {},
            }
        }
        i = i + 1;
    }
    assert(message@.take(message.fields@.len() as int) =~= message@);
    out
}

// -- anchor tables ---------------------------------------------------------------------------

/// The entries of one anchor table: its repeated field 1, each a nested
/// message.
pub open spec fn table_rows(table: Seq<SpecField>) -> Seq<Seq<SpecField>>
    decreases table.len(),
{
    if table.len() == 0 {
        Seq::empty()
    } else {
        let rest = table_rows(table.drop_last());
        let f = table.last();
        if f.number == 1 {
            match f.value {
                SpecValue::Bytes(b) => match nested_of(b) {
                    Some(entry) => rest.push(entry),
                    None => rest,
                },
                _ => rest,
            }
        } else {
            rest
        }
    }
}

/// Every entry of every table a storage keeps at `field`, in order.
pub open spec fn table_entries(storage: Seq<SpecField>, field: u32) -> Seq<Seq<SpecField>>
    decreases storage.len(),
{
    if storage.len() == 0 {
        Seq::empty()
    } else {
        let rest = table_entries(storage.drop_last(), field);
        let f = storage.last();
        if f.number == field {
            match f.value {
                SpecValue::Bytes(b) => match nested_of(b) {
                    Some(table) => rest + table_rows(table),
                    None => rest,
                },
                _ => rest,
            }
        } else {
            rest
        }
    }
}

fn rows_of(table: &Message) -> (r: Vec<Message>)
    ensures
        r@.len() == table_rows(table@).len(),
        forall|i: int| 0 <= i < r@.len() ==> #[trigger] r@[i]@ == table_rows(table@)[i],
{
    let mut out: Vec<Message> = Vec::new();
    let mut i: usize = 0;
    while i < table.fields.len()
        invariant
            i <= table.fields@.len(),
            table@.len() == table.fields@.len(),
            out@.len() == table_rows(table@.take(i as int)).len(),
            forall|k: int|
                0 <= k < out@.len() ==> #[trigger] out@[k]@ == table_rows(table@.take(i as int))[k],
        decreases table.fields@.len() - i,
    {
        assert(table@.take(i + 1).drop_last() =~= table@.take(i as int));
        assert(table@.take(i + 1).last() == table.fields@[i as int]@);
        let f = &table.fields[i];
        if f.number == 1 {
            match &f.value {
                Value::Bytes(b) => match decode_nested(b.as_slice()) {
                    Some(entry) => out.push(entry),
                    None => {},
                },
                _ => {},
            }
        }
        i = i + 1;
    }
    assert(table@.take(table.fields@.len() as int) =~= table@);
    out
}

/// Every entry of every table a storage keeps at `field`.
pub fn entries_of(storage: &Message, field: u32) -> (r: Vec<Message>)
    ensures
        r@.len() == table_entries(storage@, field).len(),
        forall|i: int| 0 <= i < r@.len() ==> #[trigger] r@[i]@ == table_entries(storage@, field)[i],
{
    let mut out: Vec<Message> = Vec::new();
    let mut i: usize = 0;
    while i < storage.fields.len()
        invariant
            i <= storage.fields@.len(),
            storage@.len() == storage.fields@.len(),
            out@.len() == table_entries(storage@.take(i as int), field).len(),
            forall|k: int|
                0 <= k < out@.len() ==> #[trigger] out@[k]@ == table_entries(
                    storage@.take(i as int),
                    field,
                )[k],
        decreases storage.fields@.len() - i,
    {
        assert(storage@.take(i + 1).drop_last() =~= storage@.take(i as int));
        assert(storage@.take(i + 1).last() == storage.fields@[i as int]@);
        let f = &storage.fields[i];
        if f.number == field {
            match &f.value {
                Value::Bytes(b) => match decode_nested(b.as_slice()) {
                    Some(table) => {
                        let rows = rows_of(&table);
                        let ghost before = table_entries(storage@.take(i as int), field);
                        let mut j: usize = 0;
                        while j < rows.len()
                            invariant
                                j <= rows@.len(),
                                rows@.len() == table_rows(table@).len(),
                                forall|k: int|
                                    0 <= k < rows@.len() ==> #[trigger] rows@[k]@ == table_rows(
                                        table@,
                                    )[k],
                                out@.len() == before.len() + j,
                                forall|k: int| 0 <= k < before.len() ==> #[trigger] out@[k]@ == before[k],
                                forall|k: int|
                                    0 <= k < j ==> #[trigger] out@[before.len() + k]@ == table_rows(
                                        table@,
                                    )[k],
                            decreases rows@.len() - j,
                        {
                            out.push(rows[j].duplicate());
                            j = j + 1;
                        }
                        proof {
                            let all = before + table_rows(table@);
                            assert forall|k: int| 0 <= k < out@.len() implies #[trigger] out@[k]@
                                == all[k] by {
                                if k >= before.len() {
                                    assert(out@[before.len() + (k - before.len())]@ == table_rows(
                                        table@,
                                    )[k - before.len()]);
                                }
                            }
                        }
                    },
                    None => {},
                },
                _ => {},
            }
        }
        i = i + 1;
    }
    assert(storage@.take(storage.fields@.len() as int) =~= storage@);
    out
}

/// What the archives map holds: type, stream and payload of every object, by
/// identifier.
pub type Archives = BTreeMap<u64, (u32, String, Message)>;

/// The object an entry points at, through a highlight when it is one: the
/// entry names a `TSWP.HighlightArchive`, and the highlight the comment. A
/// document that points straight at the comment is also accepted.
pub open spec fn entry_comment(target: u64, archives: Map<u64, (u32, String, Message)>) -> u64 {
    if archives.contains_key(target) && archives[target].0 == TYPE_HIGHLIGHT {
        match spec_reference_at(archives[target].2@, 1) {
            Some(c) => c,
            None => target,
        }
    } else {
        target
    }
}

/// The comment one highlight-table entry anchors, and where.
pub open spec fn entry_anchor(
    entry: Seq<SpecField>,
    field: u32,
    identifier: u64,
    archives: Map<u64, (u32, String, Message)>,
) -> Option<(u64, Anchor)> {
    match spec_reference_at(entry, 2) {
        Some(target) => Some(
            (
                entry_comment(target, archives),
                Anchor::Text {
                    storage: identifier,
                    table: field,
                    start: match varint_field(entry, 1) {
                        Some(v) => v,
                        None => 0,
                    },
                    length: match nested_field(entry, 3) {
                        Some(range) => varint_field(range, 2),
                        None => None,
                    },
                },
            ),
        ),
        None => None,
    }
}

/// The highlight an entry passes through, when it does.
pub open spec fn entry_highlight(entry: Seq<SpecField>, archives: Map<u64, (u32, String, Message)>) -> Option<u64> {
    match spec_reference_at(entry, 2) {
        Some(target) => if archives.contains_key(target) && archives[target].0 == TYPE_HIGHLIGHT {
            Some(target)
        } else {
            None
        },
        None => None,
    }
}

/// The anchors of a list of entries, in order.
pub open spec fn entries_anchors(
    entries: Seq<Seq<SpecField>>,
    field: u32,
    identifier: u64,
    archives: Map<u64, (u32, String, Message)>,
) -> Seq<(u64, Anchor)>
    decreases entries.len(),
{
    if entries.len() == 0 {
        Seq::empty()
    } else {
        let rest = entries_anchors(entries.drop_last(), field, identifier, archives);
        match entry_anchor(entries.last(), field, identifier, archives) {
            Some(a) => rest.push(a),
            None => rest,
        }
    }
}

/// The highlights a list of entries passes through.
pub open spec fn entries_highlights(entries: Seq<Seq<SpecField>>, archives: Map<u64, (u32, String, Message)>) -> Set<u64>
    decreases entries.len(),
{
    if entries.len() == 0 {
        Set::empty()
    } else {
        let rest = entries_highlights(entries.drop_last(), archives);
        match entry_highlight(entries.last(), archives) {
            Some(h) => rest.insert(h),
            None => rest,
        }
    }
}

/// Comment storages a highlight table points at, with where the entry sits.
///
/// `table_highlight` (23) is a run table — `{character_index, reference}` —
/// and `table_overlapping_highlight` (25) carries an explicit `TSP.Range` so
/// that two comments may cover the same characters. Both hold their reference
/// through a `TSWP.HighlightArchive`, whose field 1 is the comment storage.
/// Every highlight walked through is added to `reached_highlights`.
pub fn highlight_anchors(
    storage: &Message,
    field: u32,
    identifier: u64,
    archives: &BTreeMap<u64, (u32, String, Message)>,
    reached_highlights: &mut BTreeSet<u64>,
) -> (r: Vec<(u64, Anchor)>)
    ensures
        r@ == entries_anchors(table_entries(storage@, field), field, identifier, archives@),
        final(reached_highlights)@ == old(reached_highlights)@.union(
            entries_highlights(table_entries(storage@, field), archives@),
        ),
{
    let entries = entries_of(storage, field);
    let ghost es = table_entries(storage@, field);
    let mut out: Vec<(u64, Anchor)> = Vec::new();
    let mut i: usize = 0;
    while i < entries.len()
        invariant
            i <= entries@.len(),
            entries@.len() == es.len(),
            forall|k: int| 0 <= k < entries@.len() ==> #[trigger] entries@[k]@ == es[k],
            out@ == entries_anchors(es.take(i as int), field, identifier, archives@),
            reached_highlights@ == old(reached_highlights)@.union(
                entries_highlights(es.take(i as int), archives@),
            ),
        decreases entries@.len() - i,
    {
        assert(es.take(i + 1).drop_last() =~= es.take(i as int));
        assert(es.take(i + 1).last() == entries@[i as int]@);
        let entry = &entries[i];
        let start = match entry.varint(1) {
            Some(v) => v,
            None => 0,
        };
        let length = match crate::formula::nested(entry, 3) {
            Some(range) => range.varint(2),
            None => None,
        };
        match reference(entry, 2) {
            Some(target) => {
                let comment = match archives.get(&target) {
                    Some(found) => {
                        if found.0 == TYPE_HIGHLIGHT {
                            reached_highlights.insert(target);
                            match reference(&found.2, 1) {
                                Some(c) => c,
                                None => target,
                            }
                        } else {
                            target
                        }
                    },
                    None => target,
                };
                out.push((comment, Anchor::Text { storage: identifier, table: field, start, length }));
                assert(reached_highlights@ =~= old(reached_highlights)@.union(
                    entries_highlights(es.take(i + 1), archives@),
                ));
            },
            None => {},
        }
        i = i + 1;
    }
    assert(es.take(entries@.len() as int) =~= es);
    out
}

// -- tracked changes ------------------------------------------------------------------------

/// Identifiers listed in increasing order.
pub open spec fn keys_increasing(q: Seq<u64>) -> bool {
    forall|i: int, j: int| 0 <= i < j < q.len() ==> #[trigger] q[i] < #[trigger] q[j]
}

/// A set of identifiers in increasing order, each once — the order a map
/// keyed by them is walked in.
pub open spec fn keys_in_order(keys: Set<u64>) -> Seq<u64> {
    choose|q: Seq<u64>| q.to_set() == keys && keys_increasing(q)
}

/// Two increasing listings of one set of identifiers are one listing.
proof fn lemma_key_listing_is_unique(q1: Seq<u64>, q2: Seq<u64>)
    requires
        q1.to_set() == q2.to_set(),
        keys_increasing(q1),
        keys_increasing(q2),
    ensures
        q1 == q2,
    decreases q1.len(),
{
    if q1.len() == 0 {
        if q2.len() > 0 {
            assert(q2.to_set().contains(q2[0]));
            assert(!q1.contains(q2[0]));
        }
        assert(q1 =~= q2);
    } else {
        assert(q1.to_set().contains(q1[0]));
        assert(q2.contains(q1[0]));
        let j = choose|j: int| 0 <= j < q2.len() && q2[j] == q1[0];
        assert(q2.to_set().contains(q2[0]));
        assert(q1.contains(q2[0]));
        let i = choose|i: int| 0 <= i < q1.len() && q1[i] == q2[0];
        if j > 0 && i > 0 {
            assert(q2[0] < q2[j]);
            assert(q1[0] < q1[i]);
        }
        assert(q1[0] == q2[0]);
        let r1 = q1.drop_first();
        let r2 = q2.drop_first();
        assert forall|x: u64| r1.to_set().contains(x) <==> r2.to_set().contains(x) by {
            if r1.contains(x) {
                let k = choose|k: int| 0 <= k < r1.len() && r1[k] == x;
                assert(q1[k + 1] == x);
                assert(q1[0] < q1[k + 1]);
                assert(q1.to_set().contains(x));
                assert(q2.contains(x));
                let m = choose|m: int| 0 <= m < q2.len() && q2[m] == x;
                assert(m != 0);
                assert(r2[m - 1] == x);
            }
            if r2.contains(x) {
                let k = choose|k: int| 0 <= k < r2.len() && r2[k] == x;
                assert(q2[k + 1] == x);
                assert(q2[0] < q2[k + 1]);
                assert(q2.to_set().contains(x));
                assert(q1.contains(x));
                let m = choose|m: int| 0 <= m < q1.len() && q1[m] == x;
                assert(m != 0);
                assert(r1[m - 1] == x);
            }
        }
        assert(r1.to_set() =~= r2.to_set());
        assert(keys_increasing(r1)) by {
            assert forall|a: int, b: int| 0 <= a < b < r1.len() implies #[trigger] r1[a] < #[trigger] r1[b] by {
                assert(r1[a] == q1[a + 1] && r1[b] == q1[b + 1]);
            }
        }
        assert(keys_increasing(r2)) by {
            assert forall|a: int, b: int| 0 <= a < b < r2.len() implies #[trigger] r2[a] < #[trigger] r2[b] by {
                assert(r2[a] == q2[a + 1] && r2[b] == q2[b + 1]);
            }
        }
        lemma_key_listing_is_unique(r1, r2);
        assert(q1 =~= q2) by {
            assert forall|k: int| 0 <= k < q1.len() implies q1[k] == q2[k] by {
                if k > 0 {
                    assert(q1[k] == r1[k - 1]);
                    assert(q2[k] == r2[k - 1]);
                }
            }
        }
    }
}

/// The archives are walked in increasing identifier order, each with its
/// entry.
proof fn lemma_archive_walk(archives: &BTreeMap<u64, (u32, String, Message)>)
    requires
        increasing_seq(
            spec_btree_map_iter(archives).remaining().map_values(
                |kv: (&u64, &(u32, String, Message))| *kv.0,
            ),
        ),
    ensures
        spec_btree_map_iter(archives).remaining().map_values(|kv: (&u64, &(u32, String, Message))| *kv.0)
            == keys_in_order(archives@.dom()),
        keys_in_order(archives@.dom()).to_set() == archives@.dom(),
        keys_increasing(keys_in_order(archives@.dom())),
        forall|i: int|
            0 <= i < spec_btree_map_iter(archives).remaining().len() ==> archives@[*(
            #[trigger] spec_btree_map_iter(archives).remaining()[i]).0] == *spec_btree_map_iter(
                archives,
            ).remaining()[i].1,
{
    let walked = spec_btree_map_iter(archives).remaining();
    let q = walked.map_values(|kv: (&u64, &(u32, String, Message))| *kv.0);
    assert(vstd::laws_cmp::obeys_cmp::<u64>());
    assert forall|i: int, j: int| 0 <= i < j < q.len() implies #[trigger] q[i] < #[trigger] q[j] by {
        assert(OrdSpec::cmp_spec(&q[i], &q[j]) is Less);
    }
    assert forall|x: u64| q.to_set().contains(x) <==> archives@.dom().contains(x) by {
        if q.contains(x) {
            let k = choose|k: int| 0 <= k < q.len() && q[k] == x;
            assert(archives@.contains_key(*walked[k].0));
        }
        if archives@.dom().contains(x) {
            assert(walked.contains((&x, &archives@[x])));
            let k = choose|k: int| 0 <= k < walked.len() && walked[k] == (&x, &archives@[x]);
            assert(q[k] == x);
        }
    }
    assert(q.to_set() =~= archives@.dom());
    lemma_key_listing_is_unique(q, keys_in_order(archives@.dom()));
}

/// One tracked-change table's entries: each that names a change gives
/// `(change, (storage, table, character index))`.
pub open spec fn table_changes(entries: Seq<Seq<SpecField>>, storage: u64, field: u32) -> Seq<
    (u64, (u64, u32, u64)),
>
    decreases entries.len(),
{
    if entries.len() == 0 {
        Seq::empty()
    } else {
        let rest = table_changes(entries.drop_last(), storage, field);
        let entry = entries.last();
        match spec_reference_at(entry, 2) {
            Some(target) => rest.push(
                (
                    target,
                    (
                        storage,
                        field,
                        match varint_field(entry, 1) {
                            Some(c) => c,
                            None => 0,
                        },
                    ),
                ),
            ),
            None => rest,
        }
    }
}

/// What one archive says of tracked changes: a storage's insertion table,
/// then its deletion table.
pub open spec fn archive_changes(identifier: u64, message_type: u32, archive: Seq<SpecField>) -> Seq<
    (u64, (u64, u32, u64)),
> {
    if message_type != TYPE_STORAGE {
        Seq::empty()
    } else {
        table_changes(table_entries(archive, INSERTION_TABLE), identifier, INSERTION_TABLE)
            + table_changes(table_entries(archive, DELETION_TABLE), identifier, DELETION_TABLE)
    }
}

/// The changes of the archives with these identifiers, in this order.
pub open spec fn changes_of(archives: Map<u64, (u32, String, Message)>, keys: Seq<u64>) -> Seq<
    (u64, (u64, u32, u64)),
>
    decreases keys.len(),
{
    if keys.len() == 0 {
        Seq::empty()
    } else {
        let k = keys.last();
        changes_of(archives, keys.drop_last()) + archive_changes(k, archives[k].0, archives[k].2@)
    }
}

/// Entries written one after another into a map, a later one replacing an
/// earlier one for the same key.
pub open spec fn written(m: Map<u64, (u64, u32, u64)>, rs: Seq<(u64, (u64, u32, u64))>) -> Map<
    u64,
    (u64, u32, u64),
>
    decreases rs.len(),
{
    if rs.len() == 0 {
        m
    } else {
        written(m, rs.drop_last()).insert(rs.last().0, rs.last().1)
    }
}

/// Where every tracked change is anchored: its storage, the table (21 for an
/// insertion, 22 for a deletion) and the character index. The archives are
/// read in identifier order, and where two entries name one change the later
/// one wins.
pub open spec fn spec_change_anchors(archives: Map<u64, (u32, String, Message)>) -> Map<
    u64,
    (u64, u32, u64),
> {
    written(Map::empty(), changes_of(archives, keys_in_order(archives.dom())))
}

proof fn lemma_written_append(
    m: Map<u64, (u64, u32, u64)>,
    a: Seq<(u64, (u64, u32, u64))>,
    b: Seq<(u64, (u64, u32, u64))>,
)
    ensures
        written(m, a + b) == written(written(m, a), b),
    decreases b.len(),
{
    if b.len() == 0 {
        assert(a + b =~= a);
    } else {
        assert((a + b).drop_last() =~= a + b.drop_last());
        lemma_written_append(m, a, b.drop_last());
    }
}

fn write_table_changes(
    storage: &Message,
    field: u32,
    identifier: u64,
    out: &mut BTreeMap<u64, (u64, u32, u64)>,
)
    ensures
        final(out)@ == written(old(out)@, table_changes(table_entries(storage@, field), identifier, field)),
{
    let entries = entries_of(storage, field);
    let ghost es = table_entries(storage@, field);
    let mut i: usize = 0;
    while i < entries.len()
        invariant
            i <= entries@.len(),
            entries@.len() == es.len(),
            forall|k: int| 0 <= k < entries@.len() ==> #[trigger] entries@[k]@ == es[k],
            out@ == written(old(out)@, table_changes(es.take(i as int), identifier, field)),
        decreases entries@.len() - i,
    {
        assert(es.take(i + 1).drop_last() =~= es.take(i as int));
        assert(es.take(i + 1).last() == entries@[i as int]@);
        let entry = &entries[i];
        if let Some(target) = reference(entry, 2) {
            let character = match entry.varint(1) {
                Some(c) => c,
                None => 0,
            };
            out.insert(target, (identifier, field, character));
            assert(table_changes(es.take(i + 1), identifier, field) == table_changes(
                es.take(i as int),
                identifier,
                field,
            ).push((target, (identifier, field, character))));
            let ghost t = table_changes(es.take(i as int), identifier, field);
            assert(t.push((target, (identifier, field, character))).drop_last() =~= t);
        }
        i = i + 1;
    }
    assert(es.take(entries@.len() as int) =~= es);
}

/// Storage, table field and character index of every tracked-change entry.
pub fn change_anchors(archives: &BTreeMap<u64, (u32, String, Message)>) -> (r: BTreeMap<
    u64,
    (u64, u32, u64),
>)
    ensures
        r@ == spec_change_anchors(archives@),
{
    let ghost keys = keys_in_order(archives@.dom());
    let walk = archives.iter();
    proof {
        lemma_archive_walk(archives);
    }
    let mut out: BTreeMap<u64, (u64, u32, u64)> = BTreeMap::new();
    let ghost mut n: int = 0;
    for entry in it: walk
        invariant
            n == it.index(),
            it.seq().map_values(|kv: (&u64, &(u32, String, Message))| *kv.0) == keys,
            forall|i: int|
                0 <= i < it.seq().len() ==> archives@[*(#[trigger] it.seq()[i]).0] == *it.seq()[i].1,
            out@ == written(Map::empty(), changes_of(archives@, keys.take(n))),
    {
        let (identifier, archive) = entry;
        let ghost before = out@;
        assert(it.seq()[n] == entry);
        assert(keys[n] == *identifier);
        assert(keys.take(n + 1).drop_last() =~= keys.take(n));
        if archive.0 == TYPE_STORAGE {
            write_table_changes(&archive.2, INSERTION_TABLE, *identifier, &mut out);
            write_table_changes(&archive.2, DELETION_TABLE, *identifier, &mut out);
        }
        proof {
            let k = *identifier;
            lemma_written_append(
                Map::empty(),
                changes_of(archives@, keys.take(n)),
                archive_changes(k, archives@[k].0, archives@[k].2@),
            );
            lemma_written_append(
                before,
                table_changes(table_entries(archives@[k].2@, INSERTION_TABLE), k, INSERTION_TABLE),
                table_changes(table_entries(archives@[k].2@, DELETION_TABLE), k, DELETION_TABLE),
            );
        }
        proof {
            n = n + 1;
        }
    }
    assert(keys.take(n) =~= keys);
    out
}

// -- dates ------------------------------------------------------------------------------

/// A `TSP.Date` in field `field`: one required double, seconds from
/// 2001-01-01, given as the eight little-endian bytes the archive stores.
pub open spec fn spec_date(fs: Seq<SpecField>, field: u32) -> Option<Seq<u8>> {
    match nested_field(fs, field) {
        Some(date) => match first_with(date, 1) {
            Some(SpecValue::Fixed64(b)) => Some(b),
            _ => None,
        },
        None => None,
    }
}

/// The date in field `field`, as the bits of its double.
pub fn date(message: &Message, field: u32) -> (r: Option<[u8; 8]>)
    ensures
        match spec_date(message@, field) {
            Some(b) => r matches Some(x) && x@ == b,
            None => r is None,
        },
{
    let nested = match crate::formula::nested(message, field) {
        Some(m) => m,
        None => {
            return None;
        },
    };
    match nested.get(1) {
        Some(Value::Fixed64(bytes)) => Some(*bytes),
        _ => None,
    }
}

// -- comments on objects --------------------------------------------------------------------

/// Every `TSD.DrawableArchive.comment` in a message, at whatever depth the
/// drawable archive sits: field 6 of a message that also has a geometry at 1
/// or a parent at 2. Walking by shape rather than by type is what makes this
/// work for every archive that embeds a drawable; a drawable archive is never
/// more than three levels down, and the walk goes no deeper.
pub open spec fn comments_walk(fs: Seq<SpecField>, depth: nat) -> Seq<u64>
    decreases 4 - depth, fs.len(), 1nat,
{
    if depth > 3 {
        Seq::empty()
    } else {
        let looks_like_drawable = first_with(fs, 1) is Some || first_with(fs, 2) is Some;
        let own = if looks_like_drawable {
            match spec_reference_at(fs, 6) {
                Some(t) => seq![t],
                None => Seq::empty(),
            }
        } else {
            Seq::empty()
        };
        own + comments_in_fields(fs, depth)
    }
}

/// What the walk finds under each field of a message, in order.
pub open spec fn comments_in_fields(fs: Seq<SpecField>, depth: nat) -> Seq<u64>
    decreases 4 - depth, fs.len(), 0nat,
{
    if depth > 3 || fs.len() == 0 {
        Seq::empty()
    } else {
        comments_in_fields(fs.drop_last(), depth) + match fs.last().value {
            SpecValue::Bytes(b) => match nested_of(b) {
                Some(nested) => comments_walk(nested, depth + 1),
                None => Seq::empty(),
            },
            _ => Seq::empty(),
        }
    }
}

fn walk_for_comments(message: &Message, depth: usize, out: &mut Vec<u64>)
    requires
        depth <= 4,
    ensures
        final(out)@ == old(out)@ + comments_walk(message@, depth as nat),
    decreases 4 - depth, message@.len(), 1nat,
{
    if depth > 3 {
        assert(old(out)@ + comments_walk(message@, depth as nat) =~= old(out)@);
        return;
    }
    let looks_like_drawable = message.get(crate::drawable::field::GEOMETRY).is_some()
        || message.get(crate::drawable::field::PARENT).is_some();
    let ghost start = out@;
    if looks_like_drawable {
        match reference(message, crate::drawable::field::COMMENT) {
            Some(target) => out.push(target),
            None => {},
        }
    }
    let ghost own = out@.skip(start.len() as int);
    assert(out@ =~= start + own);
    walk_fields(message, depth, out);
    assert(out@ =~= start + comments_walk(message@, depth as nat));
}

fn walk_fields(message: &Message, depth: usize, out: &mut Vec<u64>)
    requires
        depth <= 3,
    ensures
        final(out)@ == old(out)@ + comments_in_fields(message@, depth as nat),
    decreases 4 - depth, message@.len(), 0nat,
{
    let mut i: usize = 0;
    while i < message.fields.len()
        invariant
            depth <= 3,
            i <= message.fields@.len(),
            message@.len() == message.fields@.len(),
            out@ == old(out)@ + comments_in_fields(message@.take(i as int), depth as nat),
        decreases message.fields@.len() - i,
    {
        assert(message@.take(i + 1).drop_last() =~= message@.take(i as int));
        assert(message@.take(i + 1).last() == message.fields@[i as int]@);
        let ghost before = out@;
        match &message.fields[i].value {
            Value::Bytes(b) => match decode_nested(b.as_slice()) {
                Some(nested) => {
                    walk_for_comments(&nested, depth + 1, out);
                },
                None => {},
            },
            _ => {},
        }
        assert(out@ =~= old(out)@ + comments_in_fields(message@.take(i + 1), depth as nat));
        i = i + 1;
    }
    assert(message@.take(message.fields@.len() as int) =~= message@);
}

/// Every `TSD.DrawableArchive.comment` in a payload, at whatever depth the
/// drawable archive sits.
pub fn comment_references(archive: &Message) -> (r: Vec<u64>)
    ensures
        r@ == comments_walk(archive@, 0),
{
    let mut out: Vec<u64> = Vec::new();
    walk_for_comments(archive, 0, &mut out);
    assert(out@ =~= comments_walk(archive@, 0));
    out
}

} // verus!
