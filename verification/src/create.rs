//! What a document written from nothing has to carry that a reader never
//! looks at, but the app does.

use vstd::prelude::*;
use vstd::string::StringSliceAdditionalSpecFns;
use vstd::utf8::encode_utf8;

use crate::document::Kind;
use crate::pb::{fields_bytes, Field, Message, SpecField, SpecValue, Value};

verus! {

/// The `component_generation` the app itself writes into a new document's
/// metadata, per app. A document that carries another one is still opened,
/// but these are the values the app wrote when it made one.
pub open spec fn spec_component_generation(kind: Kind) -> u64 {
    match kind {
        Kind::Pages => 835,
        Kind::Numbers => 537,
        Kind::Keynote => 2386,
        Kind::Unknown => 0,
    }
}

pub fn component_generation(kind: Kind) -> (r: u64)
    ensures
        r == spec_component_generation(kind),
{
    match kind {
        Kind::Pages => 835,
        Kind::Numbers => 537,
        Kind::Keynote => 2386,
        Kind::Unknown => 0,
    }
}

/// The paper a Pages document is laid out on.
#[derive(Debug, Clone, Copy, PartialEq, Eq, Structural)]
pub enum Paper {
    /// 595.28 × 841.89 pt, 56.69 pt margins. What Pages calls `iso-a4`.
    A4,
    /// 612 × 792 pt, 72 pt margins. What Pages calls `na-letter`.
    Letter,
}

impl Default for Paper {
    fn default() -> (r: Paper)
        ensures
            r == Paper::A4,
    {
        Paper::A4
    }
}

impl Paper {
    /// The name Pages gives the paper size.
    pub fn name(self) -> (r: &'static str)
        ensures
            r@ == (match self {
                Paper::A4 => "iso-a4"@,
                Paper::Letter => "na-letter"@,
            }),
    {
        match self {
            Paper::A4 => "iso-a4",
            Paper::Letter => "na-letter",
        }
    }
}

// -- building blocks ---------------------------------------------------------------------

/// Fields as mathematical objects.
pub open spec fn fields_view(fields: Seq<Field>) -> Seq<SpecField> {
    fields.map_values(|f: Field| f@)
}

/// A varint field.
pub open spec fn spec_varint(number: u32, value: u64) -> SpecField {
    SpecField { number, value: SpecValue::Varint(value) }
}

/// A length-delimited field.
pub open spec fn spec_bytes(number: u32, value: Seq<u8>) -> SpecField {
    SpecField { number, value: SpecValue::Bytes(value) }
}

/// A nested message as a length-delimited field.
pub open spec fn spec_nested(number: u32, fields: Seq<SpecField>) -> SpecField {
    spec_bytes(number, fields_bytes(fields))
}

/// A `TSP.Reference` — `{1: identifier}` — as a field.
pub open spec fn spec_reference_field(number: u32, target: u64) -> SpecField {
    spec_nested(number, seq![spec_varint(1, target)])
}

pub proof fn lemma_fields_view_push(fields: Seq<Field>, f: Field)
    ensures
        fields_view(fields.push(f)) == fields_view(fields).push(f@),
{
    assert(fields_view(fields.push(f)) =~= fields_view(fields).push(f@));
}

/// A protobuf message from its fields.
pub fn message(fields: Vec<Field>) -> (m: Message)
    ensures
        m@ == fields_view(fields@),
{
    Message { fields }
}

pub fn varint(number: u32, value: u64) -> (f: Field)
    ensures
        f@ == spec_varint(number, value),
{
    Field { number, value: Value::Varint(value) }
}

/// Text as a length-delimited field, in UTF-8.
pub fn string(number: u32, text: &str) -> (f: Field)
    ensures
        f@ == spec_bytes(number, encode_utf8(text@)),
{
    let utf8 = text.as_bytes();
    let value = crate::pb::copy_range(utf8, 0, utf8.len());
    assert(value@ =~= text.spec_bytes());
    Field { number, value: Value::Bytes(value) }
}

/// Raw bytes as a length-delimited field.
pub fn bytes(number: u32, value: Vec<u8>) -> (f: Field)
    ensures
        f@ == spec_bytes(number, value@),
{
    Field { number, value: Value::Bytes(value) }
}

/// A nested message as a length-delimited field.
pub fn nested(number: u32, fields: Vec<Field>) -> (f: Field)
    ensures
        f@ == spec_nested(number, fields_view(fields@)),
{
    Field { number, value: Value::Bytes(message(fields).encode()) }
}

/// A whole message as a length-delimited field.
pub fn nested_message(number: u32, inner: Message) -> (f: Field)
    ensures
        f@ == spec_nested(number, inner@),
{
    Field { number, value: Value::Bytes(inner.encode()) }
}

/// One field alone.
fn single(f: Field) -> (v: Vec<Field>)
    ensures
        fields_view(v@) == seq![f@],
{
    let mut v: Vec<Field> = Vec::new();
    v.push(f);
    assert(fields_view(v@) =~= seq![f@]);
    v
}

/// A `TSP.Reference` — `{1: identifier}`, the whole of it.
pub fn reference(number: u32, target: u64) -> (f: Field)
    ensures
        f@ == spec_reference_field(number, target),
{
    nested(number, single(varint(1, target)))
}

/// A `TSP.Reference` to one object, encoded — for a caller appending one to a
/// repeated field.
pub fn reference_bytes(target: u64) -> (r: Vec<u8>)
    ensures
        r@ == fields_bytes(seq![spec_varint(1, target)]),
{
    message(single(varint(1, target))).encode()
}

/// An attribute table with a single entry covering the whole storage:
/// `{1: {1: 0, 2: -> target}}`.
pub open spec fn spec_attribute_table(number: u32, target: u64) -> SpecField {
    spec_nested(number, seq![spec_nested(1, seq![spec_varint(1, 0), spec_reference_field(2, target)])])
}

pub fn attribute_table(number: u32, target: u64) -> (f: Field)
    ensures
        f@ == spec_attribute_table(number, target),
{
    let mut entry: Vec<Field> = Vec::new();
    entry.push(varint(1, 0));
    entry.push(reference(2, target));
    assert(fields_view(entry@) =~= seq![spec_varint(1, 0), spec_reference_field(2, target)]);
    nested(number, single(nested(1, entry)))
}

// -- tables ---------------------------------------------------------------------------------

/// The `FORMAT` list of a new table: one entry, the automatic format (260),
/// `{1: 2, 2: 2, 3: {1: key 1, 2: refcount 0, 6: {1: 260}}}`.
pub open spec fn spec_automatic_format_list() -> Seq<SpecField> {
    seq![
        spec_varint(1, 2),
        spec_varint(2, 2),
        spec_nested(3, seq![spec_varint(1, 1), spec_varint(2, 0), spec_nested(6, seq![spec_varint(1, 260)])]),
    ]
}

pub fn automatic_format_list() -> (m: Message)
    ensures
        m@ == spec_automatic_format_list(),
{
    let mut entry: Vec<Field> = Vec::new();
    entry.push(varint(1, 1));
    entry.push(varint(2, 0));
    entry.push(nested(6, single(varint(1, 260))));
    assert(fields_view(entry@) =~= seq![
        spec_varint(1, 1),
        spec_varint(2, 0),
        spec_nested(6, seq![spec_varint(1, 260)]),
    ]);
    let mut fields: Vec<Field> = Vec::new();
    fields.push(varint(1, 2));
    fields.push(varint(2, 2));
    fields.push(nested(3, entry));
    assert(fields_view(fields@) =~= spec_automatic_format_list());
    message(fields)
}

/// `TST.TableDataList` — `{1: listType, 2: nextListID}` and no entries.
pub fn data_list(list_type: u64) -> (m: Message)
    ensures
        m@ == seq![spec_varint(1, list_type), spec_varint(2, 1)],
{
    let mut fields: Vec<Field> = Vec::new();
    fields.push(varint(1, list_type));
    fields.push(varint(2, 1));
    assert(fields_view(fields@) =~= seq![spec_varint(1, list_type), spec_varint(2, 1)]);
    message(fields)
}

/// One entry of a header bucket: `{1: index, 2: size 0.0, 3: hidingState 0,
/// 4: numberOfCells 0}`; the size is a float, and zero is four zero bytes.
pub open spec fn spec_header_entry(index: nat) -> Seq<SpecField> {
    seq![
        spec_varint(1, index as u64),
        SpecField { number: 2, value: SpecValue::Fixed32(seq![0u8, 0u8, 0u8, 0u8]) },
        spec_varint(3, 0),
        spec_varint(4, 0),
    ]
}

/// `TST.HeaderStorageBucket` — one entry per row, or per column, after
/// `{1: 1}`.
pub open spec fn spec_header_bucket(count: nat) -> Seq<SpecField> {
    seq![spec_varint(1, 1)] + Seq::new(count, |i: int| spec_nested(2, spec_header_entry(i as nat)))
}

fn header_entry(index: usize) -> (f: Field)
    ensures
        f@ == spec_nested(2, spec_header_entry(index as nat)),
{
    let zero: [u8; 4] = [0u8, 0u8, 0u8, 0u8];
    assert(zero@ =~= seq![0u8, 0u8, 0u8, 0u8]);
    let mut entry: Vec<Field> = Vec::new();
    entry.push(varint(1, index as u64));
    entry.push(Field { number: 2, value: Value::Fixed32(zero) });
    entry.push(varint(3, 0));
    entry.push(varint(4, 0));
    assert(fields_view(entry@) =~= spec_header_entry(index as nat));
    nested(2, entry)
}

pub fn header_bucket(count: usize) -> (m: Message)
    ensures
        m@ == spec_header_bucket(count as nat),
{
    let mut fields: Vec<Field> = Vec::new();
    fields.push(varint(1, 1));
    let mut index: usize = 0;
    while index < count
        invariant
            index <= count,
            fields_view(fields@) == spec_header_bucket(index as nat),
        decreases count - index,
    {
        let ghost before = fields@;
        let f = header_entry(index);
        fields.push(f);
        proof {
            lemma_fields_view_push(before, f);
        }
        assert(fields_view(fields@) =~= spec_header_bucket((index + 1) as nat));
        index = index + 1;
    }
    message(fields)
}

/// How many offsets a row carries whatever its width, as Numbers writes them.
pub const OFFSET_SLOTS: usize = 255;

/// How many offset slots a row of this width gets.
pub open spec fn offset_slots(columns: nat) -> nat {
    if columns > OFFSET_SLOTS as nat {
        columns
    } else {
        OFFSET_SLOTS as nat
    }
}

/// A cell-offset array with every column empty: `int16` little-endian, `-1`
/// in every slot, and never fewer slots than Numbers pads a row to.
pub open spec fn spec_empty_offsets(columns: nat) -> Seq<u8> {
    Seq::new(2 * offset_slots(columns), |i: int| 0xffu8)
}

pub fn empty_offsets(columns: usize) -> (r: Vec<u8>)
    requires
        2 * offset_slots(columns as nat) <= usize::MAX,
    ensures
        r@ == spec_empty_offsets(columns as nat),
{
    let slots: usize = if columns > OFFSET_SLOTS {
        columns
    } else {
        OFFSET_SLOTS
    };
    let mut out: Vec<u8> = Vec::new();
    let mut i: usize = 0;
    while i < slots
        invariant
            i <= slots,
            slots as nat == offset_slots(columns as nat),
            2 * slots <= usize::MAX,
            out@ == Seq::new(2 * (i as nat), |k: int| 0xffu8),
        decreases slots - i,
    {
        out.push(0xffu8);
        out.push(0xffu8);
        assert(out@ =~= Seq::new(2 * ((i + 1) as nat), |k: int| 0xffu8));
        i = i + 1;
    }
    out
}

/// One row of an empty tile: `{1: index, 2: 0 cells, 3: no cells, 4: empty
/// offsets, 5: storage version 5, 6: no cells, 7: empty offsets}` — the
/// pre-BNC buffer and its offsets are dead weight, and written because the
/// schema requires them.
pub open spec fn spec_tile_row(index: nat, columns: nat) -> Seq<SpecField> {
    seq![
        spec_varint(1, index as u64),
        spec_varint(2, 0),
        spec_bytes(3, Seq::empty()),
        spec_bytes(4, spec_empty_offsets(columns)),
        spec_varint(5, 5),
        spec_bytes(6, Seq::empty()),
        spec_bytes(7, spec_empty_offsets(columns)),
    ]
}

/// `TST.Tile` holding `rows` rows, every cell of them empty, with storage
/// version 5 and `last_saved_in_BNC` set.
pub open spec fn spec_tile(rows: nat, columns: nat) -> Seq<SpecField> {
    seq![spec_varint(1, 0), spec_varint(2, 0), spec_varint(3, 0), spec_varint(4, rows as u64)]
        + Seq::new(rows, |i: int| spec_nested(5, spec_tile_row(i as nat, columns)))
        + seq![spec_varint(6, 5), spec_varint(7, 1)]
}

fn tile_row(index: usize, columns: usize) -> (f: Field)
    requires
        2 * offset_slots(columns as nat) <= usize::MAX,
    ensures
        f@ == spec_nested(5, spec_tile_row(index as nat, columns as nat)),
{
    let mut row: Vec<Field> = Vec::new();
    row.push(varint(1, index as u64));
    row.push(varint(2, 0));
    row.push(bytes(3, Vec::new()));
    row.push(bytes(4, empty_offsets(columns)));
    row.push(varint(5, 5));
    row.push(bytes(6, Vec::new()));
    row.push(bytes(7, empty_offsets(columns)));
    assert(fields_view(row@) =~= spec_tile_row(index as nat, columns as nat));
    nested(5, row)
}

pub fn tile(rows: usize, columns: usize) -> (m: Message)
    requires
        2 * offset_slots(columns as nat) <= usize::MAX,
    ensures
        m@ == spec_tile(rows as nat, columns as nat),
{
    let mut fields: Vec<Field> = Vec::new();
    fields.push(varint(1, 0));
    fields.push(varint(2, 0));
    fields.push(varint(3, 0));
    fields.push(varint(4, rows as u64));
    let ghost head = seq![spec_varint(1, 0), spec_varint(2, 0), spec_varint(3, 0), spec_varint(4, rows as u64)];
    assert(fields_view(fields@) =~= head);
    let mut index: usize = 0;
    while index < rows
        invariant
            index <= rows,
            2 * offset_slots(columns as nat) <= usize::MAX,
            fields_view(fields@) == head + Seq::new(
                index as nat,
                |i: int| spec_nested(5, spec_tile_row(i as nat, columns as nat)),
            ),
        decreases rows - index,
    {
        let ghost before = fields@;
        let f = tile_row(index, columns);
        fields.push(f);
        proof {
            lemma_fields_view_push(before, f);
        }
        assert(fields_view(fields@) =~= head + Seq::new(
            (index + 1) as nat,
            |i: int| spec_nested(5, spec_tile_row(i as nat, columns as nat)),
        ));
        index = index + 1;
    }
    let ghost body = fields@;
    let version = varint(6, 5);
    fields.push(version);
    let ghost with_version = fields@;
    let saved = varint(7, 1);
    fields.push(saved);
    proof {
        lemma_fields_view_push(body, version);
        lemma_fields_view_push(with_version, saved);
    }
    assert(fields_view(fields@) =~= spec_tile(rows as nat, columns as nat));
    message(fields)
}

/// One word of a four-word `TSCE` UID: the seed, mixed with which UID and
/// which word it is, cut to 32 bits and counted from one.
pub open spec fn spec_uid_word(seed: u64, which: u64, n: u64) -> u64 {
    (((seed.wrapping_mul(0x9E37_79B9) ^ (which << 8u64) ^ n) & 0xFFFF_FFFFu64) + 1) as u64
}

/// A four-word `TSCE` UID at fields 2 to 5, derived from the table's seed so
/// that a document is internally consistent and two documents do not share one.
pub open spec fn spec_uid(seed: u64, which: u64) -> Seq<SpecField> {
    seq![
        spec_varint(2, spec_uid_word(seed, which, 1)),
        spec_varint(3, spec_uid_word(seed, which, 2)),
        spec_varint(4, spec_uid_word(seed, which, 3)),
        spec_varint(5, spec_uid_word(seed, which, 4)),
    ]
}

fn uid_word(seed: u64, which: u64, n: u64) -> (w: u64)
    ensures
        w == spec_uid_word(seed, which, n),
        1 <= w <= 0x1_0000_0000,
{
    let mixed = seed.wrapping_mul(0x9E37_79B9) ^ (which << 8u64) ^ n;
    let low = mixed & 0xFFFF_FFFFu64;
    assert(low <= 0xFFFF_FFFFu64) by (bit_vector)
        requires
            low == mixed & 0xFFFF_FFFFu64,
    ;
    low + 1
}

pub fn uid(seed: u64, which: u64) -> (r: Vec<Field>)
    ensures
        fields_view(r@) == spec_uid(seed, which),
{
    let mut fields: Vec<Field> = Vec::new();
    fields.push(varint(2, uid_word(seed, which, 1)));
    fields.push(varint(3, uid_word(seed, which, 2)));
    fields.push(varint(4, uid_word(seed, which, 3)));
    fields.push(varint(5, uid_word(seed, which, 4)));
    assert(fields_view(fields@) =~= spec_uid(seed, which));
    fields
}

/// One word of a two-word `TSP.UUID`, from the same seed.
pub open spec fn spec_uuid_word(seed: u64, which: u64, n: u64) -> u64 {
    seed.wrapping_mul(0x9E37_79B9_7F4A_7C15) ^ (which << 32u64) ^ n
}

/// A two-word `TSP.UUID`, `{1: lower, 2: upper}`.
pub open spec fn spec_uuid_pair(seed: u64, which: u64) -> Seq<SpecField> {
    seq![spec_varint(1, spec_uuid_word(seed, which, 1)), spec_varint(2, spec_uuid_word(seed, which, 2))]
}

pub fn uuid_pair(seed: u64, which: u64) -> (r: Vec<Field>)
    ensures
        fields_view(r@) == spec_uuid_pair(seed, which),
{
    let mixed = seed.wrapping_mul(0x9E37_79B9_7F4A_7C15) ^ (which << 32u64);
    let mut fields: Vec<Field> = Vec::new();
    fields.push(varint(1, mixed ^ 1));
    fields.push(varint(2, mixed ^ 2));
    assert(fields_view(fields@) =~= spec_uuid_pair(seed, which));
    fields
}

/// What a new table is made of: its name and size, the objects its model
/// names, and the seed its identities are derived from.
pub struct TableParts {
    pub name: String,
    pub rows: usize,
    pub columns: usize,
    /// `(index, tile)` for every tile of the table.
    pub tiles: Vec<(u64, u64)>,
    pub row_bucket: u64,
    pub column_bucket: u64,
    pub strings: u64,
    pub formats: u64,
    pub styles: u64,
    pub formulas: u64,
    pub conditional: u64,
    pub list_10: u64,
    pub list_11: u64,
    pub controls: u64,
    pub table_style: u64,
    /// Seventeen, one per area of the table, in the order the model's fields
    /// name them: body, header row, header column, footer row, five category
    /// levels, five group levels, and three for a pivot.
    pub cell_styles: Vec<u64>,
    /// Eight, for the text in those areas: header, body, footer and five
    /// group levels.
    pub text_styles: Vec<u64>,
    pub seed: u64,
}

/// A tile of the table's `TileStorage`: `{1: index, 2: -> tile}`.
pub open spec fn spec_tile_entries(tiles: Seq<(u64, u64)>) -> Seq<SpecField> {
    Seq::new(
        tiles.len(),
        |i: int| spec_nested(1, seq![spec_varint(1, tiles[i].0), spec_reference_field(2, tiles[i].1)]),
    )
}

/// `TST.DataStore`, inline in the model: the row buckets (a list) and the
/// column bucket (one), the tiles with a tile size of 256, and the interning
/// lists cells refer into.
pub open spec fn spec_data_store(parts: TableParts) -> Seq<SpecField> {
    seq![
        spec_nested(1, seq![spec_varint(1, 1), spec_reference_field(2, parts.row_bucket)]),
        spec_reference_field(2, parts.column_bucket),
        spec_nested(3, spec_tile_entries(parts.tiles@).push(spec_varint(2, 256))),
    ] + seq![spec_reference_field(4, parts.strings), spec_reference_field(5, parts.styles), spec_reference_field(6, parts.formulas), spec_varint(7, 1), spec_varint(8, 0), spec_nested(9, seq![spec_nested(1, seq![spec_varint(1, 0), spec_varint(2, 0)])]), spec_bytes(10, Seq::empty()), spec_reference_field(11, parts.conditional), spec_varint(14, 4), spec_reference_field(19, parts.list_10), spec_reference_field(20, parts.list_11), spec_reference_field(21, parts.controls), spec_reference_field(22, parts.formats)]
}

/// The model's fields after its name: one header row and one header column,
/// both frozen, the default row height (19.929931640625 pt) and column width
/// (98 pt) as doubles, the table style and the first area styles, and the
/// table's own identity.
pub open spec fn spec_model_layout(parts: TableParts) -> Seq<SpecField> {
    seq![spec_varint(9, 1), spec_varint(10, 1), spec_varint(11, 0), spec_varint(12, 1), spec_varint(13, 1), SpecField { number: 16, value: SpecValue::Fixed64(seq![0u8, 0u8, 0u8, 0u8, 16u8, 238u8, 51u8, 64u8]) }, SpecField { number: 17, value: SpecValue::Fixed64(seq![0u8, 0u8, 0u8, 0u8, 0u8, 128u8, 88u8, 64u8]) }, spec_reference_field(3, parts.table_style), spec_reference_field(18, parts.cell_styles[0]), spec_reference_field(19, parts.cell_styles[1]), spec_reference_field(20, parts.cell_styles[2]), spec_reference_field(21, parts.cell_styles[3]), spec_varint(22, 1), spec_reference_field(24, parts.text_styles[0]), spec_reference_field(25, parts.text_styles[1]), spec_reference_field(26, parts.text_styles[1]), spec_reference_field(27, parts.text_styles[1]), spec_varint(29, 1), spec_reference_field(30, parts.text_styles[1]), spec_varint(31, 0), spec_varint(32, 1), SpecField { number: 33, value: SpecValue::Fixed64(seq![0u8, 0u8, 0u8, 0u8, 0u8, 0u8, 0u8, 0u8]) }, spec_nested(39, spec_uid(parts.seed, 1)), spec_reference_field(44, 0), spec_nested(47, seq![spec_nested(1, spec_uid(parts.seed, 2)), spec_nested(2, seq![spec_varint(2, 0)])])]
}

/// The style of every remaining area, category and group levels.
pub open spec fn spec_model_area_styles(parts: TableParts) -> Seq<SpecField> {
    seq![spec_reference_field(60, parts.cell_styles[4]), spec_reference_field(61, parts.cell_styles[5]), spec_reference_field(62, parts.cell_styles[6]), spec_reference_field(63, parts.cell_styles[7]), spec_reference_field(64, parts.cell_styles[8]), spec_reference_field(65, parts.text_styles[1]), spec_reference_field(66, parts.text_styles[1]), spec_reference_field(67, parts.text_styles[1]), spec_reference_field(68, parts.text_styles[1]), spec_reference_field(69, parts.text_styles[1]), spec_reference_field(71, parts.cell_styles[9]), spec_reference_field(72, parts.cell_styles[10]), spec_reference_field(73, parts.cell_styles[11]), spec_reference_field(74, parts.cell_styles[12]), spec_reference_field(75, parts.cell_styles[13]), spec_reference_field(76, parts.text_styles[3]), spec_reference_field(77, parts.text_styles[4]), spec_reference_field(78, parts.text_styles[5]), spec_reference_field(79, parts.text_styles[6]), spec_reference_field(80, parts.text_styles[7])]
}

/// The category owner — whose `owner_uid` has `lower` and `upper` that are
/// required even when they are zero — the remaining owner identities, and the
/// pivot styles.
pub open spec fn spec_model_owners(parts: TableParts) -> Seq<SpecField> {
    seq![spec_nested(81, seq![spec_nested(1, seq![spec_varint(1, 0), spec_varint(2, 0)]), spec_nested(2, seq![spec_nested(1, spec_uuid_pair(parts.seed, 3)), spec_nested(3, seq![spec_nested(1, seq![spec_varint(1, 1), spec_varint(2, 0)]), spec_bytes(6, Seq::empty())]), spec_varint(6, 0), spec_nested(7, seq![spec_varint(2, 0), spec_varint(3, 0)]), spec_nested(8, seq![spec_varint(2, 1), spec_varint(3, 0)]), spec_nested(9, seq![spec_varint(2, 3), spec_varint(3, 0)]), spec_nested(10, seq![spec_varint(2, 2), spec_varint(3, 0)]), spec_nested(11, seq![spec_varint(2, 4), spec_varint(3, 0)]), spec_nested(12, seq![spec_varint(2, 5), spec_varint(3, 0)]), spec_nested(13, seq![spec_varint(2, 6), spec_varint(3, 0)]), spec_varint(14, 8), spec_nested(16, seq![spec_varint(2, 7), spec_varint(3, 0)])])]), spec_nested(82, seq![spec_nested(1, spec_uid(parts.seed, 4)), spec_nested(2, seq![spec_varint(2, 0)])]), spec_nested(84, seq![spec_nested(1, spec_uuid_pair(parts.seed, 5))]), spec_reference_field(87, parts.cell_styles[14]), spec_reference_field(88, parts.cell_styles[15]), spec_reference_field(89, parts.cell_styles[16]), spec_nested(93, seq![spec_nested(1, spec_uuid_pair(parts.seed, 6))])]
}

/// `TST.TableModelArchive` — the table, with its `TST.DataStore` inline.
pub open spec fn spec_table_model(parts: TableParts, table_id: Seq<char>) -> Seq<SpecField> {
    seq![
        spec_bytes(1, encode_utf8(table_id)),
        spec_nested(4, spec_data_store(parts)),
        spec_varint(6, parts.rows as u64), spec_varint(7, parts.columns as u64),
        spec_bytes(8, encode_utf8(parts.name@)),
    ] + spec_model_layout(parts) + spec_model_area_styles(parts) + spec_model_owners(parts)
}

fn push_field(fields: &mut Vec<Field>, f: Field)
    ensures
        fields_view(final(fields)@) == fields_view(old(fields)@).push(f@),
{
    let ghost before = fields@;
    fields.push(f);
    proof {
        lemma_fields_view_push(before, f);
    }
}

fn append_fields(fields: &mut Vec<Field>, more: Vec<Field>)
    ensures
        fields_view(final(fields)@) == fields_view(old(fields)@) + fields_view(more@),
{
    let rest = more;
    let mut i: usize = 0;
    let n = rest.len();
    while i < n
        invariant
            i <= n,
            n == rest@.len(),
            fields_view(fields@) == fields_view(old(fields)@) + fields_view(rest@).take(i as int),
        decreases n - i,
    {
        let f = rest[i].duplicate();
        let ghost before = fields@;
        fields.push(f);
        proof {
            lemma_fields_view_push(before, f);
        }
        assert(fields_view(rest@).take(i + 1) =~= fields_view(rest@).take(i as int).push(rest@[i as int]@));
        assert(fields_view(fields@) =~= fields_view(old(fields)@) + fields_view(rest@).take(i + 1));
        i = i + 1;
    }
    assert(fields_view(rest@).take(n as int) =~= fields_view(rest@));
}

fn data_store(parts: &TableParts) -> (r: Vec<Field>)
    ensures
        fields_view(r@) == spec_data_store(*parts),
{
    let mut rows: Vec<Field> = Vec::new();
    push_field(&mut rows, varint(1, 1));
    push_field(&mut rows, reference(2, parts.row_bucket));
    assert(fields_view(rows@) =~= seq![spec_varint(1, 1), spec_reference_field(2, parts.row_bucket)]);
    let mut storage: Vec<Field> = Vec::new();
    let mut i: usize = 0;
    while i < parts.tiles.len()
        invariant
            i <= parts.tiles@.len(),
            fields_view(storage@) == spec_tile_entries(parts.tiles@.take(i as int)),
        decreases parts.tiles@.len() - i,
    {
        let (index, tile) = parts.tiles[i];
        let mut entry: Vec<Field> = Vec::new();
        push_field(&mut entry, varint(1, index));
        push_field(&mut entry, reference(2, tile));
        assert(fields_view(entry@) =~= seq![spec_varint(1, index), spec_reference_field(2, tile)]);
        push_field(&mut storage, nested(1, entry));
        assert(fields_view(storage@) =~= spec_tile_entries(parts.tiles@.take(i + 1)));
        i = i + 1;
    }
    assert(parts.tiles@.take(parts.tiles@.len() as int) =~= parts.tiles@);
    push_field(&mut storage, varint(2, 256));
    let mut out: Vec<Field> = Vec::new();
    push_field(&mut out, nested(1, rows));
    push_field(&mut out, reference(2, parts.column_bucket));
    push_field(&mut out, nested(3, storage));
    let mut store_tail: Vec<Field> = Vec::new();
    push_field(&mut store_tail, reference(4, parts.strings));
    push_field(&mut store_tail, reference(5, parts.styles));
    push_field(&mut store_tail, reference(6, parts.formulas));
    push_field(&mut store_tail, varint(7, 1));
    push_field(&mut store_tail, varint(8, 0));
    let mut g1: Vec<Field> = Vec::new();
    let mut g2: Vec<Field> = Vec::new();
    push_field(&mut g2, varint(1, 0));
    push_field(&mut g2, varint(2, 0));
    assert(fields_view(g2@) =~= seq![spec_varint(1, 0), spec_varint(2, 0)]);
    push_field(&mut g1, nested(1, g2));
    assert(fields_view(g1@) =~= seq![spec_nested(1, seq![spec_varint(1, 0), spec_varint(2, 0)])]);
    push_field(&mut store_tail, nested(9, g1));
    push_field(&mut store_tail, bytes(10, Vec::new()));
    push_field(&mut store_tail, reference(11, parts.conditional));
    push_field(&mut store_tail, varint(14, 4));
    push_field(&mut store_tail, reference(19, parts.list_10));
    push_field(&mut store_tail, reference(20, parts.list_11));
    push_field(&mut store_tail, reference(21, parts.controls));
    push_field(&mut store_tail, reference(22, parts.formats));
    assert(fields_view(store_tail@) =~= seq![spec_reference_field(4, parts.strings), spec_reference_field(5, parts.styles), spec_reference_field(6, parts.formulas), spec_varint(7, 1), spec_varint(8, 0), spec_nested(9, seq![spec_nested(1, seq![spec_varint(1, 0), spec_varint(2, 0)])]), spec_bytes(10, Seq::empty()), spec_reference_field(11, parts.conditional), spec_varint(14, 4), spec_reference_field(19, parts.list_10), spec_reference_field(20, parts.list_11), spec_reference_field(21, parts.controls), spec_reference_field(22, parts.formats)]);
    append_fields(&mut out, store_tail);
    assert(fields_view(out@) =~= spec_data_store(*parts));
    out
}

fn model_layout(parts: &TableParts) -> (r: Vec<Field>)
    requires
        parts.cell_styles@.len() >= 17,
        parts.text_styles@.len() >= 8,
    ensures
        fields_view(r@) == spec_model_layout(*parts),
{
    let mut after_name: Vec<Field> = Vec::new();
    push_field(&mut after_name, varint(9, 1));
    push_field(&mut after_name, varint(10, 1));
    push_field(&mut after_name, varint(11, 0));
    push_field(&mut after_name, varint(12, 1));
    push_field(&mut after_name, varint(13, 1));
    let a3: [u8; 8] = [0u8, 0u8, 0u8, 0u8, 16u8, 238u8, 51u8, 64u8];
    assert(a3@ =~= seq![0u8, 0u8, 0u8, 0u8, 16u8, 238u8, 51u8, 64u8]);
    push_field(&mut after_name, Field { number: 16, value: Value::Fixed64(a3) });
    let a4: [u8; 8] = [0u8, 0u8, 0u8, 0u8, 0u8, 128u8, 88u8, 64u8];
    assert(a4@ =~= seq![0u8, 0u8, 0u8, 0u8, 0u8, 128u8, 88u8, 64u8]);
    push_field(&mut after_name, Field { number: 17, value: Value::Fixed64(a4) });
    push_field(&mut after_name, reference(3, parts.table_style));
    push_field(&mut after_name, reference(18, parts.cell_styles[0]));
    push_field(&mut after_name, reference(19, parts.cell_styles[1]));
    push_field(&mut after_name, reference(20, parts.cell_styles[2]));
    push_field(&mut after_name, reference(21, parts.cell_styles[3]));
    push_field(&mut after_name, varint(22, 1));
    push_field(&mut after_name, reference(24, parts.text_styles[0]));
    push_field(&mut after_name, reference(25, parts.text_styles[1]));
    push_field(&mut after_name, reference(26, parts.text_styles[1]));
    push_field(&mut after_name, reference(27, parts.text_styles[1]));
    push_field(&mut after_name, varint(29, 1));
    push_field(&mut after_name, reference(30, parts.text_styles[1]));
    push_field(&mut after_name, varint(31, 0));
    push_field(&mut after_name, varint(32, 1));
    let a5: [u8; 8] = [0u8, 0u8, 0u8, 0u8, 0u8, 0u8, 0u8, 0u8];
    assert(a5@ =~= seq![0u8, 0u8, 0u8, 0u8, 0u8, 0u8, 0u8, 0u8]);
    push_field(&mut after_name, Field { number: 33, value: Value::Fixed64(a5) });
    push_field(&mut after_name, nested(39, uid(parts.seed, 1)));
    push_field(&mut after_name, reference(44, 0));
    let mut g6: Vec<Field> = Vec::new();
    push_field(&mut g6, nested(1, uid(parts.seed, 2)));
    let mut g7: Vec<Field> = Vec::new();
    push_field(&mut g7, varint(2, 0));
    assert(fields_view(g7@) =~= seq![spec_varint(2, 0)]);
    push_field(&mut g6, nested(2, g7));
    assert(fields_view(g6@) =~= seq![spec_nested(1, spec_uid(parts.seed, 2)), spec_nested(2, seq![spec_varint(2, 0)])]);
    push_field(&mut after_name, nested(47, g6));
    assert(fields_view(after_name@) =~= seq![spec_varint(9, 1), spec_varint(10, 1), spec_varint(11, 0), spec_varint(12, 1), spec_varint(13, 1), SpecField { number: 16, value: SpecValue::Fixed64(seq![0u8, 0u8, 0u8, 0u8, 16u8, 238u8, 51u8, 64u8]) }, SpecField { number: 17, value: SpecValue::Fixed64(seq![0u8, 0u8, 0u8, 0u8, 0u8, 128u8, 88u8, 64u8]) }, spec_reference_field(3, parts.table_style), spec_reference_field(18, parts.cell_styles[0]), spec_reference_field(19, parts.cell_styles[1]), spec_reference_field(20, parts.cell_styles[2]), spec_reference_field(21, parts.cell_styles[3]), spec_varint(22, 1), spec_reference_field(24, parts.text_styles[0]), spec_reference_field(25, parts.text_styles[1]), spec_reference_field(26, parts.text_styles[1]), spec_reference_field(27, parts.text_styles[1]), spec_varint(29, 1), spec_reference_field(30, parts.text_styles[1]), spec_varint(31, 0), spec_varint(32, 1), SpecField { number: 33, value: SpecValue::Fixed64(seq![0u8, 0u8, 0u8, 0u8, 0u8, 0u8, 0u8, 0u8]) }, spec_nested(39, spec_uid(parts.seed, 1)), spec_reference_field(44, 0), spec_nested(47, seq![spec_nested(1, spec_uid(parts.seed, 2)), spec_nested(2, seq![spec_varint(2, 0)])])]);
    after_name
}

fn model_area_styles(parts: &TableParts) -> (r: Vec<Field>)
    requires
        parts.cell_styles@.len() >= 17,
        parts.text_styles@.len() >= 8,
    ensures
        fields_view(r@) == spec_model_area_styles(*parts),
{
    let mut styles: Vec<Field> = Vec::new();
    push_field(&mut styles, reference(60, parts.cell_styles[4]));
    push_field(&mut styles, reference(61, parts.cell_styles[5]));
    push_field(&mut styles, reference(62, parts.cell_styles[6]));
    push_field(&mut styles, reference(63, parts.cell_styles[7]));
    push_field(&mut styles, reference(64, parts.cell_styles[8]));
    push_field(&mut styles, reference(65, parts.text_styles[1]));
    push_field(&mut styles, reference(66, parts.text_styles[1]));
    push_field(&mut styles, reference(67, parts.text_styles[1]));
    push_field(&mut styles, reference(68, parts.text_styles[1]));
    push_field(&mut styles, reference(69, parts.text_styles[1]));
    push_field(&mut styles, reference(71, parts.cell_styles[9]));
    push_field(&mut styles, reference(72, parts.cell_styles[10]));
    push_field(&mut styles, reference(73, parts.cell_styles[11]));
    push_field(&mut styles, reference(74, parts.cell_styles[12]));
    push_field(&mut styles, reference(75, parts.cell_styles[13]));
    push_field(&mut styles, reference(76, parts.text_styles[3]));
    push_field(&mut styles, reference(77, parts.text_styles[4]));
    push_field(&mut styles, reference(78, parts.text_styles[5]));
    push_field(&mut styles, reference(79, parts.text_styles[6]));
    push_field(&mut styles, reference(80, parts.text_styles[7]));
    assert(fields_view(styles@) =~= seq![spec_reference_field(60, parts.cell_styles[4]), spec_reference_field(61, parts.cell_styles[5]), spec_reference_field(62, parts.cell_styles[6]), spec_reference_field(63, parts.cell_styles[7]), spec_reference_field(64, parts.cell_styles[8]), spec_reference_field(65, parts.text_styles[1]), spec_reference_field(66, parts.text_styles[1]), spec_reference_field(67, parts.text_styles[1]), spec_reference_field(68, parts.text_styles[1]), spec_reference_field(69, parts.text_styles[1]), spec_reference_field(71, parts.cell_styles[9]), spec_reference_field(72, parts.cell_styles[10]), spec_reference_field(73, parts.cell_styles[11]), spec_reference_field(74, parts.cell_styles[12]), spec_reference_field(75, parts.cell_styles[13]), spec_reference_field(76, parts.text_styles[3]), spec_reference_field(77, parts.text_styles[4]), spec_reference_field(78, parts.text_styles[5]), spec_reference_field(79, parts.text_styles[6]), spec_reference_field(80, parts.text_styles[7])]);
    styles
}

fn model_owners(parts: &TableParts) -> (r: Vec<Field>)
    requires
        parts.cell_styles@.len() >= 17,
        parts.text_styles@.len() >= 8,
    ensures
        fields_view(r@) == spec_model_owners(*parts),
{
    let mut tail: Vec<Field> = Vec::new();
    let mut g8: Vec<Field> = Vec::new();
    let mut g9: Vec<Field> = Vec::new();
    push_field(&mut g9, varint(1, 0));
    push_field(&mut g9, varint(2, 0));
    assert(fields_view(g9@) =~= seq![spec_varint(1, 0), spec_varint(2, 0)]);
    push_field(&mut g8, nested(1, g9));
    let mut g10: Vec<Field> = Vec::new();
    push_field(&mut g10, nested(1, uuid_pair(parts.seed, 3)));
    let mut g11: Vec<Field> = Vec::new();
    let mut g12: Vec<Field> = Vec::new();
    push_field(&mut g12, varint(1, 1));
    push_field(&mut g12, varint(2, 0));
    assert(fields_view(g12@) =~= seq![spec_varint(1, 1), spec_varint(2, 0)]);
    push_field(&mut g11, nested(1, g12));
    push_field(&mut g11, bytes(6, Vec::new()));
    assert(fields_view(g11@) =~= seq![spec_nested(1, seq![spec_varint(1, 1), spec_varint(2, 0)]), spec_bytes(6, Seq::empty())]);
    push_field(&mut g10, nested(3, g11));
    push_field(&mut g10, varint(6, 0));
    let mut g13: Vec<Field> = Vec::new();
    push_field(&mut g13, varint(2, 0));
    push_field(&mut g13, varint(3, 0));
    assert(fields_view(g13@) =~= seq![spec_varint(2, 0), spec_varint(3, 0)]);
    push_field(&mut g10, nested(7, g13));
    let mut g14: Vec<Field> = Vec::new();
    push_field(&mut g14, varint(2, 1));
    push_field(&mut g14, varint(3, 0));
    assert(fields_view(g14@) =~= seq![spec_varint(2, 1), spec_varint(3, 0)]);
    push_field(&mut g10, nested(8, g14));
    let mut g15: Vec<Field> = Vec::new();
    push_field(&mut g15, varint(2, 3));
    push_field(&mut g15, varint(3, 0));
    assert(fields_view(g15@) =~= seq![spec_varint(2, 3), spec_varint(3, 0)]);
    push_field(&mut g10, nested(9, g15));
    let mut g16: Vec<Field> = Vec::new();
    push_field(&mut g16, varint(2, 2));
    push_field(&mut g16, varint(3, 0));
    assert(fields_view(g16@) =~= seq![spec_varint(2, 2), spec_varint(3, 0)]);
    push_field(&mut g10, nested(10, g16));
    let mut g17: Vec<Field> = Vec::new();
    push_field(&mut g17, varint(2, 4));
    push_field(&mut g17, varint(3, 0));
    assert(fields_view(g17@) =~= seq![spec_varint(2, 4), spec_varint(3, 0)]);
    push_field(&mut g10, nested(11, g17));
    let mut g18: Vec<Field> = Vec::new();
    push_field(&mut g18, varint(2, 5));
    push_field(&mut g18, varint(3, 0));
    assert(fields_view(g18@) =~= seq![spec_varint(2, 5), spec_varint(3, 0)]);
    push_field(&mut g10, nested(12, g18));
    let mut g19: Vec<Field> = Vec::new();
    push_field(&mut g19, varint(2, 6));
    push_field(&mut g19, varint(3, 0));
    assert(fields_view(g19@) =~= seq![spec_varint(2, 6), spec_varint(3, 0)]);
    push_field(&mut g10, nested(13, g19));
    push_field(&mut g10, varint(14, 8));
    let mut g20: Vec<Field> = Vec::new();
    push_field(&mut g20, varint(2, 7));
    push_field(&mut g20, varint(3, 0));
    assert(fields_view(g20@) =~= seq![spec_varint(2, 7), spec_varint(3, 0)]);
    push_field(&mut g10, nested(16, g20));
    assert(fields_view(g10@) =~= seq![spec_nested(1, spec_uuid_pair(parts.seed, 3)), spec_nested(3, seq![spec_nested(1, seq![spec_varint(1, 1), spec_varint(2, 0)]), spec_bytes(6, Seq::empty())]), spec_varint(6, 0), spec_nested(7, seq![spec_varint(2, 0), spec_varint(3, 0)]), spec_nested(8, seq![spec_varint(2, 1), spec_varint(3, 0)]), spec_nested(9, seq![spec_varint(2, 3), spec_varint(3, 0)]), spec_nested(10, seq![spec_varint(2, 2), spec_varint(3, 0)]), spec_nested(11, seq![spec_varint(2, 4), spec_varint(3, 0)]), spec_nested(12, seq![spec_varint(2, 5), spec_varint(3, 0)]), spec_nested(13, seq![spec_varint(2, 6), spec_varint(3, 0)]), spec_varint(14, 8), spec_nested(16, seq![spec_varint(2, 7), spec_varint(3, 0)])]);
    push_field(&mut g8, nested(2, g10));
    assert(fields_view(g8@) =~= seq![spec_nested(1, seq![spec_varint(1, 0), spec_varint(2, 0)]), spec_nested(2, seq![spec_nested(1, spec_uuid_pair(parts.seed, 3)), spec_nested(3, seq![spec_nested(1, seq![spec_varint(1, 1), spec_varint(2, 0)]), spec_bytes(6, Seq::empty())]), spec_varint(6, 0), spec_nested(7, seq![spec_varint(2, 0), spec_varint(3, 0)]), spec_nested(8, seq![spec_varint(2, 1), spec_varint(3, 0)]), spec_nested(9, seq![spec_varint(2, 3), spec_varint(3, 0)]), spec_nested(10, seq![spec_varint(2, 2), spec_varint(3, 0)]), spec_nested(11, seq![spec_varint(2, 4), spec_varint(3, 0)]), spec_nested(12, seq![spec_varint(2, 5), spec_varint(3, 0)]), spec_nested(13, seq![spec_varint(2, 6), spec_varint(3, 0)]), spec_varint(14, 8), spec_nested(16, seq![spec_varint(2, 7), spec_varint(3, 0)])])]);
    push_field(&mut tail, nested(81, g8));
    let mut g21: Vec<Field> = Vec::new();
    push_field(&mut g21, nested(1, uid(parts.seed, 4)));
    let mut g22: Vec<Field> = Vec::new();
    push_field(&mut g22, varint(2, 0));
    assert(fields_view(g22@) =~= seq![spec_varint(2, 0)]);
    push_field(&mut g21, nested(2, g22));
    assert(fields_view(g21@) =~= seq![spec_nested(1, spec_uid(parts.seed, 4)), spec_nested(2, seq![spec_varint(2, 0)])]);
    push_field(&mut tail, nested(82, g21));
    let mut g23: Vec<Field> = Vec::new();
    push_field(&mut g23, nested(1, uuid_pair(parts.seed, 5)));
    assert(fields_view(g23@) =~= seq![spec_nested(1, spec_uuid_pair(parts.seed, 5))]);
    push_field(&mut tail, nested(84, g23));
    push_field(&mut tail, reference(87, parts.cell_styles[14]));
    push_field(&mut tail, reference(88, parts.cell_styles[15]));
    push_field(&mut tail, reference(89, parts.cell_styles[16]));
    let mut g24: Vec<Field> = Vec::new();
    push_field(&mut g24, nested(1, uuid_pair(parts.seed, 6)));
    assert(fields_view(g24@) =~= seq![spec_nested(1, spec_uuid_pair(parts.seed, 6))]);
    push_field(&mut tail, nested(93, g24));
    assert(fields_view(tail@) =~= seq![spec_nested(81, seq![spec_nested(1, seq![spec_varint(1, 0), spec_varint(2, 0)]), spec_nested(2, seq![spec_nested(1, spec_uuid_pair(parts.seed, 3)), spec_nested(3, seq![spec_nested(1, seq![spec_varint(1, 1), spec_varint(2, 0)]), spec_bytes(6, Seq::empty())]), spec_varint(6, 0), spec_nested(7, seq![spec_varint(2, 0), spec_varint(3, 0)]), spec_nested(8, seq![spec_varint(2, 1), spec_varint(3, 0)]), spec_nested(9, seq![spec_varint(2, 3), spec_varint(3, 0)]), spec_nested(10, seq![spec_varint(2, 2), spec_varint(3, 0)]), spec_nested(11, seq![spec_varint(2, 4), spec_varint(3, 0)]), spec_nested(12, seq![spec_varint(2, 5), spec_varint(3, 0)]), spec_nested(13, seq![spec_varint(2, 6), spec_varint(3, 0)]), spec_varint(14, 8), spec_nested(16, seq![spec_varint(2, 7), spec_varint(3, 0)])])]), spec_nested(82, seq![spec_nested(1, spec_uid(parts.seed, 4)), spec_nested(2, seq![spec_varint(2, 0)])]), spec_nested(84, seq![spec_nested(1, spec_uuid_pair(parts.seed, 5))]), spec_reference_field(87, parts.cell_styles[14]), spec_reference_field(88, parts.cell_styles[15]), spec_reference_field(89, parts.cell_styles[16]), spec_nested(93, seq![spec_nested(1, spec_uuid_pair(parts.seed, 6))])]);
    tail
}

/// `TST.TableModelArchive` — the table, with its `TST.DataStore` inline.
///
/// The row/column asymmetry at the data store is Apple's: rows get a *list*
/// of bucket references and columns get a single one. `table_id` is the
/// table's `table_id`, an uppercase UUID as Numbers writes it.
pub fn table_model(parts: &TableParts, table_id: &str) -> (m: Message)
    requires
        parts.cell_styles@.len() >= 17,
        parts.text_styles@.len() >= 8,
    ensures
        m@ == spec_table_model(*parts, table_id@),
{
    let mut fields: Vec<Field> = Vec::new();
    push_field(&mut fields, string(1, table_id));
    push_field(&mut fields, nested(4, data_store(parts)));
    push_field(&mut fields, varint(6, parts.rows as u64));
    push_field(&mut fields, varint(7, parts.columns as u64));
    push_field(&mut fields, string(8, parts.name.as_str()));
    append_fields(&mut fields, model_layout(parts));
    append_fields(&mut fields, model_area_styles(parts));
    append_fields(&mut fields, model_owners(parts));
    assert(fields_view(fields@) =~= spec_table_model(*parts, table_id@));
    message(fields)
}


// -- document templates -------------------------------------------------------------

/// The root object of a document, 1 by convention in every document.
pub const ROOT: u64 = 1;
/// The document's `DocumentMetadata`, 71 by the same convention.
pub const DOCUMENT_METADATA: u64 = 71;

/// The four little-endian bytes of a 32-bit word — how a `float` field is
/// written, given the float's IEEE 754 bit pattern.
pub open spec fn le_bytes(bits: u32) -> Seq<u8> {
    seq![
        (bits % 256) as u8,
        ((bits / 256) % 256) as u8,
        ((bits / 65536) % 256) as u8,
        (bits / 16777216) as u8,
    ]
}

/// A four-byte field.
pub open spec fn spec_fixed32(number: u32, bytes: Seq<u8>) -> SpecField {
    SpecField { number, value: SpecValue::Fixed32(bytes) }
}

/// A `float` field, from the float's bit pattern.
pub fn fixed32(number: u32, bits: u32) -> (f: Field)
    ensures
        f@ == spec_fixed32(number, le_bytes(bits)),
{
    let bytes: [u8; 4] = [
        (bits % 256) as u8,
        ((bits / 256) % 256) as u8,
        ((bits / 65536) % 256) as u8,
        (bits / 16777216) as u8,
    ];
    assert(bytes@ =~= le_bytes(bits));
    Field { number, value: Value::Fixed32(bytes) }
}

/// 1.0 as a float's bit pattern.
pub const FLOAT_ONE: u32 = 0x3F80_0000;

/// `TSP.Color` in the sRGB form every style uses: model 1, three components,
/// an opaque alpha, and colour space 1 at field 12 (and its alpha again at
/// 13). The components are given as floats' bit patterns.
pub open spec fn spec_colour(red: u32, green: u32, blue: u32) -> Seq<SpecField> {
    seq![
        spec_varint(1, 1),
        spec_fixed32(3, le_bytes(red)),
        spec_fixed32(4, le_bytes(green)),
        spec_fixed32(5, le_bytes(blue)),
        spec_fixed32(6, le_bytes(FLOAT_ONE)),
        spec_varint(12, 1),
        spec_fixed32(13, le_bytes(FLOAT_ONE)),
    ]
}

pub fn colour(red: u32, green: u32, blue: u32) -> (r: Vec<Field>)
    ensures
        fields_view(r@) == spec_colour(red, green, blue),
{
    let mut fields: Vec<Field> = Vec::new();
    push_field(&mut fields, varint(1, 1));
    push_field(&mut fields, fixed32(3, red));
    push_field(&mut fields, fixed32(4, green));
    push_field(&mut fields, fixed32(5, blue));
    push_field(&mut fields, fixed32(6, FLOAT_ONE));
    push_field(&mut fields, varint(12, 1));
    push_field(&mut fields, fixed32(13, FLOAT_ONE));
    assert(fields_view(fields@) =~= spec_colour(red, green, blue));
    fields
}

/// `TSP.Color`, white and opaque.
pub fn white() -> (r: Vec<Field>)
    ensures
        fields_view(r@) == spec_colour(FLOAT_ONE, FLOAT_ONE, FLOAT_ONE),
{
    colour(FLOAT_ONE, FLOAT_ONE, FLOAT_ONE)
}

/// `TSP.Color`, black and opaque.
pub fn black() -> (r: Vec<Field>)
    ensures
        fields_view(r@) == spec_colour(0, 0, 0),
{
    colour(0, 0, 0)
}

/// A style that is nothing but a name and the stylesheet it belongs to.
pub open spec fn spec_named_style(identifier: Seq<char>, stylesheet: u64) -> Seq<SpecField> {
    seq![spec_nested(1, seq![spec_bytes(2, encode_utf8(identifier)), spec_reference_field(5, stylesheet)])]
}

pub fn named_style(identifier: &str, stylesheet: u64) -> (m: Message)
    ensures
        m@ == spec_named_style(identifier@, stylesheet),
{
    let mut fields: Vec<Field> = Vec::new();
    let mut g1: Vec<Field> = Vec::new();
    push_field(&mut g1, string(2, identifier));
    push_field(&mut g1, reference(5, stylesheet));
    assert(fields_view(g1@) =~= seq![spec_bytes(2, encode_utf8(identifier@)), spec_reference_field(5, stylesheet)]);
    push_field(&mut fields, nested(1, g1));
    assert(fields_view(fields@) =~= seq![spec_nested(1, seq![spec_bytes(2, encode_utf8(identifier@)), spec_reference_field(5, stylesheet)])]);
    message(fields)
}

/// `TST.CellStyleArchive` — a cell's padding (four insets of 4 pt) and its fill.
pub open spec fn spec_cell_style(identifier: Seq<char>, stylesheet: u64) -> Seq<SpecField> {
    seq![spec_nested(1, seq![spec_bytes(2, encode_utf8(identifier)), spec_reference_field(5, stylesheet)]), spec_nested(11, seq![spec_bytes(1, Seq::empty()), spec_varint(3, 1), spec_varint(8, 0), spec_nested(9, seq![spec_fixed32(1, le_bytes(0x40800000)), spec_fixed32(2, le_bytes(0x40800000)), spec_fixed32(3, le_bytes(0x40800000)), spec_fixed32(4, le_bytes(0x40800000))])])]
}

pub fn cell_style(identifier: &str, stylesheet: u64) -> (m: Message)
    ensures
        m@ == spec_cell_style(identifier@, stylesheet),
{
    let mut fields: Vec<Field> = Vec::new();
    let mut g2: Vec<Field> = Vec::new();
    push_field(&mut g2, string(2, identifier));
    push_field(&mut g2, reference(5, stylesheet));
    assert(fields_view(g2@) =~= seq![spec_bytes(2, encode_utf8(identifier@)), spec_reference_field(5, stylesheet)]);
    push_field(&mut fields, nested(1, g2));
    let mut g3: Vec<Field> = Vec::new();
    push_field(&mut g3, bytes(1, Vec::new()));
    push_field(&mut g3, varint(3, 1));
    push_field(&mut g3, varint(8, 0));
    let mut g4: Vec<Field> = Vec::new();
    push_field(&mut g4, fixed32(1, 0x40800000));
    push_field(&mut g4, fixed32(2, 0x40800000));
    push_field(&mut g4, fixed32(3, 0x40800000));
    push_field(&mut g4, fixed32(4, 0x40800000));
    assert(fields_view(g4@) =~= seq![spec_fixed32(1, le_bytes(0x40800000)), spec_fixed32(2, le_bytes(0x40800000)), spec_fixed32(3, le_bytes(0x40800000)), spec_fixed32(4, le_bytes(0x40800000))]);
    push_field(&mut g3, nested(9, g4));
    assert(fields_view(g3@) =~= seq![spec_bytes(1, Seq::empty()), spec_varint(3, 1), spec_varint(8, 0), spec_nested(9, seq![spec_fixed32(1, le_bytes(0x40800000)), spec_fixed32(2, le_bytes(0x40800000)), spec_fixed32(3, le_bytes(0x40800000)), spec_fixed32(4, le_bytes(0x40800000))])]);
    push_field(&mut fields, nested(11, g3));
    assert(fields_view(fields@) =~= seq![spec_nested(1, seq![spec_bytes(2, encode_utf8(identifier@)), spec_reference_field(5, stylesheet)]), spec_nested(11, seq![spec_bytes(1, Seq::empty()), spec_varint(3, 1), spec_varint(8, 0), spec_nested(9, seq![spec_fixed32(1, le_bytes(0x40800000)), spec_fixed32(2, le_bytes(0x40800000)), spec_fixed32(3, le_bytes(0x40800000)), spec_fixed32(4, le_bytes(0x40800000))])])]);
    message(fields)
}

/// One of a sheet's six header and footer storages: a header (kind 1), empty,
/// and pointing at the styles that say what it would look like if it held anything.
pub open spec fn spec_page_storage(stylesheet: u64, paragraph: u64, list: u64) -> Seq<SpecField> {
    seq![spec_varint(1, 1), spec_reference_field(2, stylesheet), spec_attribute_table(5, paragraph), spec_nested(6, seq![spec_nested(1, seq![spec_varint(1, 0), spec_varint(2, 0), spec_varint(3, 0)])]), spec_attribute_table(7, list), spec_varint(10, 1), spec_nested(14, seq![spec_nested(1, seq![spec_varint(1, 0), spec_varint(2, 0), spec_varint(3, 0)])]), spec_nested(24, seq![spec_nested(1, seq![spec_varint(1, 0), spec_varint(2, 0), spec_varint(3, 0)])])]
}

pub fn page_storage(stylesheet: u64, paragraph: u64, list: u64) -> (m: Message)
    ensures
        m@ == spec_page_storage(stylesheet, paragraph, list),
{
    let mut fields: Vec<Field> = Vec::new();
    push_field(&mut fields, varint(1, 1));
    push_field(&mut fields, reference(2, stylesheet));
    push_field(&mut fields, attribute_table(5, paragraph));
    let mut g5: Vec<Field> = Vec::new();
    let mut g6: Vec<Field> = Vec::new();
    push_field(&mut g6, varint(1, 0));
    push_field(&mut g6, varint(2, 0));
    push_field(&mut g6, varint(3, 0));
    assert(fields_view(g6@) =~= seq![spec_varint(1, 0), spec_varint(2, 0), spec_varint(3, 0)]);
    push_field(&mut g5, nested(1, g6));
    assert(fields_view(g5@) =~= seq![spec_nested(1, seq![spec_varint(1, 0), spec_varint(2, 0), spec_varint(3, 0)])]);
    push_field(&mut fields, nested(6, g5));
    push_field(&mut fields, attribute_table(7, list));
    push_field(&mut fields, varint(10, 1));
    let mut g7: Vec<Field> = Vec::new();
    let mut g8: Vec<Field> = Vec::new();
    push_field(&mut g8, varint(1, 0));
    push_field(&mut g8, varint(2, 0));
    push_field(&mut g8, varint(3, 0));
    assert(fields_view(g8@) =~= seq![spec_varint(1, 0), spec_varint(2, 0), spec_varint(3, 0)]);
    push_field(&mut g7, nested(1, g8));
    assert(fields_view(g7@) =~= seq![spec_nested(1, seq![spec_varint(1, 0), spec_varint(2, 0), spec_varint(3, 0)])]);
    push_field(&mut fields, nested(14, g7));
    let mut g9: Vec<Field> = Vec::new();
    let mut g10: Vec<Field> = Vec::new();
    push_field(&mut g10, varint(1, 0));
    push_field(&mut g10, varint(2, 0));
    push_field(&mut g10, varint(3, 0));
    assert(fields_view(g10@) =~= seq![spec_varint(1, 0), spec_varint(2, 0), spec_varint(3, 0)]);
    push_field(&mut g9, nested(1, g10));
    assert(fields_view(g9@) =~= seq![spec_nested(1, seq![spec_varint(1, 0), spec_varint(2, 0), spec_varint(3, 0)])]);
    push_field(&mut fields, nested(24, g9));
    assert(fields_view(fields@) =~= seq![spec_varint(1, 1), spec_reference_field(2, stylesheet), spec_attribute_table(5, paragraph), spec_nested(6, seq![spec_nested(1, seq![spec_varint(1, 0), spec_varint(2, 0), spec_varint(3, 0)])]), spec_attribute_table(7, list), spec_varint(10, 1), spec_nested(14, seq![spec_nested(1, seq![spec_varint(1, 0), spec_varint(2, 0), spec_varint(3, 0)])]), spec_nested(24, seq![spec_nested(1, seq![spec_varint(1, 0), spec_varint(2, 0), spec_varint(3, 0)])])]);
    message(fields)
}

/// `TN.SheetStyleArchive` — a white sheet.
pub open spec fn spec_sheet_style(stylesheet: u64) -> Seq<SpecField> {
    seq![spec_nested(1, seq![spec_bytes(2, encode_utf8("sheet-0-sheetStyle"@)), spec_reference_field(5, stylesheet)]), spec_varint(2, 2), spec_nested(3, seq![spec_nested(1, seq![spec_nested(1, spec_colour(0x3F800000, 0x3F800000, 0x3F800000))]), spec_bytes(2, Seq::empty())])]
}

pub fn sheet_style(stylesheet: u64) -> (m: Message)
    ensures
        m@ == spec_sheet_style(stylesheet),
{
    let mut fields: Vec<Field> = Vec::new();
    let mut g11: Vec<Field> = Vec::new();
    push_field(&mut g11, string(2, "sheet-0-sheetStyle"));
    push_field(&mut g11, reference(5, stylesheet));
    assert(fields_view(g11@) =~= seq![spec_bytes(2, encode_utf8("sheet-0-sheetStyle"@)), spec_reference_field(5, stylesheet)]);
    push_field(&mut fields, nested(1, g11));
    push_field(&mut fields, varint(2, 2));
    let mut g12: Vec<Field> = Vec::new();
    let mut g13: Vec<Field> = Vec::new();
    push_field(&mut g13, nested(1, colour(0x3F800000, 0x3F800000, 0x3F800000)));
    assert(fields_view(g13@) =~= seq![spec_nested(1, spec_colour(0x3F800000, 0x3F800000, 0x3F800000))]);
    push_field(&mut g12, nested(1, g13));
    push_field(&mut g12, bytes(2, Vec::new()));
    assert(fields_view(g12@) =~= seq![spec_nested(1, seq![spec_nested(1, spec_colour(0x3F800000, 0x3F800000, 0x3F800000))]), spec_bytes(2, Seq::empty())]);
    push_field(&mut fields, nested(3, g12));
    assert(fields_view(fields@) =~= seq![spec_nested(1, seq![spec_bytes(2, encode_utf8("sheet-0-sheetStyle"@)), spec_reference_field(5, stylesheet)]), spec_varint(2, 2), spec_nested(3, seq![spec_nested(1, seq![spec_nested(1, spec_colour(0x3F800000, 0x3F800000, 0x3F800000))]), spec_bytes(2, Seq::empty())])]);
    message(fields)
}

/// `TN.DocumentArchive` — object 1, and type 1: the sheet, the stylesheet, the
/// `TSK` 205 support object, the theme and the calculation engine, none of which a
/// Numbers document may go without.
pub open spec fn spec_numbers_document(sheet: u64, stylesheet: u64, support: u64, theme: u64, engine: u64) -> Seq<SpecField> {
    seq![spec_reference_field(1, sheet), spec_reference_field(4, stylesheet), spec_reference_field(5, support), spec_reference_field(6, theme), spec_nested(8, seq![spec_nested(1, seq![]), spec_reference_field(4, engine)])]
}

pub fn numbers_document(sheet: u64, stylesheet: u64, support: u64, theme: u64, engine: u64) -> (m: Message)
    ensures
        m@ == spec_numbers_document(sheet, stylesheet, support, theme, engine),
{
    let mut fields: Vec<Field> = Vec::new();
    push_field(&mut fields, reference(1, sheet));
    push_field(&mut fields, reference(4, stylesheet));
    push_field(&mut fields, reference(5, support));
    push_field(&mut fields, reference(6, theme));
    let mut g14: Vec<Field> = Vec::new();
    let mut g15: Vec<Field> = Vec::new();
    assert(fields_view(g15@) =~= seq![]);
    push_field(&mut g14, nested(1, g15));
    push_field(&mut g14, reference(4, engine));
    assert(fields_view(g14@) =~= seq![spec_nested(1, seq![]), spec_reference_field(4, engine)]);
    push_field(&mut fields, nested(8, g14));
    assert(fields_view(fields@) =~= seq![spec_reference_field(1, sheet), spec_reference_field(4, stylesheet), spec_reference_field(5, support), spec_reference_field(6, theme), spec_nested(8, seq![spec_nested(1, seq![]), spec_reference_field(4, engine)])]);
    message(fields)
}

/// `TSWP.ColumnStyleArchive` — "None": one column, equal widths, no gap.
pub open spec fn spec_column_style(stylesheet: u64) -> Seq<SpecField> {
    seq![spec_nested(1, seq![spec_bytes(1, encode_utf8("None"@)), spec_bytes(2, encode_utf8("column-style-default"@)), spec_reference_field(5, stylesheet)]), spec_varint(10, 9), spec_nested(11, seq![spec_varint(1, 1), spec_varint(2, 0), spec_varint(3, 0), spec_fixed32(4, le_bytes(0x00000000)), spec_varint(5, 0), spec_nested(7, seq![spec_reference_field(1, ROOT)])])]
}

pub fn column_style(stylesheet: u64) -> (m: Message)
    ensures
        m@ == spec_column_style(stylesheet),
{
    let mut fields: Vec<Field> = Vec::new();
    let mut g16: Vec<Field> = Vec::new();
    push_field(&mut g16, string(1, "None"));
    push_field(&mut g16, string(2, "column-style-default"));
    push_field(&mut g16, reference(5, stylesheet));
    assert(fields_view(g16@) =~= seq![spec_bytes(1, encode_utf8("None"@)), spec_bytes(2, encode_utf8("column-style-default"@)), spec_reference_field(5, stylesheet)]);
    push_field(&mut fields, nested(1, g16));
    push_field(&mut fields, varint(10, 9));
    let mut g17: Vec<Field> = Vec::new();
    push_field(&mut g17, varint(1, 1));
    push_field(&mut g17, varint(2, 0));
    push_field(&mut g17, varint(3, 0));
    push_field(&mut g17, fixed32(4, 0x00000000));
    push_field(&mut g17, varint(5, 0));
    let mut g18: Vec<Field> = Vec::new();
    push_field(&mut g18, reference(1, ROOT));
    assert(fields_view(g18@) =~= seq![spec_reference_field(1, ROOT)]);
    push_field(&mut g17, nested(7, g18));
    assert(fields_view(g17@) =~= seq![spec_varint(1, 1), spec_varint(2, 0), spec_varint(3, 0), spec_fixed32(4, le_bytes(0x00000000)), spec_varint(5, 0), spec_nested(7, seq![spec_reference_field(1, ROOT)])]);
    push_field(&mut fields, nested(11, g17));
    assert(fields_view(fields@) =~= seq![spec_nested(1, seq![spec_bytes(1, encode_utf8("None"@)), spec_bytes(2, encode_utf8("column-style-default"@)), spec_reference_field(5, stylesheet)]), spec_varint(10, 9), spec_nested(11, seq![spec_varint(1, 1), spec_varint(2, 0), spec_varint(3, 0), spec_fixed32(4, le_bytes(0x00000000)), spec_varint(5, 0), spec_nested(7, seq![spec_reference_field(1, ROOT)])])]);
    message(fields)
}

/// The anonymous column style the body points at: a *variation*, with no name,
/// a parent, and field 4 set, inheriting everything from the style above.
pub open spec fn spec_column_variation(stylesheet: u64, parent: u64) -> Seq<SpecField> {
    seq![spec_nested(1, seq![spec_reference_field(3, parent), spec_varint(4, 1), spec_reference_field(5, stylesheet)]), spec_varint(10, 1)]
}

pub fn column_variation(stylesheet: u64, parent: u64) -> (m: Message)
    ensures
        m@ == spec_column_variation(stylesheet, parent),
{
    let mut fields: Vec<Field> = Vec::new();
    let mut g19: Vec<Field> = Vec::new();
    push_field(&mut g19, reference(3, parent));
    push_field(&mut g19, varint(4, 1));
    push_field(&mut g19, reference(5, stylesheet));
    assert(fields_view(g19@) =~= seq![spec_reference_field(3, parent), spec_varint(4, 1), spec_reference_field(5, stylesheet)]);
    push_field(&mut fields, nested(1, g19));
    push_field(&mut fields, varint(10, 1));
    assert(fields_view(fields@) =~= seq![spec_nested(1, seq![spec_reference_field(3, parent), spec_varint(4, 1), spec_reference_field(5, stylesheet)]), spec_varint(10, 1)]);
    message(fields)
}

/// `TSWP.StorageArchive` for the body of a word-processing document (kind 0): no
/// text, and one entry in every attribute table, at character 0.
pub open spec fn spec_body_storage(stylesheet: u64, paragraph: u64, list: u64, column: u64) -> Seq<SpecField> {
    seq![spec_varint(1, 0), spec_reference_field(2, stylesheet), spec_attribute_table(5, paragraph), spec_nested(6, seq![spec_nested(1, seq![spec_varint(1, 0), spec_varint(2, 0), spec_varint(3, 0)])]), spec_attribute_table(7, list), spec_varint(10, 1), spec_attribute_table(12, column), spec_nested(14, seq![spec_nested(1, seq![spec_varint(1, 0), spec_varint(2, 0), spec_varint(3, 0)])]), spec_nested(24, seq![spec_nested(1, seq![spec_varint(1, 0), spec_varint(2, 0), spec_varint(3, 0)])])]
}

pub fn body_storage(stylesheet: u64, paragraph: u64, list: u64, column: u64) -> (m: Message)
    ensures
        m@ == spec_body_storage(stylesheet, paragraph, list, column),
{
    let mut fields: Vec<Field> = Vec::new();
    push_field(&mut fields, varint(1, 0));
    push_field(&mut fields, reference(2, stylesheet));
    push_field(&mut fields, attribute_table(5, paragraph));
    let mut g20: Vec<Field> = Vec::new();
    let mut g21: Vec<Field> = Vec::new();
    push_field(&mut g21, varint(1, 0));
    push_field(&mut g21, varint(2, 0));
    push_field(&mut g21, varint(3, 0));
    assert(fields_view(g21@) =~= seq![spec_varint(1, 0), spec_varint(2, 0), spec_varint(3, 0)]);
    push_field(&mut g20, nested(1, g21));
    assert(fields_view(g20@) =~= seq![spec_nested(1, seq![spec_varint(1, 0), spec_varint(2, 0), spec_varint(3, 0)])]);
    push_field(&mut fields, nested(6, g20));
    push_field(&mut fields, attribute_table(7, list));
    push_field(&mut fields, varint(10, 1));
    push_field(&mut fields, attribute_table(12, column));
    let mut g22: Vec<Field> = Vec::new();
    let mut g23: Vec<Field> = Vec::new();
    push_field(&mut g23, varint(1, 0));
    push_field(&mut g23, varint(2, 0));
    push_field(&mut g23, varint(3, 0));
    assert(fields_view(g23@) =~= seq![spec_varint(1, 0), spec_varint(2, 0), spec_varint(3, 0)]);
    push_field(&mut g22, nested(1, g23));
    assert(fields_view(g22@) =~= seq![spec_nested(1, seq![spec_varint(1, 0), spec_varint(2, 0), spec_varint(3, 0)])]);
    push_field(&mut fields, nested(14, g22));
    let mut g24: Vec<Field> = Vec::new();
    let mut g25: Vec<Field> = Vec::new();
    push_field(&mut g25, varint(1, 0));
    push_field(&mut g25, varint(2, 0));
    push_field(&mut g25, varint(3, 0));
    assert(fields_view(g25@) =~= seq![spec_varint(1, 0), spec_varint(2, 0), spec_varint(3, 0)]);
    push_field(&mut g24, nested(1, g25));
    assert(fields_view(g24@) =~= seq![spec_nested(1, seq![spec_varint(1, 0), spec_varint(2, 0), spec_varint(3, 0)])]);
    push_field(&mut fields, nested(24, g24));
    assert(fields_view(fields@) =~= seq![spec_varint(1, 0), spec_reference_field(2, stylesheet), spec_attribute_table(5, paragraph), spec_nested(6, seq![spec_nested(1, seq![spec_varint(1, 0), spec_varint(2, 0), spec_varint(3, 0)])]), spec_attribute_table(7, list), spec_varint(10, 1), spec_attribute_table(12, column), spec_nested(14, seq![spec_nested(1, seq![spec_varint(1, 0), spec_varint(2, 0), spec_varint(3, 0)])]), spec_nested(24, seq![spec_nested(1, seq![spec_varint(1, 0), spec_varint(2, 0), spec_varint(3, 0)])])]);
    message(fields)
}

/// A Pages stylesheet: its column styles at field 5, and at field 8 its named
/// styles twice, as references and as `{identifier, style}` entries — the keyed
/// form is what the app looks a style up by.
pub open spec fn spec_stylesheet_archive(column: u64, body_column: u64, body_style: u64, text_box_style: u64, image_style: u64) -> Seq<SpecField> {
    seq![spec_varint(4, 0), spec_nested(5, seq![spec_reference_field(1, column), spec_reference_field(2, body_column)]), spec_varint(6, 1), spec_nested(8, seq![spec_reference_field(1, body_style), spec_reference_field(1, text_box_style), spec_reference_field(1, image_style), spec_nested(2, seq![spec_bytes(1, encode_utf8("text-0-paragraphstyle-Body"@)), spec_reference_field(2, body_style)]), spec_nested(2, seq![spec_bytes(1, encode_utf8("textbox-style-preset-0"@)), spec_reference_field(2, text_box_style)]), spec_nested(2, seq![spec_bytes(1, encode_utf8("image-style-preset-0"@)), spec_reference_field(2, image_style)])])]
}

pub fn stylesheet_archive(column: u64, body_column: u64, body_style: u64, text_box_style: u64, image_style: u64) -> (m: Message)
    ensures
        m@ == spec_stylesheet_archive(column, body_column, body_style, text_box_style, image_style),
{
    let mut fields: Vec<Field> = Vec::new();
    push_field(&mut fields, varint(4, 0));
    let mut g26: Vec<Field> = Vec::new();
    push_field(&mut g26, reference(1, column));
    push_field(&mut g26, reference(2, body_column));
    assert(fields_view(g26@) =~= seq![spec_reference_field(1, column), spec_reference_field(2, body_column)]);
    push_field(&mut fields, nested(5, g26));
    push_field(&mut fields, varint(6, 1));
    let mut g27: Vec<Field> = Vec::new();
    push_field(&mut g27, reference(1, body_style));
    push_field(&mut g27, reference(1, text_box_style));
    push_field(&mut g27, reference(1, image_style));
    let mut g28: Vec<Field> = Vec::new();
    push_field(&mut g28, string(1, "text-0-paragraphstyle-Body"));
    push_field(&mut g28, reference(2, body_style));
    assert(fields_view(g28@) =~= seq![spec_bytes(1, encode_utf8("text-0-paragraphstyle-Body"@)), spec_reference_field(2, body_style)]);
    push_field(&mut g27, nested(2, g28));
    let mut g29: Vec<Field> = Vec::new();
    push_field(&mut g29, string(1, "textbox-style-preset-0"));
    push_field(&mut g29, reference(2, text_box_style));
    assert(fields_view(g29@) =~= seq![spec_bytes(1, encode_utf8("textbox-style-preset-0"@)), spec_reference_field(2, text_box_style)]);
    push_field(&mut g27, nested(2, g29));
    let mut g30: Vec<Field> = Vec::new();
    push_field(&mut g30, string(1, "image-style-preset-0"));
    push_field(&mut g30, reference(2, image_style));
    assert(fields_view(g30@) =~= seq![spec_bytes(1, encode_utf8("image-style-preset-0"@)), spec_reference_field(2, image_style)]);
    push_field(&mut g27, nested(2, g30));
    assert(fields_view(g27@) =~= seq![spec_reference_field(1, body_style), spec_reference_field(1, text_box_style), spec_reference_field(1, image_style), spec_nested(2, seq![spec_bytes(1, encode_utf8("text-0-paragraphstyle-Body"@)), spec_reference_field(2, body_style)]), spec_nested(2, seq![spec_bytes(1, encode_utf8("textbox-style-preset-0"@)), spec_reference_field(2, text_box_style)]), spec_nested(2, seq![spec_bytes(1, encode_utf8("image-style-preset-0"@)), spec_reference_field(2, image_style)])]);
    push_field(&mut fields, nested(8, g27));
    assert(fields_view(fields@) =~= seq![spec_varint(4, 0), spec_nested(5, seq![spec_reference_field(1, column), spec_reference_field(2, body_column)]), spec_varint(6, 1), spec_nested(8, seq![spec_reference_field(1, body_style), spec_reference_field(1, text_box_style), spec_reference_field(1, image_style), spec_nested(2, seq![spec_bytes(1, encode_utf8("text-0-paragraphstyle-Body"@)), spec_reference_field(2, body_style)]), spec_nested(2, seq![spec_bytes(1, encode_utf8("textbox-style-preset-0"@)), spec_reference_field(2, text_box_style)]), spec_nested(2, seq![spec_bytes(1, encode_utf8("image-style-preset-0"@)), spec_reference_field(2, image_style)])])]);
    message(fields)
}

/// `KN.SlideNodeArchive` — where a slide sits in the show: not skipped, no
/// builds, no transition, no note, the slide number hidden, at the top level of
/// the outline, with the background flag and a template slide id of its own.
pub open spec fn spec_keynote_slide_node(slide: u64, seed: u64) -> Seq<SpecField> {
    seq![spec_reference_field(2, slide), spec_varint(4, 0), spec_varint(6, 0), spec_varint(7, 0), spec_varint(8, 0), spec_varint(14, 1), spec_varint(18, 0), spec_varint(20, 0), spec_varint(21, 1), spec_varint(26, 4294967295), spec_varint(27, 2), spec_varint(28, 0), spec_nested(29, spec_uuid_pair(seed, 9))]
}

pub fn keynote_slide_node(slide: u64, seed: u64) -> (m: Message)
    ensures
        m@ == spec_keynote_slide_node(slide, seed),
{
    let mut fields: Vec<Field> = Vec::new();
    push_field(&mut fields, reference(2, slide));
    push_field(&mut fields, varint(4, 0));
    push_field(&mut fields, varint(6, 0));
    push_field(&mut fields, varint(7, 0));
    push_field(&mut fields, varint(8, 0));
    push_field(&mut fields, varint(14, 1));
    push_field(&mut fields, varint(18, 0));
    push_field(&mut fields, varint(20, 0));
    push_field(&mut fields, varint(21, 1));
    push_field(&mut fields, varint(26, 4294967295));
    push_field(&mut fields, varint(27, 2));
    push_field(&mut fields, varint(28, 0));
    push_field(&mut fields, nested(29, uuid_pair(seed, 9)));
    assert(fields_view(fields@) =~= seq![spec_reference_field(2, slide), spec_varint(4, 0), spec_varint(6, 0), spec_varint(7, 0), spec_varint(8, 0), spec_varint(14, 1), spec_varint(18, 0), spec_varint(20, 0), spec_varint(21, 1), spec_varint(26, 4294967295), spec_varint(27, 2), spec_varint(28, 0), spec_nested(29, spec_uuid_pair(seed, 9))]);
    message(fields)
}

/// The master slide: a style, a transition, its title, body and object
/// placeholders, and a name — which is what makes it a master.
pub open spec fn spec_master_archive(style: u64, placeholders: Seq<u64>) -> Seq<SpecField> {
    seq![spec_reference_field(1, style), spec_nested(4, seq![spec_nested(2, seq![])]), spec_reference_field(5, placeholders[0]), spec_reference_field(6, placeholders[1]), spec_reference_field(30, placeholders[2]), spec_bytes(10, encode_utf8("Title"@)), spec_varint(19, 1), spec_varint(41, 0)]
}

pub fn master_archive(style: u64, placeholders: &Vec<u64>) -> (m: Message)
    requires
        placeholders@.len() >= 3,
    ensures
        m@ == spec_master_archive(style, placeholders@),
{
    let mut fields: Vec<Field> = Vec::new();
    push_field(&mut fields, reference(1, style));
    let mut g31: Vec<Field> = Vec::new();
    let mut g32: Vec<Field> = Vec::new();
    assert(fields_view(g32@) =~= seq![]);
    push_field(&mut g31, nested(2, g32));
    assert(fields_view(g31@) =~= seq![spec_nested(2, seq![])]);
    push_field(&mut fields, nested(4, g31));
    push_field(&mut fields, reference(5, placeholders[0]));
    push_field(&mut fields, reference(6, placeholders[1]));
    push_field(&mut fields, reference(30, placeholders[2]));
    push_field(&mut fields, string(10, "Title"));
    push_field(&mut fields, varint(19, 1));
    push_field(&mut fields, varint(41, 0));
    assert(fields_view(fields@) =~= seq![spec_reference_field(1, style), spec_nested(4, seq![spec_nested(2, seq![])]), spec_reference_field(5, placeholders[0]), spec_reference_field(6, placeholders[1]), spec_reference_field(30, placeholders[2]), spec_bytes(10, encode_utf8("Title"@)), spec_varint(19, 1), spec_varint(41, 0)]);
    message(fields)
}

/// `TSWP.ListStyleArchive` — "None", the list a paragraph is in when it is in
/// no list: for each of nine indent levels no label, a label indent of 0 and a
/// text indent 36 pt deeper than the last.
pub open spec fn spec_list_style(stylesheet: u64) -> Seq<SpecField> {
    seq![spec_nested(1, seq![spec_bytes(1, encode_utf8("None"@)), spec_bytes(2, encode_utf8("text-0-liststyle-None"@)), spec_reference_field(5, stylesheet)]), spec_varint(10, 4), spec_varint(11, 0), spec_varint(11, 0), spec_varint(11, 0), spec_varint(11, 0), spec_varint(11, 0), spec_varint(11, 0), spec_varint(11, 0), spec_varint(11, 0), spec_varint(11, 0), spec_fixed32(12, le_bytes(0x00000000)), spec_fixed32(12, le_bytes(0x00000000)), spec_fixed32(12, le_bytes(0x00000000)), spec_fixed32(12, le_bytes(0x00000000)), spec_fixed32(12, le_bytes(0x00000000)), spec_fixed32(12, le_bytes(0x00000000)), spec_fixed32(12, le_bytes(0x00000000)), spec_fixed32(12, le_bytes(0x00000000)), spec_fixed32(12, le_bytes(0x00000000)), spec_fixed32(13, le_bytes(0x00000000)), spec_fixed32(13, le_bytes(0x42100000)), spec_fixed32(13, le_bytes(0x42900000)), spec_fixed32(13, le_bytes(0x42D80000)), spec_fixed32(13, le_bytes(0x43100000)), spec_fixed32(13, le_bytes(0x43340000)), spec_fixed32(13, le_bytes(0x43580000)), spec_fixed32(13, le_bytes(0x437C0000)), spec_fixed32(13, le_bytes(0x43900000))]
}

pub fn list_style(stylesheet: u64) -> (m: Message)
    ensures
        m@ == spec_list_style(stylesheet),
{
    let mut fields: Vec<Field> = Vec::new();
    let mut g33: Vec<Field> = Vec::new();
    push_field(&mut g33, string(1, "None"));
    push_field(&mut g33, string(2, "text-0-liststyle-None"));
    push_field(&mut g33, reference(5, stylesheet));
    assert(fields_view(g33@) =~= seq![spec_bytes(1, encode_utf8("None"@)), spec_bytes(2, encode_utf8("text-0-liststyle-None"@)), spec_reference_field(5, stylesheet)]);
    push_field(&mut fields, nested(1, g33));
    push_field(&mut fields, varint(10, 4));
    push_field(&mut fields, varint(11, 0));
    push_field(&mut fields, varint(11, 0));
    push_field(&mut fields, varint(11, 0));
    push_field(&mut fields, varint(11, 0));
    push_field(&mut fields, varint(11, 0));
    push_field(&mut fields, varint(11, 0));
    push_field(&mut fields, varint(11, 0));
    push_field(&mut fields, varint(11, 0));
    push_field(&mut fields, varint(11, 0));
    push_field(&mut fields, fixed32(12, 0x00000000));
    push_field(&mut fields, fixed32(12, 0x00000000));
    push_field(&mut fields, fixed32(12, 0x00000000));
    push_field(&mut fields, fixed32(12, 0x00000000));
    push_field(&mut fields, fixed32(12, 0x00000000));
    push_field(&mut fields, fixed32(12, 0x00000000));
    push_field(&mut fields, fixed32(12, 0x00000000));
    push_field(&mut fields, fixed32(12, 0x00000000));
    push_field(&mut fields, fixed32(12, 0x00000000));
    push_field(&mut fields, fixed32(13, 0x00000000));
    push_field(&mut fields, fixed32(13, 0x42100000));
    push_field(&mut fields, fixed32(13, 0x42900000));
    push_field(&mut fields, fixed32(13, 0x42D80000));
    push_field(&mut fields, fixed32(13, 0x43100000));
    push_field(&mut fields, fixed32(13, 0x43340000));
    push_field(&mut fields, fixed32(13, 0x43580000));
    push_field(&mut fields, fixed32(13, 0x437C0000));
    push_field(&mut fields, fixed32(13, 0x43900000));
    assert(fields_view(fields@) =~= seq![spec_nested(1, seq![spec_bytes(1, encode_utf8("None"@)), spec_bytes(2, encode_utf8("text-0-liststyle-None"@)), spec_reference_field(5, stylesheet)]), spec_varint(10, 4), spec_varint(11, 0), spec_varint(11, 0), spec_varint(11, 0), spec_varint(11, 0), spec_varint(11, 0), spec_varint(11, 0), spec_varint(11, 0), spec_varint(11, 0), spec_varint(11, 0), spec_fixed32(12, le_bytes(0x00000000)), spec_fixed32(12, le_bytes(0x00000000)), spec_fixed32(12, le_bytes(0x00000000)), spec_fixed32(12, le_bytes(0x00000000)), spec_fixed32(12, le_bytes(0x00000000)), spec_fixed32(12, le_bytes(0x00000000)), spec_fixed32(12, le_bytes(0x00000000)), spec_fixed32(12, le_bytes(0x00000000)), spec_fixed32(12, le_bytes(0x00000000)), spec_fixed32(13, le_bytes(0x00000000)), spec_fixed32(13, le_bytes(0x42100000)), spec_fixed32(13, le_bytes(0x42900000)), spec_fixed32(13, le_bytes(0x42D80000)), spec_fixed32(13, le_bytes(0x43100000)), spec_fixed32(13, le_bytes(0x43340000)), spec_fixed32(13, le_bytes(0x43580000)), spec_fixed32(13, le_bytes(0x437C0000)), spec_fixed32(13, le_bytes(0x43900000))]);
    message(fields)
}

/// `KN.SlideArchive` — the slide itself, with nothing on it: a style, a
/// transition, `inDocument`, and — for a slide in the show rather than a
/// master — the master it is drawn from (17).
pub open spec fn spec_keynote_slide(style: u64, template: Option<u64>) -> Seq<SpecField> {
    let fields = seq![
        spec_reference_field(1, style),
        spec_nested(4, seq![spec_nested(2, Seq::empty())]),
        spec_varint(19, 1),
    ];
    match template {
        Some(t) => fields.push(spec_reference_field(17, t)),
        None => fields,
    }
}

pub fn keynote_slide(style: u64, template: Option<u64>) -> (m: Message)
    ensures
        m@ == spec_keynote_slide(style, template),
{
    let none: Vec<Field> = Vec::new();
    assert(fields_view(none@) =~= Seq::<SpecField>::empty());
    let mut transition: Vec<Field> = Vec::new();
    push_field(&mut transition, nested(2, none));
    let mut fields: Vec<Field> = Vec::new();
    push_field(&mut fields, reference(1, style));
    push_field(&mut fields, nested(4, transition));
    push_field(&mut fields, varint(19, 1));
    if let Some(t) = template {
        push_field(&mut fields, reference(17, t));
    }
    assert(fields_view(fields@) =~= spec_keynote_slide(style, template));
    message(fields)
}

/// The `TSWP.StorageArchive` a text box owns: kind 3, its text when it has
/// any, and one entry in every attribute table.
pub open spec fn spec_text_box_storage(stylesheet: u64, paragraph: u64, list: u64, text: Seq<char>) -> Seq<
    SpecField,
> {
    let head = seq![spec_varint(1, 3), spec_reference_field(2, stylesheet)];
    let with_text = if text.len() > 0 {
        head.push(spec_bytes(3, encode_utf8(text)))
    } else {
        head
    };
    with_text + seq![spec_attribute_table(5, paragraph), spec_nested(6, seq![spec_nested(1, seq![spec_varint(1, 0), spec_varint(2, 0), spec_varint(3, 0)])]), spec_attribute_table(7, list), spec_varint(10, 1), spec_nested(14, seq![spec_nested(1, seq![spec_varint(1, 0), spec_varint(2, 0), spec_varint(3, 0)])]), spec_nested(24, seq![spec_nested(1, seq![spec_varint(1, 0), spec_varint(2, 0), spec_varint(3, 0)])])]
}

pub fn text_box_storage(stylesheet: u64, paragraph: u64, list: u64, text: &str) -> (m: Message)
    ensures
        m@ == spec_text_box_storage(stylesheet, paragraph, list, text@),
{
    let mut fields: Vec<Field> = Vec::new();
    push_field(&mut fields, varint(1, 3));
    push_field(&mut fields, reference(2, stylesheet));
    if text.unicode_len() > 0 {
        push_field(&mut fields, string(3, text));
    }
    let mut rest: Vec<Field> = Vec::new();
    push_field(&mut rest, attribute_table(5, paragraph));
    let mut g3: Vec<Field> = Vec::new();
    let mut g4: Vec<Field> = Vec::new();
    push_field(&mut g4, varint(1, 0));
    push_field(&mut g4, varint(2, 0));
    push_field(&mut g4, varint(3, 0));
    assert(fields_view(g4@) =~= seq![spec_varint(1, 0), spec_varint(2, 0), spec_varint(3, 0)]);
    push_field(&mut g3, nested(1, g4));
    assert(fields_view(g3@) =~= seq![spec_nested(1, seq![spec_varint(1, 0), spec_varint(2, 0), spec_varint(3, 0)])]);
    push_field(&mut rest, nested(6, g3));
    push_field(&mut rest, attribute_table(7, list));
    push_field(&mut rest, varint(10, 1));
    let mut g5: Vec<Field> = Vec::new();
    let mut g6: Vec<Field> = Vec::new();
    push_field(&mut g6, varint(1, 0));
    push_field(&mut g6, varint(2, 0));
    push_field(&mut g6, varint(3, 0));
    assert(fields_view(g6@) =~= seq![spec_varint(1, 0), spec_varint(2, 0), spec_varint(3, 0)]);
    push_field(&mut g5, nested(1, g6));
    assert(fields_view(g5@) =~= seq![spec_nested(1, seq![spec_varint(1, 0), spec_varint(2, 0), spec_varint(3, 0)])]);
    push_field(&mut rest, nested(14, g5));
    let mut g7: Vec<Field> = Vec::new();
    let mut g8: Vec<Field> = Vec::new();
    push_field(&mut g8, varint(1, 0));
    push_field(&mut g8, varint(2, 0));
    push_field(&mut g8, varint(3, 0));
    assert(fields_view(g8@) =~= seq![spec_varint(1, 0), spec_varint(2, 0), spec_varint(3, 0)]);
    push_field(&mut g7, nested(1, g8));
    assert(fields_view(g7@) =~= seq![spec_nested(1, seq![spec_varint(1, 0), spec_varint(2, 0), spec_varint(3, 0)])]);
    push_field(&mut rest, nested(24, g7));
    assert(fields_view(rest@) =~= seq![spec_attribute_table(5, paragraph), spec_nested(6, seq![spec_nested(1, seq![spec_varint(1, 0), spec_varint(2, 0), spec_varint(3, 0)])]), spec_attribute_table(7, list), spec_varint(10, 1), spec_nested(14, seq![spec_nested(1, seq![spec_varint(1, 0), spec_varint(2, 0), spec_varint(3, 0)])]), spec_nested(24, seq![spec_nested(1, seq![spec_varint(1, 0), spec_varint(2, 0), spec_varint(3, 0)])])]);
    append_fields(&mut fields, rest);
    assert(fields_view(fields@) =~= spec_text_box_storage(stylesheet, paragraph, list, text@));
    message(fields)
}

/// `TN.SheetArchive` — a name, its table, and how it is laid out: a zoom of
/// 0.72 (7), print margins of 20 pt (13, 14), the style it is drawn with (22),
/// its guides (17), and its six header and footer storages — the first three
/// as headers (18), the rest as footers (19).
pub open spec fn spec_sheet_archive(name: Seq<char>, table: u64, style: u64, guides: u64, headers: Seq<u64>) -> Seq<
    SpecField,
> {
    seq![spec_bytes(1, encode_utf8(name)), spec_reference_field(2, table), spec_varint(3, 1), spec_varint(5, 1), spec_varint(6, 0), spec_fixed32(7, le_bytes(0x3F3851EC)), spec_varint(8, 0), spec_varint(11, 0), spec_varint(12, 1), spec_fixed32(13, le_bytes(0x41A00000)), spec_fixed32(14, le_bytes(0x41A00000)), spec_varint(20, 0), spec_varint(21, 0), spec_reference_field(22, style), spec_varint(23, 1), spec_varint(24, 0), spec_reference_field(17, guides)]
        + Seq::new(
        if headers.len() < 3 {
            headers.len()
        } else {
            3
        },
        |i: int| spec_reference_field(18, headers[i]),
    ) + Seq::new(
        if headers.len() < 3 {
            0
        } else {
            (headers.len() - 3) as nat
        },
        |i: int| spec_reference_field(19, headers[i + 3]),
    )
}

pub fn sheet_archive(name: &str, table: u64, style: u64, guides: u64, headers: &Vec<u64>) -> (m: Message)
    ensures
        m@ == spec_sheet_archive(name@, table, style, guides, headers@),
{
    let mut fields: Vec<Field> = Vec::new();
    push_field(&mut fields, string(1, name));
    push_field(&mut fields, reference(2, table));
    push_field(&mut fields, varint(3, 1));
    push_field(&mut fields, varint(5, 1));
    push_field(&mut fields, varint(6, 0));
    push_field(&mut fields, fixed32(7, 0x3F3851EC));
    push_field(&mut fields, varint(8, 0));
    push_field(&mut fields, varint(11, 0));
    push_field(&mut fields, varint(12, 1));
    push_field(&mut fields, fixed32(13, 0x41A00000));
    push_field(&mut fields, fixed32(14, 0x41A00000));
    push_field(&mut fields, varint(20, 0));
    push_field(&mut fields, varint(21, 0));
    push_field(&mut fields, reference(22, style));
    push_field(&mut fields, varint(23, 1));
    push_field(&mut fields, varint(24, 0));
    push_field(&mut fields, reference(17, guides));
    assert(fields_view(fields@) =~= seq![spec_bytes(1, encode_utf8(name@)), spec_reference_field(2, table), spec_varint(3, 1), spec_varint(5, 1), spec_varint(6, 0), spec_fixed32(7, le_bytes(0x3F3851EC)), spec_varint(8, 0), spec_varint(11, 0), spec_varint(12, 1), spec_fixed32(13, le_bytes(0x41A00000)), spec_fixed32(14, le_bytes(0x41A00000)), spec_varint(20, 0), spec_varint(21, 0), spec_reference_field(22, style), spec_varint(23, 1), spec_varint(24, 0), spec_reference_field(17, guides)]);
    let ghost layout = fields_view(fields@);
    let split: usize = if headers.len() < 3 {
        headers.len()
    } else {
        3
    };
    let mut i: usize = 0;
    while i < split
        invariant
            i <= split <= headers@.len(),
            split == (if headers@.len() < 3 {
                headers@.len()
            } else {
                3
            }),
            fields_view(fields@) == layout + Seq::new(i as nat, |k: int| spec_reference_field(18, headers@[k])),
        decreases split - i,
    {
        push_field(&mut fields, reference(18, headers[i]));
        assert(fields_view(fields@) =~= layout + Seq::new((i + 1) as nat, |k: int| spec_reference_field(18, headers@[k])));
        i = i + 1;
    }
    let ghost with_headers = fields_view(fields@);
    let mut j: usize = split;
    while j < headers.len()
        invariant
            split <= j <= headers@.len(),
            split == (if headers@.len() < 3 {
                headers@.len()
            } else {
                3
            }),
            fields_view(fields@) == with_headers + Seq::new(
                (j - split) as nat,
                |k: int| spec_reference_field(19, headers@[k + 3]),
            ),
        decreases headers@.len() - j,
    {
        push_field(&mut fields, reference(19, headers[j]));
        assert(fields_view(fields@) =~= with_headers + Seq::new(
            (j + 1 - split) as nat,
            |k: int| spec_reference_field(19, headers@[k + 3]),
        ));
        j = j + 1;
    }
    assert(fields_view(fields@) =~= spec_sheet_archive(name@, table, style, guides, headers@));
    message(fields)
}

/// `TSS.StylesheetArchive` as Numbers writes one: every style twice, as a
/// reference (1) and as `{identifier, style}` (2), and `is_locked` (4) set to
/// false — its default is true, and a locked stylesheet is one the app cannot
/// add a style to.
pub open spec fn spec_numbers_stylesheet(named: Seq<(Seq<char>, u64)>) -> Seq<SpecField> {
    Seq::new(named.len(), |i: int| spec_reference_field(1, named[i].1)) + Seq::new(
        named.len(),
        |i: int|
            spec_nested(2, seq![spec_bytes(1, encode_utf8(named[i].0)), spec_reference_field(2, named[i].1)]),
    ).push(spec_varint(4, 0))
}

pub fn numbers_stylesheet(named: &Vec<(String, u64)>) -> (m: Message)
    ensures
        m@ == spec_numbers_stylesheet(named@.map_values(|e: (String, u64)| (e.0@, e.1))),
{
    let ghost view = named@.map_values(|e: (String, u64)| (e.0@, e.1));
    let mut fields: Vec<Field> = Vec::new();
    let mut i: usize = 0;
    while i < named.len()
        invariant
            i <= named@.len(),
            view == named@.map_values(|e: (String, u64)| (e.0@, e.1)),
            fields_view(fields@) == Seq::new(i as nat, |k: int| spec_reference_field(1, view[k].1)),
        decreases named@.len() - i,
    {
        push_field(&mut fields, reference(1, named[i].1));
        assert(fields_view(fields@) =~= Seq::new((i + 1) as nat, |k: int| spec_reference_field(1, view[k].1)));
        i = i + 1;
    }
    let ghost refs = fields_view(fields@);
    let mut j: usize = 0;
    while j < named.len()
        invariant
            j <= named@.len(),
            view == named@.map_values(|e: (String, u64)| (e.0@, e.1)),
            fields_view(fields@) == refs + Seq::new(
                j as nat,
                |k: int|
                    spec_nested(2, seq![spec_bytes(1, encode_utf8(view[k].0)), spec_reference_field(2, view[k].1)]),
            ),
        decreases named@.len() - j,
    {
        let mut entry: Vec<Field> = Vec::new();
        push_field(&mut entry, string(1, named[j].0.as_str()));
        push_field(&mut entry, reference(2, named[j].1));
        assert(fields_view(entry@) =~= seq![spec_bytes(1, encode_utf8(view[j as int].0)), spec_reference_field(2, view[j as int].1)]);
        push_field(&mut fields, nested(2, entry));
        assert(fields_view(fields@) =~= refs + Seq::new(
            (j + 1) as nat,
            |k: int|
                spec_nested(2, seq![spec_bytes(1, encode_utf8(view[k].0)), spec_reference_field(2, view[k].1)]),
        ));
        j = j + 1;
    }
    push_field(&mut fields, varint(4, 0));
    assert(fields_view(fields@) =~= spec_numbers_stylesheet(view));
    message(fields)
}

/// The palette a theme carries: twenty-seven colours — a greyscale ramp and
/// two rows of hues — each as `{10: TSP.Color}`. The app was watched
/// insisting on this count.
#[verifier::opaque]
pub open spec fn spec_palette() -> Seq<SpecField> {
    seq![spec_nested(10, spec_colour(0x3F800000, 0x3F800000, 0x3F800000)), spec_nested(10, spec_colour(0x3F570A3D, 0x3F570A3D, 0x3F570A3D)), spec_nested(10, spec_colour(0x3F11EB85, 0x3F11EB85, 0x3F11EB85)), spec_nested(10, spec_colour(0x3EBD70A4, 0x3EBD70A4, 0x3EBD70A4)), spec_nested(10, spec_colour(0x00000000, 0x00000000, 0x00000000)), spec_nested(10, spec_colour(0x00000000, 0x00000000, 0x00000000)), spec_nested(10, spec_colour(0x3EAE147B, 0x3F428F5C, 0x3F800000)), spec_nested(10, spec_colour(0x00000000, 0x3F2147AE, 0x3F800000)), spec_nested(10, spec_colour(0x00000000, 0x3EEB851F, 0x3F3AE148)), spec_nested(10, spec_colour(0x00000000, 0x3EA3D70A, 0x3F028F5C)), spec_nested(10, spec_colour(0x3F59999A, 0x3EA8F5C3, 0x3E9EB852)), spec_nested(10, spec_colour(0x3F6B851F, 0x3EFAE148, 0x3E428F5C)), spec_nested(10, spec_colour(0x3F733333, 0x3F428F5C, 0x3E4CCCCD)), spec_nested(10, spec_colour(0x3EE147AE, 0x3F2E147B, 0x3E8F5C29)), spec_nested(10, spec_colour(0x3E8A3D71, 0x3EE66666, 0x3F451EB8)), spec_nested(10, spec_colour(0x3F028F5C, 0x3E99999A, 0x3F2147AE)), spec_nested(10, spec_colour(0x3F400000, 0x3E9EB852, 0x3F028F5C)), spec_nested(10, spec_colour(0x3ECCCCCD, 0x3ECCCCCD, 0x3ECCCCCD)), spec_nested(10, spec_colour(0x3F266666, 0x3F266666, 0x3F266666)), spec_nested(10, spec_colour(0x3F666666, 0x3F666666, 0x3F666666)), spec_nested(10, spec_colour(0x3F7AE148, 0x3F59999A, 0x3F59999A)), spec_nested(10, spec_colour(0x3F59999A, 0x3F7AE148, 0x3F59999A)), spec_nested(10, spec_colour(0x3F59999A, 0x3F59999A, 0x3F7AE148)), spec_nested(10, spec_colour(0x3F7AE148, 0x3F7AE148, 0x3F59999A)), spec_nested(10, spec_colour(0x3F59999A, 0x3F7AE148, 0x3F7AE148)), spec_nested(10, spec_colour(0x3F7AE148, 0x3F59999A, 0x3F7AE148)), spec_nested(10, spec_colour(0x3F000000, 0x3F000000, 0x3F000000))]
}

fn palette() -> (r: Vec<Field>)
    ensures
        fields_view(r@) == spec_palette(),
{
    proof {
        reveal(spec_palette);
    }
    let mut palette: Vec<Field> = Vec::new();
    push_field(&mut palette, nested(10, colour(0x3F800000, 0x3F800000, 0x3F800000)));
    push_field(&mut palette, nested(10, colour(0x3F570A3D, 0x3F570A3D, 0x3F570A3D)));
    push_field(&mut palette, nested(10, colour(0x3F11EB85, 0x3F11EB85, 0x3F11EB85)));
    push_field(&mut palette, nested(10, colour(0x3EBD70A4, 0x3EBD70A4, 0x3EBD70A4)));
    push_field(&mut palette, nested(10, colour(0x00000000, 0x00000000, 0x00000000)));
    push_field(&mut palette, nested(10, colour(0x00000000, 0x00000000, 0x00000000)));
    push_field(&mut palette, nested(10, colour(0x3EAE147B, 0x3F428F5C, 0x3F800000)));
    push_field(&mut palette, nested(10, colour(0x00000000, 0x3F2147AE, 0x3F800000)));
    push_field(&mut palette, nested(10, colour(0x00000000, 0x3EEB851F, 0x3F3AE148)));
    push_field(&mut palette, nested(10, colour(0x00000000, 0x3EA3D70A, 0x3F028F5C)));
    push_field(&mut palette, nested(10, colour(0x3F59999A, 0x3EA8F5C3, 0x3E9EB852)));
    push_field(&mut palette, nested(10, colour(0x3F6B851F, 0x3EFAE148, 0x3E428F5C)));
    push_field(&mut palette, nested(10, colour(0x3F733333, 0x3F428F5C, 0x3E4CCCCD)));
    push_field(&mut palette, nested(10, colour(0x3EE147AE, 0x3F2E147B, 0x3E8F5C29)));
    push_field(&mut palette, nested(10, colour(0x3E8A3D71, 0x3EE66666, 0x3F451EB8)));
    push_field(&mut palette, nested(10, colour(0x3F028F5C, 0x3E99999A, 0x3F2147AE)));
    push_field(&mut palette, nested(10, colour(0x3F400000, 0x3E9EB852, 0x3F028F5C)));
    push_field(&mut palette, nested(10, colour(0x3ECCCCCD, 0x3ECCCCCD, 0x3ECCCCCD)));
    push_field(&mut palette, nested(10, colour(0x3F266666, 0x3F266666, 0x3F266666)));
    push_field(&mut palette, nested(10, colour(0x3F666666, 0x3F666666, 0x3F666666)));
    push_field(&mut palette, nested(10, colour(0x3F7AE148, 0x3F59999A, 0x3F59999A)));
    push_field(&mut palette, nested(10, colour(0x3F59999A, 0x3F7AE148, 0x3F59999A)));
    push_field(&mut palette, nested(10, colour(0x3F59999A, 0x3F59999A, 0x3F7AE148)));
    push_field(&mut palette, nested(10, colour(0x3F7AE148, 0x3F7AE148, 0x3F59999A)));
    push_field(&mut palette, nested(10, colour(0x3F59999A, 0x3F7AE148, 0x3F7AE148)));
    push_field(&mut palette, nested(10, colour(0x3F7AE148, 0x3F59999A, 0x3F7AE148)));
    push_field(&mut palette, nested(10, colour(0x3F000000, 0x3F000000, 0x3F000000)));
    assert(fields_view(palette@) =~= seq![spec_nested(10, spec_colour(0x3F800000, 0x3F800000, 0x3F800000)), spec_nested(10, spec_colour(0x3F570A3D, 0x3F570A3D, 0x3F570A3D)), spec_nested(10, spec_colour(0x3F11EB85, 0x3F11EB85, 0x3F11EB85)), spec_nested(10, spec_colour(0x3EBD70A4, 0x3EBD70A4, 0x3EBD70A4)), spec_nested(10, spec_colour(0x00000000, 0x00000000, 0x00000000)), spec_nested(10, spec_colour(0x00000000, 0x00000000, 0x00000000)), spec_nested(10, spec_colour(0x3EAE147B, 0x3F428F5C, 0x3F800000)), spec_nested(10, spec_colour(0x00000000, 0x3F2147AE, 0x3F800000)), spec_nested(10, spec_colour(0x00000000, 0x3EEB851F, 0x3F3AE148)), spec_nested(10, spec_colour(0x00000000, 0x3EA3D70A, 0x3F028F5C)), spec_nested(10, spec_colour(0x3F59999A, 0x3EA8F5C3, 0x3E9EB852)), spec_nested(10, spec_colour(0x3F6B851F, 0x3EFAE148, 0x3E428F5C)), spec_nested(10, spec_colour(0x3F733333, 0x3F428F5C, 0x3E4CCCCD)), spec_nested(10, spec_colour(0x3EE147AE, 0x3F2E147B, 0x3E8F5C29)), spec_nested(10, spec_colour(0x3E8A3D71, 0x3EE66666, 0x3F451EB8)), spec_nested(10, spec_colour(0x3F028F5C, 0x3E99999A, 0x3F2147AE)), spec_nested(10, spec_colour(0x3F400000, 0x3E9EB852, 0x3F028F5C)), spec_nested(10, spec_colour(0x3ECCCCCD, 0x3ECCCCCD, 0x3ECCCCCD)), spec_nested(10, spec_colour(0x3F266666, 0x3F266666, 0x3F266666)), spec_nested(10, spec_colour(0x3F666666, 0x3F666666, 0x3F666666)), spec_nested(10, spec_colour(0x3F7AE148, 0x3F59999A, 0x3F59999A)), spec_nested(10, spec_colour(0x3F59999A, 0x3F7AE148, 0x3F59999A)), spec_nested(10, spec_colour(0x3F59999A, 0x3F59999A, 0x3F7AE148)), spec_nested(10, spec_colour(0x3F7AE148, 0x3F7AE148, 0x3F59999A)), spec_nested(10, spec_colour(0x3F59999A, 0x3F7AE148, 0x3F7AE148)), spec_nested(10, spec_colour(0x3F7AE148, 0x3F59999A, 0x3F7AE148)), spec_nested(10, spec_colour(0x3F000000, 0x3F000000, 0x3F000000))]);
    palette
}

/// The theme: a stylesheet, the style presets, and the palette every style
/// picks its colours from — and after it, whatever the app puts outside the
/// `TSS.ThemeArchive` (for Keynote, the master slides).
pub open spec fn spec_numbers_theme_with(stylesheet: u64, presets: SpecField, extra: Seq<SpecField>) -> Seq<
    SpecField,
> {
    seq![spec_nested(1, seq![spec_reference_field(4, stylesheet), presets] + spec_palette())] + extra
}

pub fn numbers_theme_with(stylesheet: u64, presets: Field, extra: Vec<Field>) -> (m: Message)
    ensures
        m@ == spec_numbers_theme_with(stylesheet, presets@, fields_view(extra@)),
{
    let ghost preset = presets@;
    let mut theme: Vec<Field> = Vec::new();
    push_field(&mut theme, reference(4, stylesheet));
    push_field(&mut theme, presets);
    assert(fields_view(theme@) =~= seq![spec_reference_field(4, stylesheet), preset]);
    append_fields(&mut theme, palette());
    let mut fields: Vec<Field> = Vec::new();
    push_field(&mut fields, nested(1, theme));
    assert(fields_view(fields@) =~= seq![
        spec_nested(1, seq![spec_reference_field(4, stylesheet), preset] + spec_palette()),
    ]);
    append_fields(&mut fields, extra);
    message(fields)
}

/// The theme, with nothing outside it.
pub fn numbers_theme(stylesheet: u64, presets: Field) -> (m: Message)
    ensures
        m@ == spec_numbers_theme_with(stylesheet, presets@, Seq::empty()),
{
    let none: Vec<Field> = Vec::new();
    assert(fields_view(none@) =~= Seq::<SpecField>::empty());
    numbers_theme_with(stylesheet, presets, none)
}

/// The page a paper gives a Pages document: width and height (30, 31), the
/// four margins (32 to 35), and the header and footer insets (36, 37), as
/// floats — 595.28 × 841.89 pt with 56.69 pt margins for A4, 612 × 792 pt with
/// 72 pt margins for Letter.
pub open spec fn spec_paper_page(paper: Paper) -> Seq<SpecField> {
    match paper {
        Paper::A4 => seq![spec_fixed32(30, le_bytes(0x4414D1EC)), spec_fixed32(31, le_bytes(0x445278F6)), spec_fixed32(32, le_bytes(0x4262C58C)), spec_fixed32(33, le_bytes(0x4262C58C)), spec_fixed32(34, le_bytes(0x4262C58C)), spec_fixed32(35, le_bytes(0x4262C58C)), spec_fixed32(36, le_bytes(0x420DBB77)), spec_fixed32(37, le_bytes(0x422A1428))],
        Paper::Letter => seq![spec_fixed32(30, le_bytes(0x44190000)), spec_fixed32(31, le_bytes(0x44460000)), spec_fixed32(32, le_bytes(0x42900000)), spec_fixed32(33, le_bytes(0x42900000)), spec_fixed32(34, le_bytes(0x42900000)), spec_fixed32(35, le_bytes(0x42900000)), spec_fixed32(36, le_bytes(0x42100000)), spec_fixed32(37, le_bytes(0x422CCCCD))],
    }
}

fn paper_page(paper: Paper) -> (r: Vec<Field>)
    ensures
        fields_view(r@) == spec_paper_page(paper),
{
    match paper {
        Paper::A4 => {
    let mut page: Vec<Field> = Vec::new();
    push_field(&mut page, fixed32(30, 0x4414D1EC));
    push_field(&mut page, fixed32(31, 0x445278F6));
    push_field(&mut page, fixed32(32, 0x4262C58C));
    push_field(&mut page, fixed32(33, 0x4262C58C));
    push_field(&mut page, fixed32(34, 0x4262C58C));
    push_field(&mut page, fixed32(35, 0x4262C58C));
    push_field(&mut page, fixed32(36, 0x420DBB77));
    push_field(&mut page, fixed32(37, 0x422A1428));
    assert(fields_view(page@) =~= seq![spec_fixed32(30, le_bytes(0x4414D1EC)), spec_fixed32(31, le_bytes(0x445278F6)), spec_fixed32(32, le_bytes(0x4262C58C)), spec_fixed32(33, le_bytes(0x4262C58C)), spec_fixed32(34, le_bytes(0x4262C58C)), spec_fixed32(35, le_bytes(0x4262C58C)), spec_fixed32(36, le_bytes(0x420DBB77)), spec_fixed32(37, le_bytes(0x422A1428))]);
            page
        },
        Paper::Letter => {
    let mut page: Vec<Field> = Vec::new();
    push_field(&mut page, fixed32(30, 0x44190000));
    push_field(&mut page, fixed32(31, 0x44460000));
    push_field(&mut page, fixed32(32, 0x42900000));
    push_field(&mut page, fixed32(33, 0x42900000));
    push_field(&mut page, fixed32(34, 0x42900000));
    push_field(&mut page, fixed32(35, 0x42900000));
    push_field(&mut page, fixed32(36, 0x42100000));
    push_field(&mut page, fixed32(37, 0x422CCCCD));
    assert(fields_view(page@) =~= seq![spec_fixed32(30, le_bytes(0x44190000)), spec_fixed32(31, le_bytes(0x44460000)), spec_fixed32(32, le_bytes(0x42900000)), spec_fixed32(33, le_bytes(0x42900000)), spec_fixed32(34, le_bytes(0x42900000)), spec_fixed32(35, le_bytes(0x42900000)), spec_fixed32(36, le_bytes(0x42100000)), spec_fixed32(37, le_bytes(0x422CCCCD))]);
            page
        },
    }
}

/// `TP.DocumentArchive`: the stylesheet, the floating drawables, the body, the
/// document settings (15) with locales unset and never chosen, the z-order,
/// the paper, and the printer the document was laid out for — a space, which
/// is what the bundled templates carry — and the paper's name.
pub open spec fn spec_pages_document(stylesheet: u64, body: u64, floating: u64, zorder: u64, paper: Paper) -> Seq<
    SpecField,
> {
    seq![spec_reference_field(2, stylesheet), spec_reference_field(3, floating), spec_reference_field(4, body), spec_nested(15, seq![spec_nested(1, seq![spec_varint(10, 1), spec_varint(12, 0), spec_varint(15, 1), spec_varint(16, 1)])]), spec_reference_field(20, zorder)] + spec_paper_page(paper) + seq![spec_fixed32(38, le_bytes(0x3F800000)), spec_varint(39, 0), spec_varint(40, 0), spec_varint(42, 0), spec_bytes(43, encode_utf8(" "@))].push(
        spec_bytes(
            44,
            encode_utf8(
                match paper {
                    Paper::A4 => "iso-a4"@,
                    Paper::Letter => "na-letter"@,
                },
            ),
        ),
    )
}

pub fn pages_document(stylesheet: u64, body: u64, floating: u64, zorder: u64, paper: Paper) -> (m: Message)
    ensures
        m@ == spec_pages_document(stylesheet, body, floating, zorder, paper),
{
    let mut fields: Vec<Field> = Vec::new();
    push_field(&mut fields, reference(2, stylesheet));
    push_field(&mut fields, reference(3, floating));
    push_field(&mut fields, reference(4, body));
    let mut g1: Vec<Field> = Vec::new();
    let mut g2: Vec<Field> = Vec::new();
    push_field(&mut g2, varint(10, 1));
    push_field(&mut g2, varint(12, 0));
    push_field(&mut g2, varint(15, 1));
    push_field(&mut g2, varint(16, 1));
    assert(fields_view(g2@) =~= seq![spec_varint(10, 1), spec_varint(12, 0), spec_varint(15, 1), spec_varint(16, 1)]);
    push_field(&mut g1, nested(1, g2));
    assert(fields_view(g1@) =~= seq![spec_nested(1, seq![spec_varint(10, 1), spec_varint(12, 0), spec_varint(15, 1), spec_varint(16, 1)])]);
    push_field(&mut fields, nested(15, g1));
    push_field(&mut fields, reference(20, zorder));
    assert(fields_view(fields@) =~= seq![spec_reference_field(2, stylesheet), spec_reference_field(3, floating), spec_reference_field(4, body), spec_nested(15, seq![spec_nested(1, seq![spec_varint(10, 1), spec_varint(12, 0), spec_varint(15, 1), spec_varint(16, 1)])]), spec_reference_field(20, zorder)]);
    append_fields(&mut fields, paper_page(paper));
    let mut rest: Vec<Field> = Vec::new();
    push_field(&mut rest, fixed32(38, 0x3F800000));
    push_field(&mut rest, varint(39, 0));
    push_field(&mut rest, varint(40, 0));
    push_field(&mut rest, varint(42, 0));
    push_field(&mut rest, string(43, " "));
    assert(fields_view(rest@) =~= seq![spec_fixed32(38, le_bytes(0x3F800000)), spec_varint(39, 0), spec_varint(40, 0), spec_varint(42, 0), spec_bytes(43, encode_utf8(" "@))]);
    append_fields(&mut fields, rest);
    push_field(&mut fields, string(44, paper.name()));
    assert(fields_view(fields@) =~= spec_pages_document(stylesheet, body, floating, zorder, paper));
    message(fields)
}

} // verus!
