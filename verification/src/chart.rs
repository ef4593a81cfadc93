//! `TSCH` — charts, and the two different answers to "what data is this?".
//!
//! A chart carries its data twice. The **private copy** is a grid written
//! inline in the chart, and it is what the chart draws. The **live
//! references** are a Numbers-only second layer: a mediator holding formulas
//! that point back into tables, of which the grid is a cache. This module
//! reads the names the chart model gives its types and directions, the sparse
//! arrays its styles are kept in, and the references a mediator holds.
//!
//! **Every reference in a mediator goes through function 175**, which has no
//! published name: each formula ends in a `FUNCTION_NODE` of index 175 over
//! the reference nodes before it, with an arity of nought, one or three.
//! Nothing here invents a name for it — the node is dropped, its operands are
//! printed, and the wrapper is reported as a count.

use vstd::prelude::*;
use vstd::string::StrSliceExecFns;

use crate::chars::{chars_of, decimal, lossy_string, push_decimal, push_str, string_chars, to_string, utf8_lossy};
use crate::formula::names::{Names, Site};
use crate::formula::{Ast, Formula, Node};
use crate::pb::{
    decode_nested, first_with, nested_of, read_varint_at, values_with, varint_field, varint_of,
    Message, SpecField, SpecValue, Value,
};

verus! {

broadcast use vstd::std_specs::btree::group_btree_axioms, vstd::laws_cmp::group_laws_cmp;

// -- chart types -------------------------------------------------------------------

/// `TSCH.ChartType`, all twenty-eight values of the 15.3.1 enumeration.
pub open spec fn spec_chart_type_name(kind: u32) -> Option<Seq<char>> {
    if kind == 0 {
        Some("undefinedChartType"@)
    } else if kind == 1 {
        Some("columnChartType2D"@)
    } else if kind == 2 {
        Some("barChartType2D"@)
    } else if kind == 3 {
        Some("lineChartType2D"@)
    } else if kind == 4 {
        Some("areaChartType2D"@)
    } else if kind == 5 {
        Some("pieChartType2D"@)
    } else if kind == 6 {
        Some("stackedColumnChartType2D"@)
    } else if kind == 7 {
        Some("stackedBarChartType2D"@)
    } else if kind == 8 {
        Some("stackedAreaChartType2D"@)
    } else if kind == 9 {
        Some("scatterChartType2D"@)
    } else if kind == 10 {
        Some("mixedChartType2D"@)
    } else if kind == 11 {
        Some("twoAxisChartType2D"@)
    } else if kind == 12 {
        Some("columnChartType3D"@)
    } else if kind == 13 {
        Some("barChartType3D"@)
    } else if kind == 14 {
        Some("lineChartType3D"@)
    } else if kind == 15 {
        Some("areaChartType3D"@)
    } else if kind == 16 {
        Some("pieChartType3D"@)
    } else if kind == 17 {
        Some("stackedColumnChartType3D"@)
    } else if kind == 18 {
        Some("stackedBarChartType3D"@)
    } else if kind == 19 {
        Some("stackedAreaChartType3D"@)
    } else if kind == 20 {
        Some("multiDataColumnChartType2D"@)
    } else if kind == 21 {
        Some("multiDataBarChartType2D"@)
    } else if kind == 22 {
        Some("bubbleChartType2D"@)
    } else if kind == 23 {
        Some("multiDataScatterChartType2D"@)
    } else if kind == 24 {
        Some("multiDataBubbleChartType2D"@)
    } else if kind == 25 {
        Some("donutChartType2D"@)
    } else if kind == 26 {
        Some("donutChartType3D"@)
    } else if kind == 27 {
        Some("radarChartType2D"@)
    } else {
        None
    }
}

/// The schema's name for a chart type.
///
/// Twenty-three of the values are observed in real documents; the five never
/// seen are 0 (`undefinedChartType`, which is what an absent field means), 21,
/// 23, 24 and 26.
pub fn chart_type_name(kind: u32) -> (r: Option<&'static str>)
    ensures
        match spec_chart_type_name(kind) {
            Some(t) => r matches Some(s) && s@ == t,
            None => r is None,
        },
{
    if kind == 0 {
        Some("undefinedChartType")
    } else if kind == 1 {
        Some("columnChartType2D")
    } else if kind == 2 {
        Some("barChartType2D")
    } else if kind == 3 {
        Some("lineChartType2D")
    } else if kind == 4 {
        Some("areaChartType2D")
    } else if kind == 5 {
        Some("pieChartType2D")
    } else if kind == 6 {
        Some("stackedColumnChartType2D")
    } else if kind == 7 {
        Some("stackedBarChartType2D")
    } else if kind == 8 {
        Some("stackedAreaChartType2D")
    } else if kind == 9 {
        Some("scatterChartType2D")
    } else if kind == 10 {
        Some("mixedChartType2D")
    } else if kind == 11 {
        Some("twoAxisChartType2D")
    } else if kind == 12 {
        Some("columnChartType3D")
    } else if kind == 13 {
        Some("barChartType3D")
    } else if kind == 14 {
        Some("lineChartType3D")
    } else if kind == 15 {
        Some("areaChartType3D")
    } else if kind == 16 {
        Some("pieChartType3D")
    } else if kind == 17 {
        Some("stackedColumnChartType3D")
    } else if kind == 18 {
        Some("stackedBarChartType3D")
    } else if kind == 19 {
        Some("stackedAreaChartType3D")
    } else if kind == 20 {
        Some("multiDataColumnChartType2D")
    } else if kind == 21 {
        Some("multiDataBarChartType2D")
    } else if kind == 22 {
        Some("bubbleChartType2D")
    } else if kind == 23 {
        Some("multiDataScatterChartType2D")
    } else if kind == 24 {
        Some("multiDataBubbleChartType2D")
    } else if kind == 25 {
        Some("donutChartType2D")
    } else if kind == 26 {
        Some("donutChartType3D")
    } else if kind == 27 {
        Some("radarChartType2D")
    } else {
        None
    }
}

/// Whether `s` ends with `suffix`.
pub open spec fn ends_with(s: Seq<char>, suffix: Seq<char>) -> bool {
    suffix.len() <= s.len() && s.skip(s.len() - suffix.len()) == suffix
}

/// `s` with every trailing repetition of `suffix` taken off.
pub open spec fn trim_suffix(s: Seq<char>, suffix: Seq<char>) -> Seq<char>
    decreases s.len(),
{
    if suffix.len() > 0 && ends_with(s, suffix) {
        trim_suffix(s.take(s.len() - suffix.len()), suffix)
    } else {
        s
    }
}

pub open spec fn is_ascii_upper(c: char) -> bool {
    'A' <= c && c <= 'Z'
}

pub open spec fn ascii_lower(c: char) -> char {
    if is_ascii_upper(c) {
        ((c as int) + 32) as char
    } else {
        c
    }
}

/// A camel-case name as lower-case words: a space before every capital but
/// the first character, and every capital lowered.
pub open spec fn camel_words(s: Seq<char>) -> Seq<char>
    decreases s.len(),
{
    if s.len() == 0 {
        Seq::empty()
    } else {
        camel_words(s.drop_last()) + (if is_ascii_upper(s.last()) && s.len() > 1 {
            seq![' ']
        } else {
            Seq::empty()
        }) + seq![ascii_lower(s.last())]
    }
}

/// A chart type in the words the app's own UI uses — "3D stacked column"
/// rather than `stackedColumnChartType3D`.
pub open spec fn spec_chart_type_label(kind: u32) -> Seq<char> {
    match spec_chart_type_name(kind) {
        None => "chart type "@ + decimal(kind as nat),
        Some(name) => {
            let body = trim_suffix(trim_suffix(name, "ChartType2D"@), "ChartType3D"@);
            let words = camel_words(body);
            if ends_with(name, "3D"@) {
                "3D "@ + words
            } else if kind == 0 {
                "undefined"@
            } else {
                words
            }
        },
    }
}

fn str_ends_with(s: &Vec<char>, suffix: &str) -> (r: bool)
    ensures
        r == ends_with(s@, suffix@),
{
    let n = suffix.unicode_len();
    if n > s.len() {
        return false;
    }
    let start = s.len() - n;
    let mut i: usize = 0;
    while i < n
        invariant
            n == suffix@.len(),
            n <= s@.len(),
            s@.len() <= usize::MAX,
            start == s@.len() - n,
            i <= n,
            forall|k: int| 0 <= k < i ==> s@[start + k] == suffix@[k],
        decreases n - i,
    {
        if s[start + i] != suffix.get_char(i) {
            assert(s@.skip(start as int)[i as int] != suffix@[i as int]);
            return false;
        }
        i = i + 1;
    }
    assert(s@.skip(start as int) =~= suffix@);
    true
}

fn trim_suffix_of(s: &mut Vec<char>, suffix: &str)
    ensures
        final(s)@ == trim_suffix(old(s)@, suffix@),
{
    let n = suffix.unicode_len();
    if n == 0 {
        return;
    }
    while str_ends_with(s, suffix)
        invariant
            n == suffix@.len(),
            n > 0,
            trim_suffix(s@, suffix@) == trim_suffix(old(s)@, suffix@),
        decreases s@.len(),
    {
        let keep = s.len() - n;
        s.truncate(keep);
    }
}

fn lower(c: char) -> (r: char)
    ensures
        r == ascii_lower(c),
{
    if 'A' <= c && c <= 'Z' {
        let code: u32 = c as u32 + 32;
        (code as u8) as char
    } else {
        c
    }
}

fn push_camel_words(out: &mut Vec<char>, s: &Vec<char>)
    ensures
        final(out)@ == old(out)@ + camel_words(s@),
{
    let ghost start = out@;
    let mut i: usize = 0;
    while i < s.len()
        invariant
            i <= s@.len(),
            out@ == start + camel_words(s@.take(i as int)),
        decreases s@.len() - i,
    {
        let c = s[i];
        assert(s@.take(i + 1).drop_last() =~= s@.take(i as int));
        if 'A' <= c && c <= 'Z' && i != 0 {
            out.push(' ');
        }
        out.push(lower(c));
        assert(out@ =~= start + camel_words(s@.take(i + 1)));
        i = i + 1;
    }
    assert(s@.take(s@.len() as int) =~= s@);
}

/// A chart type in the words the app's own UI uses — "3D stacked column"
/// rather than `stackedColumnChartType3D`.
pub fn chart_type_label(kind: u32) -> (r: String)
    ensures
        r@ == spec_chart_type_label(kind),
{
    let name = match chart_type_name(kind) {
        Some(n) => n,
        None => {
            let mut out = chars_of("chart type ");
            push_decimal(&mut out, kind as u64);
            return to_string(&out);
        },
    };
    let full = chars_of(name);
    let mut body = chars_of(name);
    trim_suffix_of(&mut body, "ChartType2D");
    trim_suffix_of(&mut body, "ChartType3D");
    let mut words: Vec<char> = Vec::new();
    push_camel_words(&mut words, &body);
    if str_ends_with(&full, "3D") {
        let mut out = chars_of("3D ");
        let mut i: usize = 0;
        let ghost start = out@;
        while i < words.len()
            invariant
                i <= words@.len(),
                out@ == start + words@.take(i as int),
            decreases words@.len() - i,
        {
            out.push(words[i]);
            assert(words@.take(i + 1) =~= words@.take(i as int).push(words@[i as int]));
            i = i + 1;
        }
        assert(words@.take(words@.len() as int) =~= words@);
        to_string(&out)
    } else if kind == 0 {
        to_string(&chars_of("undefined"))
    } else {
        assert(words@ =~= camel_words(body@));
        to_string(&words)
    }
}

/// Whether the type is one of the eight 3-D families.
pub fn is_3d(kind: u32) -> (r: bool)
    ensures
        r == ((12 <= kind <= 19) || kind == 26),
{
    (12 <= kind && kind <= 19) || kind == 26
}

/// Whether the type is one of the four **interactive** families — the charts
/// Apple's UI creates from the "Interactive" tab, which step through data sets
/// with a slider or a pair of buttons.
pub fn is_interactive(kind: u32) -> (r: bool)
    ensures
        r == (kind == 20 || kind == 21 || kind == 23 || kind == 24),
{
    kind == 20 || kind == 21 || kind == 23 || kind == 24
}

/// `TSCH.SeriesDirection` — which axis of the grid is a series.
pub fn series_direction_name(direction: u32) -> (r: &'static str)
    ensures
        r@ == (if direction == 1 {
            "by row"@
        } else if direction == 2 {
            "by column"@
        } else {
            "unknown"@
        }),
{
    if direction == 1 {
        "by row"
    } else if direction == 2 {
        "by column"
    } else {
        "unknown"
    }
}

/// `TSCH.ScatterFormat`.
pub fn scatter_format_name(format: u32) -> (r: &'static str)
    ensures
        r@ == (if format == 1 {
            "separate X"@
        } else if format == 2 {
            "shared X"@
        } else {
            "unknown"@
        }),
{
    if format == 1 {
        "separate X"
    } else if format == 2 {
        "shared X"
    } else {
        "unknown"
    }
}

// -- sparse arrays -------------------------------------------------------------------

// -- the private grid ---------------------------------------------------------------

/// One cell of a chart's private grid.
///
/// `TSCH.GridValue` is a union of four doubles decided by **which field is
/// present**, and a blank cell is a *present but zero-length* submessage:
/// reading "no fields set" as zero would fabricate a data point. The doubles
/// are carried as the eight little-endian bytes they are written in.
#[derive(Debug, Clone, Copy, PartialEq)]
pub enum GridValue {
    /// A zero-length `GridValue`: the cell is empty.
    Empty,
    Number([u8; 8]),
    /// Seconds relative to the iWork epoch, 2001-01-01 UTC.
    Date([u8; 8]),
    /// The iWork-1.0 date slot (field 2). Modern writers use [`GridValue::Date`].
    LegacyDate([u8; 8]),
    /// Seconds.
    Duration([u8; 8]),
    /// Fields this crate does not know. Carried, never guessed at.
    Unknown,
}

/// A grid cell as a mathematical object.
pub enum GridValueView {
    Empty,
    Number(Seq<u8>),
    Date(Seq<u8>),
    LegacyDate(Seq<u8>),
    Duration(Seq<u8>),
    Unknown,
}

impl View for GridValue {
    type V = GridValueView;

    open spec fn view(&self) -> GridValueView {
        match self {
            GridValue::Empty => GridValueView::Empty,
            GridValue::Number(b) => GridValueView::Number(b@),
            GridValue::Date(b) => GridValueView::Date(b@),
            GridValue::LegacyDate(b) => GridValueView::LegacyDate(b@),
            GridValue::Duration(b) => GridValueView::Duration(b@),
            GridValue::Unknown => GridValueView::Unknown,
        }
    }
}

/// The double a field holds, when its first occurrence is one.
pub open spec fn double_field(fs: Seq<SpecField>, number: u32) -> Option<Seq<u8>> {
    match first_with(fs, number) {
        Some(SpecValue::Fixed64(b)) => Some(b),
        _ => None,
    }
}

/// What a `TSCH.GridValue` holds: a number (1), a date (4), a duration (3) or
/// a legacy date (2), asked in that order; nothing at all is an empty cell.
pub open spec fn spec_grid_value(fs: Seq<SpecField>) -> GridValueView {
    match double_field(fs, 1) {
        Some(b) => GridValueView::Number(b),
        None => match double_field(fs, 4) {
            Some(b) => GridValueView::Date(b),
            None => match double_field(fs, 3) {
                Some(b) => GridValueView::Duration(b),
                None => match double_field(fs, 2) {
                    Some(b) => GridValueView::LegacyDate(b),
                    None => if fs.len() == 0 {
                        GridValueView::Empty
                    } else {
                        GridValueView::Unknown
                    },
                },
            },
        },
    }
}

fn double(message: &Message, number: u32) -> (r: Option<[u8; 8]>)
    ensures
        match double_field(message@, number) {
            Some(b) => r matches Some(a) && a@ == b,
            None => r is None,
        },
{
    match message.get(number) {
        Some(Value::Fixed64(b)) => Some(*b),
        _ => None,
    }
}

impl GridValue {
    pub fn decode(message: &Message) -> (r: GridValue)
        ensures
            r@ == spec_grid_value(message@),
    {
        if let Some(b) = double(message, 1) {
            return GridValue::Number(b);
        }
        if let Some(b) = double(message, 4) {
            return GridValue::Date(b);
        }
        if let Some(b) = double(message, 3) {
            return GridValue::Duration(b);
        }
        if let Some(b) = double(message, 2) {
            return GridValue::LegacyDate(b);
        }
        if message.fields.len() == 0 {
            GridValue::Empty
        } else {
            GridValue::Unknown
        }
    }

    /// The number a numeric cell holds, and `None` for every other kind —
    /// including a blank, which is the distinction that matters.
    pub fn number(&self) -> (r: Option<[u8; 8]>)
        ensures
            r == (match self {
                GridValue::Number(b) => Some(*b),
                _ => None,
            }),
    {
        match self {
            GridValue::Number(b) => Some(*b),
            _ => None,
        }
    }
}

/// `TSCH.ChartGridArchive` — the chart's private copy of its data.
#[derive(Debug, Clone, PartialEq)]
pub struct Grid {
    pub row_names: Vec<String>,
    pub column_names: Vec<String>,
    /// One entry per row, each as long as that row was written; a short row is
    /// left short rather than padded.
    pub rows: Vec<Vec<GridValue>>,
    /// `idMap.row_id_map` — a stable string id per row, and the index it is at.
    pub row_ids: Vec<(String, u32)>,
    pub column_ids: Vec<(String, u32)>,
}

impl Default for Grid {
    fn default() -> (r: Grid)
        ensures
            r.row_names@.len() == 0,
            r.column_names@.len() == 0,
            r.rows@.len() == 0,
            r.row_ids@.len() == 0,
            r.column_ids@.len() == 0,
    {
        Grid {
            row_names: Vec::new(),
            column_names: Vec::new(),
            rows: Vec::new(),
            row_ids: Vec::new(),
            column_ids: Vec::new(),
        }
    }
}

/// The texts among a list of values: every length-delimited one, read as
/// `from_utf8_lossy` reads it.
pub open spec fn value_texts(vs: Seq<SpecValue>) -> Seq<Seq<char>>
    decreases vs.len(),
{
    if vs.len() == 0 {
        Seq::empty()
    } else {
        let rest = value_texts(vs.drop_last());
        match vs.last() {
            SpecValue::Bytes(b) => rest.push(utf8_lossy(b)),
            _ => rest,
        }
    }
}

/// One cell of a row: a zero-length submessage is a blank, one that does not
/// parse or is not length-delimited is unknown.
pub open spec fn grid_cell(v: SpecValue) -> GridValueView {
    match v {
        SpecValue::Bytes(b) => if b.len() == 0 {
            GridValueView::Empty
        } else {
            match nested_of(b) {
                Some(cell) => spec_grid_value(cell),
                None => GridValueView::Unknown,
            }
        },
        _ => GridValueView::Unknown,
    }
}

/// One row of the grid: every field 1, blanks included, so that nothing
/// after a blank shifts.
pub open spec fn grid_row(v: SpecValue) -> Seq<GridValueView> {
    match v {
        SpecValue::Bytes(b) => if b.len() == 0 {
            Seq::empty()
        } else {
            match nested_of(b) {
                Some(row) => values_with(row, 1).map_values(|c: SpecValue| grid_cell(c)),
                None => Seq::empty(),
            }
        },
        _ => Seq::empty(),
    }
}

/// One `idMap` entry: a string id (1, the first occurrence, as bytes) and the
/// index it is at (2, cut to 32 bits).
pub open spec fn id_entry(v: SpecValue) -> Option<(Seq<char>, u32)> {
    match v {
        SpecValue::Bytes(b) => match nested_of(b) {
            Some(entry) => match first_with(entry, 1) {
                Some(SpecValue::Bytes(id)) => match varint_field(entry, 2) {
                    Some(index) => Some((utf8_lossy(id), index as u32)),
                    None => None,
                },
                _ => None,
            },
            None => None,
        },
        _ => None,
    }
}

/// Every entry of one side of an `idMap`.
pub open spec fn id_entries(vs: Seq<SpecValue>) -> Seq<(Seq<char>, u32)>
    decreases vs.len(),
{
    if vs.len() == 0 {
        Seq::empty()
    } else {
        let rest = id_entries(vs.drop_last());
        match id_entry(vs.last()) {
            Some(e) => rest.push(e),
            None => rest,
        }
    }
}

/// A grid as a mathematical object.
pub struct GridView {
    pub row_names: Seq<Seq<char>>,
    pub column_names: Seq<Seq<char>>,
    pub rows: Seq<Seq<GridValueView>>,
    pub row_ids: Seq<(Seq<char>, u32)>,
    pub column_ids: Seq<(Seq<char>, u32)>,
}

impl View for Grid {
    type V = GridView;

    open spec fn view(&self) -> GridView {
        GridView {
            row_names: self.row_names@.map_values(|s: String| s@),
            column_names: self.column_names@.map_values(|s: String| s@),
            rows: self.rows@.map_values(|r: Vec<GridValue>| r@.map_values(|c: GridValue| c@)),
            row_ids: self.row_ids@.map_values(|e: (String, u32)| (e.0@, e.1)),
            column_ids: self.column_ids@.map_values(|e: (String, u32)| (e.0@, e.1)),
        }
    }
}

/// What a `TSCH.ChartGridArchive` holds: row names (1), column names (2), rows
/// (3) and, where there is an `idMap` (4), its row (1) and column (2) ids.
pub open spec fn spec_grid(fs: Seq<SpecField>) -> GridView {
    let map = crate::formula::nested_field(fs, 4);
    GridView {
        row_names: value_texts(values_with(fs, 1)),
        column_names: value_texts(values_with(fs, 2)),
        rows: values_with(fs, 3).map_values(|v: SpecValue| grid_row(v)),
        row_ids: match map {
            Some(m) => id_entries(values_with(m, 1)),
            None => Seq::empty(),
        },
        column_ids: match map {
            Some(m) => id_entries(values_with(m, 2)),
            None => Seq::empty(),
        },
    }
}

/// Mapping a sequence with one more element at its end.
proof fn lemma_map_push<A, B>(s: Seq<A>, x: A, f: spec_fn(A) -> B)
    ensures
        s.push(x).map_values(f) == s.map_values(f).push(f(x)),
{
    assert(s.push(x).map_values(f) =~= s.map_values(f).push(f(x)));
}

fn texts(message: &Message, number: u32) -> (r: Vec<String>)
    ensures
        r@.map_values(|s: String| s@) == value_texts(values_with(message@, number)),
{
    let values = message.all(number);
    let ghost vs = values_with(message@, number);
    let mut out: Vec<String> = Vec::new();
    let mut i: usize = 0;
    while i < values.len()
        invariant
            i <= values@.len(),
            values@.len() == vs.len(),
            forall|k: int| 0 <= k < values@.len() ==> #[trigger] values@[k]@ == vs[k],
            out@.map_values(|s: String| s@) == value_texts(vs.take(i as int)),
        decreases values@.len() - i,
    {
        assert(vs.take(i + 1).drop_last() =~= vs.take(i as int));
        assert(vs.take(i + 1).last() == values@[i as int]@);
        if let Value::Bytes(b) = values[i] {
            let ghost before = out@;
            let s = lossy_string(b.as_slice());
            out.push(s);
            assert(out@.map_values(|s: String| s@) =~= before.map_values(|s: String| s@).push(s@));
        }
        i = i + 1;
    }
    assert(vs.take(values@.len() as int) =~= vs);
    out
}

fn cell_of(value: &Value) -> (r: GridValue)
    ensures
        r@ == grid_cell(value@),
{
    match value {
        Value::Bytes(b) => {
            if b.len() == 0 {
                GridValue::Empty
            } else {
                match decode_nested(b.as_slice()) {
                    Some(cell) => GridValue::decode(&cell),
                    None => GridValue::Unknown,
                }
            }
        },
        _ => GridValue::Unknown,
    }
}

fn row_of(value: &Value) -> (r: Vec<GridValue>)
    ensures
        r@.map_values(|c: GridValue| c@) == grid_row(value@),
{
    let mut out: Vec<GridValue> = Vec::new();
    match value {
        Value::Bytes(b) => {
            if b.len() > 0 {
                if let Some(row) = decode_nested(b.as_slice()) {
                    let cells = row.all(1);
                    let ghost vs = values_with(row@, 1);
                    let mut i: usize = 0;
                    while i < cells.len()
                        invariant
                            i <= cells@.len(),
                            cells@.len() == vs.len(),
                            forall|k: int| 0 <= k < cells@.len() ==> #[trigger] cells@[k]@ == vs[k],
                            out@.map_values(|c: GridValue| c@) == vs.take(i as int).map_values(
                                |c: SpecValue| grid_cell(c),
                            ),
                        decreases cells@.len() - i,
                    {
                        let ghost before = out@;
                        let c = cell_of(cells[i]);
                        out.push(c);
                        proof {
                            lemma_map_push(before, c, |c: GridValue| c@);
                            assert(vs.take(i + 1) =~= vs.take(i as int).push(vs[i as int]));
                            lemma_map_push(vs.take(i as int), vs[i as int], |c: SpecValue| grid_cell(c));
                        }
                        i = i + 1;
                    }
                    assert(vs.take(cells@.len() as int) =~= vs);
                    return out;
                }
            }
        },
        _ => {},
    }
    assert(out@.map_values(|c: GridValue| c@) =~= Seq::<GridValueView>::empty());
    out
}

fn id_map(map: &Message, number: u32) -> (r: Vec<(String, u32)>)
    ensures
        r@.map_values(|e: (String, u32)| (e.0@, e.1)) == id_entries(values_with(map@, number)),
{
    let values = map.all(number);
    let ghost vs = values_with(map@, number);
    let mut out: Vec<(String, u32)> = Vec::new();
    let mut i: usize = 0;
    while i < values.len()
        invariant
            i <= values@.len(),
            values@.len() == vs.len(),
            forall|k: int| 0 <= k < values@.len() ==> #[trigger] values@[k]@ == vs[k],
            out@.map_values(|e: (String, u32)| (e.0@, e.1)) == id_entries(vs.take(i as int)),
        decreases values@.len() - i,
    {
        assert(vs.take(i + 1).drop_last() =~= vs.take(i as int));
        assert(vs.take(i + 1).last() == values@[i as int]@);
        if let Value::Bytes(b) = values[i] {
            if let Some(entry) = decode_nested(b.as_slice()) {
                if let Some(Value::Bytes(id)) = entry.get(1) {
                    if let Some(index) = entry.varint(2) {
                        let ghost before = out@;
                        let item = (lossy_string(id.as_slice()), index as u32);
                        out.push(item);
                        assert(out@.map_values(|e: (String, u32)| (e.0@, e.1)) =~= before.map_values(
                            |e: (String, u32)| (e.0@, e.1),
                        ).push((item.0@, item.1)));
                    }
                }
            }
        }
        i = i + 1;
    }
    assert(vs.take(values@.len() as int) =~= vs);
    out
}

impl Grid {
    pub fn decode(message: &Message) -> (r: Grid)
        ensures
            r@ == spec_grid(message@),
    {
        let values = message.all(3);
        let ghost vs = values_with(message@, 3);
        let mut rows: Vec<Vec<GridValue>> = Vec::new();
        let mut i: usize = 0;
        while i < values.len()
            invariant
                i <= values@.len(),
                values@.len() == vs.len(),
                forall|k: int| 0 <= k < values@.len() ==> #[trigger] values@[k]@ == vs[k],
                rows@.map_values(|r: Vec<GridValue>| r@.map_values(|c: GridValue| c@)) == vs.take(
                    i as int,
                ).map_values(|v: SpecValue| grid_row(v)),
            decreases values@.len() - i,
        {
            let ghost before = rows@;
            let row = row_of(values[i]);
            let ghost pushed = row;
            rows.push(row);
            proof {
                lemma_map_push(before, pushed, |r: Vec<GridValue>| r@.map_values(|c: GridValue| c@));
                assert(vs.take(i + 1) =~= vs.take(i as int).push(vs[i as int]));
                lemma_map_push(vs.take(i as int), vs[i as int], |v: SpecValue| grid_row(v));
            }
            i = i + 1;
        }
        assert(vs.take(values@.len() as int) =~= vs);
        let mut grid = Grid {
            row_names: texts(message, 1),
            column_names: texts(message, 2),
            rows,
            row_ids: Vec::new(),
            column_ids: Vec::new(),
        };
        match crate::formula::nested(message, 4) {
            Some(map) => {
                grid.row_ids = id_map(&map, 1);
                grid.column_ids = id_map(&map, 2);
            },
            None => {
                assert(grid.row_ids@.map_values(|e: (String, u32)| (e.0@, e.1)) =~= Seq::<
                    (Seq<char>, u32),
                >::empty());
                assert(grid.column_ids@.map_values(|e: (String, u32)| (e.0@, e.1)) =~= Seq::<
                    (Seq<char>, u32),
                >::empty());
            },
        }
        grid
    }

    pub fn row_count(&self) -> (r: usize)
        ensures
            r == self.rows@.len(),
    {
        self.rows.len()
    }

    /// The widest row. A grid is rectangular in every document here, but a
    /// decoder that assumes it is will index out of a short one.
    pub fn column_count(&self) -> (r: usize)
        ensures
            r == widest(self@.rows),
    {
        let ghost rows = self@.rows;
        let mut most: usize = 0;
        let mut i: usize = 0;
        while i < self.rows.len()
            invariant
                i <= self.rows@.len(),
                rows == self@.rows,
                most == widest(rows.take(i as int)),
            decreases self.rows@.len() - i,
        {
            assert(rows.take(i + 1).drop_last() =~= rows.take(i as int));
            assert(rows.take(i + 1).last() == rows[i as int]);
            assert(rows[i as int].len() == self.rows@[i as int]@.len());
            if self.rows[i].len() > most {
                most = self.rows[i].len();
            }
            i = i + 1;
        }
        assert(rows.take(i as int) =~= rows);
        most
    }

    /// The value at a cell, and a blank outside the rows as written.
    pub fn value(&self, row: usize, column: usize) -> (r: GridValue)
        ensures
            r == (if row < self.rows@.len() && column < self.rows@[row as int]@.len() {
                self.rows@[row as int]@[column as int]
            } else {
                GridValue::Empty
            }),
    {
        if row < self.rows.len() && column < self.rows[row].len() {
            self.rows[row][column]
        } else {
            GridValue::Empty
        }
    }
}

/// One series, as the chart plots it: a name, and one value per category.
#[derive(Debug, Clone, PartialEq)]
pub struct Series {
    pub name: Option<String>,
    pub values: Vec<GridValue>,
}

/// The length of the longest row, and nought for no rows.
pub open spec fn widest(rows: Seq<Seq<GridValueView>>) -> nat
    decreases rows.len(),
{
    if rows.len() == 0 {
        0
    } else {
        let rest = widest(rows.drop_last());
        if rows.last().len() > rest {
            rows.last().len()
        } else {
            rest
        }
    }
}

/// A series as a mathematical object.
pub struct SeriesView {
    pub name: Option<Seq<char>>,
    pub values: Seq<GridValueView>,
}

impl View for Series {
    type V = SeriesView;

    open spec fn view(&self) -> SeriesView {
        SeriesView {
            name: match self.name {
                Some(n) => Some(n@),
                None => None,
            },
            values: self.values@.map_values(|c: GridValue| c@),
        }
    }
}

/// How many series a grid holds: one per column when the series run by
/// column (2), one per row otherwise.
pub open spec fn spec_series_count(grid: GridView, direction: u32) -> nat {
    if direction == 2 {
        widest(grid.rows)
    } else {
        grid.rows.len()
    }
}

/// The value at a cell, and a blank outside the rows as written.
pub open spec fn grid_value(grid: GridView, row: int, column: int) -> GridValueView {
    if 0 <= row < grid.rows.len() && 0 <= column < grid.rows[row].len() {
        grid.rows[row][column]
    } else {
        GridValueView::Empty
    }
}

/// The chart's data as it is plotted: one series per row, or per column when
/// the series run by column, each named from that axis and with one value per
/// category.
pub open spec fn spec_series(grid: GridView, direction: u32) -> Seq<SeriesView> {
    let names = if direction == 2 {
        grid.column_names
    } else {
        grid.row_names
    };
    Seq::new(
        spec_series_count(grid, direction),
        |index: int|
            SeriesView {
                name: if index < names.len() {
                    Some(names[index])
                } else {
                    None
                },
                values: if direction == 2 {
                    Seq::new(grid.rows.len(), |row: int| grid_value(grid, row, index))
                } else {
                    grid.rows[index]
                },
            },
    )
}

fn copy_string(s: &String) -> (r: String)
    ensures
        r@ == s@,
{
    let chars = string_chars(s);
    to_string(&chars)
}

impl Grid {
    /// How many series the chart plots, from the grid and the direction.
    pub fn series_count(&self, direction: u32) -> (r: usize)
        ensures
            r == spec_series_count(self@, direction),
    {
        if direction == 2 {
            self.column_count()
        } else {
            self.row_count()
        }
    }

    /// The category labels — the names along the axis the series are *not*.
    pub fn categories(&self, direction: u32) -> (r: &Vec<String>)
        ensures
            r@.map_values(|s: String| s@) == (if direction == 2 {
                self@.row_names
            } else {
                self@.column_names
            }),
    {
        if direction == 2 {
            &self.row_names
        } else {
            &self.column_names
        }
    }

    fn one_series(&self, direction: u32, index: usize) -> (r: Series)
        requires
            index < spec_series_count(self@, direction),
        ensures
            r@ == spec_series(self@, direction)[index as int],
    {
        let names = if direction == 2 {
            &self.column_names
        } else {
            &self.row_names
        };
        let name = if index < names.len() {
            Some(copy_string(&names[index]))
        } else {
            None
        };
        let mut values: Vec<GridValue> = Vec::new();
        if direction == 2 {
            let mut row: usize = 0;
            while row < self.rows.len()
                invariant
                    row <= self.rows@.len(),
                    values@.map_values(|c: GridValue| c@) == Seq::new(
                        row as nat,
                        |r: int| grid_value(self@, r, index as int),
                    ),
                decreases self.rows@.len() - row,
            {
                let ghost before = values@;
                let v = self.value(row, index);
                values.push(v);
                proof {
                    lemma_map_push(before, v, |c: GridValue| c@);
                }
                assert(values@.map_values(|c: GridValue| c@) =~= Seq::new(
                    (row + 1) as nat,
                    |r: int| grid_value(self@, r, index as int),
                ));
                row = row + 1;
            }
        } else {
            let cells = &self.rows[index];
            let mut k: usize = 0;
            while k < cells.len()
                invariant
                    k <= cells@.len(),
                    values@ == cells@.take(k as int),
                decreases cells@.len() - k,
            {
                values.push(cells[k]);
                assert(values@ =~= cells@.take(k + 1));
                k = k + 1;
            }
            assert(values@ =~= cells@);
        }
        Series { name, values }
    }

    /// The chart's data as it is plotted: one [`Series`] per series, each
    /// with one value per category.
    ///
    /// `direction` (`series_direction`) is what decides which axis of the grid
    /// is which, and it is the only thing that does — the grid itself is always
    /// stored rows first.
    pub fn series(&self, direction: u32) -> (r: Vec<Series>)
        ensures
            r@.map_values(|s: Series| s@) == spec_series(self@, direction),
    {
        let count = self.series_count(direction);
        let mut out: Vec<Series> = Vec::new();
        let mut index: usize = 0;
        while index < count
            invariant
                index <= count,
                count == spec_series_count(self@, direction),
                out@.map_values(|s: Series| s@) == spec_series(self@, direction).take(index as int),
            decreases count - index,
        {
            let ghost before = out@;
            let one = self.one_series(direction, index);
            let ghost pushed = one;
            out.push(one);
            proof {
                lemma_map_push(before, pushed, |s: Series| s@);
            }
            assert(out@.map_values(|s: Series| s@) =~= spec_series(self@, direction).take(index + 1));
            index = index + 1;
        }
        assert(spec_series(self@, direction).take(count as int) =~= spec_series(self@, direction));
        out
    }
}


proof fn lemma_widest_of_equal_rows(rows: Seq<Seq<GridValueView>>, width: nat)
    requires
        rows.len() > 0,
        forall|r: int| 0 <= r < rows.len() ==> #[trigger] rows[r].len() == width,
    ensures
        widest(rows) == width,
    decreases rows.len(),
{
    assert(rows[rows.len() - 1].len() == width);
    if rows.len() > 1 {
        let rest = rows.drop_last();
        assert forall|r: int| 0 <= r < rest.len() implies #[trigger] rest[r].len() == width by {
            assert(rest[r] == rows[r]);
        }
        lemma_widest_of_equal_rows(rest, width);
    } else {
        assert(rows.drop_last().len() == 0);
        assert(widest(rows.drop_last()) == 0);
    }
}

/// **By row and by column are one grid, transposed.** For a rectangular
/// grid, reading the series by column (2) gives one series per column, and
/// the value of column `c` in row `r` is the same whichever way the series
/// run; the grid itself is stored rows first either way.
pub proof fn law_series_directions_transpose(grid: GridView, width: nat)
    requires
        grid.rows.len() > 0,
        forall|r: int| 0 <= r < grid.rows.len() ==> #[trigger] grid.rows[r].len() == width,
    ensures
        spec_series_count(grid, 2) == width,
        spec_series_count(grid, 1) == grid.rows.len(),
        forall|r: int, c: int|
            0 <= r < grid.rows.len() && 0 <= c < width ==> #[trigger] spec_series(grid, 2)[c].values[r]
                == #[trigger] spec_series(grid, 1)[r].values[c],
{
    lemma_widest_of_equal_rows(grid.rows, width);
}


/// `TSP.SparseReferenceArray` — a logical array in which only the entries that
/// differ from the default are written.
///
/// **`count` is the logical length, not `entries.len()`.** A series with no
/// private style simply has no entry, so sizing the series vector from the
/// entries drops every default-styled series and mis-aligns every index after
/// the first gap.
#[derive(Debug, Clone, PartialEq)]
pub struct SparseReferences {
    pub count: u32,
    pub entries: Vec<(u32, u64)>,
}

impl Default for SparseReferences {
    fn default() -> (r: SparseReferences)
        ensures
            r.count == 0,
            r.entries@.len() == 0,
    {
        SparseReferences { count: 0, entries: Vec::new() }
    }
}

/// One entry of a sparse array: its index (field 1, nought when absent) and
/// the identifier of the object it points at (field 2, a `TSP.Reference`).
pub open spec fn sparse_entry(b: Seq<u8>) -> Option<(u32, u64)> {
    match nested_of(b) {
        Some(entry) => {
            let index = match varint_field(entry, 1) {
                Some(v) => v as u32,
                None => 0u32,
            };
            let target = match first_bytes(entry, 2) {
                Some(r) => match nested_of(r) {
                    Some(reference) => varint_field(reference, 1),
                    None => None,
                },
                None => None,
            };
            match target {
                Some(t) => Some((index, t)),
                None => None,
            }
        },
        None => None,
    }
}

/// The first field with this number, when it is length-delimited.
pub open spec fn first_bytes(fs: Seq<SpecField>, number: u32) -> Option<Seq<u8>> {
    crate::pb::bytes_field(fs, number)
}

/// The entries among a list of values: each one that is a nested message with
/// a target.
pub open spec fn sparse_entries(vs: Seq<SpecValue>) -> Seq<(u32, u64)>
    decreases vs.len(),
{
    if vs.len() == 0 {
        Seq::empty()
    } else {
        let rest = sparse_entries(vs.drop_last());
        match vs.last() {
            SpecValue::Bytes(b) => match sparse_entry(b) {
                Some(e) => rest.push(e),
                None => rest,
            },
            _ => rest,
        }
    }
}

/// The array laid out densely, `count` long: every entry in order writes its
/// target at its index, where the index is inside the array.
pub open spec fn dense_of(entries: Seq<(u32, u64)>, count: nat) -> Seq<Option<u64>>
    decreases entries.len(),
{
    if entries.len() == 0 {
        Seq::new(count, |i: int| None)
    } else {
        let d = dense_of(entries.drop_last(), count);
        let (index, target) = entries.last();
        if index < count {
            d.update(index as int, Some(target))
        } else {
            d
        }
    }
}

fn sparse_entry_of(bytes: &[u8]) -> (r: Option<(u32, u64)>)
    ensures
        r == sparse_entry(bytes@),
{
    let entry = match decode_nested(bytes) {
        Some(m) => m,
        None => return None,
    };
    let index = match entry.varint(1) {
        Some(v) => v as u32,
        None => 0,
    };
    let reference = match entry.bytes(2) {
        Some(b) => decode_nested(b),
        None => None,
    };
    let target = match reference {
        Some(m) => m.varint(1),
        None => None,
    };
    match target {
        Some(t) => Some((index, t)),
        None => None,
    }
}

impl SparseReferences {
    pub fn decode(message: &Message) -> (r: SparseReferences)
        ensures
            r.count == (match varint_field(message@, 1) {
                Some(v) => v as u32,
                None => 0u32,
            }),
            r.entries@ == sparse_entries(values_with(message@, 2)),
    {
        let count = match message.varint(1) {
            Some(v) => v as u32,
            None => 0,
        };
        let values = message.all(2);
        let ghost vs = values_with(message@, 2);
        let mut entries: Vec<(u32, u64)> = Vec::new();
        let mut i: usize = 0;
        while i < values.len()
            invariant
                i <= values@.len(),
                values@.len() == vs.len(),
                forall|k: int| 0 <= k < values@.len() ==> values@[k]@ == vs[k],
                entries@ == sparse_entries(vs.take(i as int)),
            decreases values@.len() - i,
        {
            assert(vs.take(i + 1).drop_last() =~= vs.take(i as int));
            assert(vs.take(i + 1).last() == values@[i as int]@);
            match values[i] {
                Value::Bytes(b) => match sparse_entry_of(b.as_slice()) {
                    Some(e) => entries.push(e),
                    None => {},
                },
                _ => {},
            }
            i = i + 1;
        }
        assert(vs.take(values@.len() as int) =~= vs);
        SparseReferences { count, entries }
    }

    /// The array laid out densely, `count` long, with `None` where the entry is
    /// absent and the default applies.
    pub fn dense(&self) -> (r: Vec<Option<u64>>)
        ensures
            r@ == dense_of(self.entries@, self.count as nat),
            r@.len() == self.count,
    {
        let mut out: Vec<Option<u64>> = Vec::new();
        let mut i: u32 = 0;
        while i < self.count
            invariant
                i <= self.count,
                out@ == Seq::new(i as nat, |k: int| None::<u64>),
            decreases self.count - i,
        {
            out.push(None);
            assert(out@ =~= Seq::new((i + 1) as nat, |k: int| None::<u64>));
            i = i + 1;
        }
        assert(out@ =~= dense_of(self.entries@.take(0), self.count as nat));
        let mut j: usize = 0;
        while j < self.entries.len()
            invariant
                j <= self.entries@.len(),
                out@ == dense_of(self.entries@.take(j as int), self.count as nat),
            decreases self.entries@.len() - j,
        {
            proof {
                lemma_dense_len(self.entries@.take(j as int), self.count as nat);
            }
            assert(self.entries@.take(j + 1).drop_last() =~= self.entries@.take(j as int));
            let (index, target) = self.entries[j];
            if index < self.count {
                out.set(index as usize, Some(target));
            }
            j = j + 1;
        }
        assert(self.entries@.take(self.entries@.len() as int) =~= self.entries@);
        proof {
            lemma_dense_len(self.entries@, self.count as nat);
        }
        out
    }

    pub fn is_empty(&self) -> (r: bool)
        ensures
            r == (self.count == 0 && self.entries@.len() == 0),
    {
        self.count == 0 && self.entries.len() == 0
    }
}

/// The dense array is always `count` long.
pub proof fn lemma_dense_len(entries: Seq<(u32, u64)>, count: nat)
    ensures
        dense_of(entries, count).len() == count,
    decreases entries.len(),
{
    if entries.len() > 0 {
        lemma_dense_len(entries.drop_last(), count);
    }
}

// -- references ------------------------------------------------------------------------

/// One formula out of a chart's mediator: where it points, and how it reads.
#[derive(Debug, Clone, PartialEq)]
pub struct ChartReference {
    /// The table the reference reaches, by name — `None` when the formula
    /// makes no reference at all, which happens: a bubble chart's row labels
    /// are string *literals*, not references.
    pub table: Option<String>,
    /// The reference as Numbers would spell it, printed against the table it
    /// reaches so that a reference inside that table reads `A2:A10` rather than
    /// naming the table on both sides of the colon.
    pub text: String,
    /// One entry per operand of function 175 — usually one, sometimes three
    /// disjoint ranges, occasionally none at all.
    pub parts: Vec<String>,
    /// Whether the formula wrapped its operand in function 175.
    pub wrapped: bool,
}

/// `Table!reference`, or the bare text when no table is reached.
pub open spec fn spec_reference_text(r: ChartReference) -> Seq<char> {
    match r.table {
        Some(t) => t@ + seq!['!'] + r.text@,
        None => r.text@,
    }
}

impl ChartReference {
    /// `Table!reference`, the spelling this crate uses for "which cells".
    pub fn to_text(&self) -> (r: String)
        ensures
            r@ == spec_reference_text(*self),
    {
        match &self.table {
            Some(table) => {
                let mut out = string_chars(table);
                out.push('!');
                let text = string_chars(&self.text);
                let mut i: usize = 0;
                let ghost start = out@;
                while i < text.len()
                    invariant
                        i <= text@.len(),
                        out@ == start + text@.take(i as int),
                    decreases text@.len() - i,
                {
                    out.push(text[i]);
                    assert(text@.take(i + 1) =~= text@.take(i as int).push(text@[i as int]));
                    i = i + 1;
                }
                assert(text@.take(text@.len() as int) =~= text@);
                to_string(&out)
            },
            None => self.text.clone(),
        }
    }
}

/// A chart's binding to the tables that feed it — the half of "what data is
/// this?" that the grid is only a cache of.
#[derive(Debug, Clone, PartialEq)]
pub struct DataReferences {
    /// The `TN.ChartMediatorArchive` this came from.
    pub mediator: u64,
    /// `entity_id` — the mediator's identity to the calculation engine.
    pub entity_id: Option<String>,
    /// `columns_are_series` (field 4), when written.
    pub columns_are_series: Option<bool>,
    /// `TN.ChartMediatorFormulaStorage.direction` (field 5).
    pub direction: Option<i64>,
    /// One reference per series' data.
    pub data: Vec<ChartReference>,
    /// One per row label, in row order.
    pub row_labels: Vec<ChartReference>,
    /// One per column label, in column order.
    pub column_labels: Vec<ChartReference>,
    /// Error-bar formulas, counted rather than printed.
    pub error_formulas: usize,
    /// `local_series_indexes` / `remote_series_indexes`, the parallel arrays of
    /// the base `TSCH.ChartMediatorArchive`.
    pub local_series_indexes: Vec<u64>,
    pub remote_series_indexes: Vec<u64>,
    /// How many of the formulas wrapped their operand in function 175.
    pub wrapped_in_175: usize,
    /// How many formulas did not have that shape.
    pub unwrapped: usize,
}

impl Default for DataReferences {
    fn default() -> (r: DataReferences)
        ensures
            r.mediator == 0,
            r.entity_id is None,
            r.columns_are_series is None,
            r.direction is None,
            r.data@.len() == 0,
            r.row_labels@.len() == 0,
            r.column_labels@.len() == 0,
            r.error_formulas == 0,
            r.local_series_indexes@.len() == 0,
            r.remote_series_indexes@.len() == 0,
            r.wrapped_in_175 == 0,
            r.unwrapped == 0,
    {
        DataReferences {
            mediator: 0,
            entity_id: None,
            columns_are_series: None,
            direction: None,
            data: Vec::new(),
            row_labels: Vec::new(),
            column_labels: Vec::new(),
            error_formulas: 0,
            local_series_indexes: Vec::new(),
            remote_series_indexes: Vec::new(),
            wrapped_in_175: 0,
            unwrapped: 0,
        }
    }
}

/// The tables a list of references reaches, each once, in the order first
/// reached.
pub open spec fn distinct_tables(refs: Seq<ChartReference>) -> Seq<Seq<char>>
    decreases refs.len(),
{
    if refs.len() == 0 {
        Seq::empty()
    } else {
        let seen = distinct_tables(refs.drop_last());
        match refs.last().table {
            Some(t) => if seen.contains(t@) {
                seen
            } else {
                seen.push(t@)
            },
            None => seen,
        }
    }
}

impl DataReferences {
    /// Every reference, in the order data, row labels, column labels.
    pub open spec fn every(&self) -> Seq<ChartReference> {
        self.data@ + self.row_labels@ + self.column_labels@
    }

    /// Every reference, in the order data, row labels, column labels.
    pub fn all(&self) -> (r: Vec<&ChartReference>)
        ensures
            r@.len() == self.every().len(),
            forall|i: int| 0 <= i < r@.len() ==> *r@[i] == self.every()[i],
    {
        let mut out: Vec<&ChartReference> = Vec::new();
        let mut i: usize = 0;
        while i < self.data.len()
            invariant
                i <= self.data@.len(),
                out@.len() == i,
                forall|k: int| 0 <= k < i ==> *out@[k] == self.data@[k],
            decreases self.data@.len() - i,
        {
            out.push(&self.data[i]);
            i = i + 1;
        }
        let mut j: usize = 0;
        while j < self.row_labels.len()
            invariant
                j <= self.row_labels@.len(),
                out@.len() == self.data@.len() + j,
                forall|k: int| 0 <= k < self.data@.len() ==> *out@[k] == self.data@[k],
                forall|k: int| 0 <= k < j ==> *out@[self.data@.len() + k] == self.row_labels@[k],
            decreases self.row_labels@.len() - j,
        {
            out.push(&self.row_labels[j]);
            j = j + 1;
        }
        let mut l: usize = 0;
        while l < self.column_labels.len()
            invariant
                l <= self.column_labels@.len(),
                out@.len() == self.data@.len() + self.row_labels@.len() + l,
                forall|k: int| 0 <= k < self.data@.len() ==> *out@[k] == self.data@[k],
                forall|k: int|
                    0 <= k < self.row_labels@.len() ==> *out@[self.data@.len() + k]
                        == self.row_labels@[k],
                forall|k: int|
                    0 <= k < l ==> *out@[self.data@.len() + self.row_labels@.len() + k]
                        == self.column_labels@[k],
            decreases self.column_labels@.len() - l,
        {
            out.push(&self.column_labels[l]);
            l = l + 1;
        }
        proof {
            let every = self.every();
            assert forall|i: int| 0 <= i < out@.len() implies *out@[i] == every[i] by {
                if i < self.data@.len() {
                } else if i < self.data@.len() + self.row_labels@.len() {
                    let k = i - self.data@.len();
                    assert(*out@[self.data@.len() + k] == self.row_labels@[k]);
                } else {
                    let k = i - self.data@.len() - self.row_labels@.len();
                    assert(*out@[self.data@.len() + self.row_labels@.len() + k]
                        == self.column_labels@[k]);
                }
            }
        }
        out
    }

    /// The distinct tables that feed the chart, in the order they are first
    /// reached. A chart may take its series from more than one.
    #[verifier::spinoff_prover]
    pub fn tables(&self) -> (r: Vec<String>)
        ensures
            r@.len() == distinct_tables(self.every()).len(),
            forall|i: int| 0 <= i < r@.len() ==> r@[i]@ == distinct_tables(self.every())[i],
    {
        let every = self.all();
        let ghost refs = self.every();
        let mut out: Vec<String> = Vec::new();
        let mut i: usize = 0;
        while i < every.len()
            invariant
                i <= every@.len(),
                every@.len() == refs.len(),
                forall|k: int| 0 <= k < every@.len() ==> *every@[k] == refs[k],
                out@.len() == distinct_tables(refs.take(i as int)).len(),
                forall|k: int|
                    0 <= k < out@.len() ==> out@[k]@ == distinct_tables(refs.take(i as int))[k],
            decreases every@.len() - i,
        {
            let ghost seen = distinct_tables(refs.take(i as int));
            assert(refs.take(i + 1).drop_last() =~= refs.take(i as int));
            assert(refs.take(i + 1).last() == *every@[i as int]);
            match &every[i].table {
                Some(table) => {
                    let mut found = false;
                    let mut k: usize = 0;
                    while k < out.len()
                        invariant
                            k <= out@.len(),
                            out@.len() == seen.len(),
                            forall|m: int| 0 <= m < out@.len() ==> out@[m]@ == seen[m],
                            found ==> seen.contains(table@),
                            !found ==> forall|m: int| 0 <= m < k ==> seen[m] != table@,
                        decreases out@.len() - k,
                    {
                        if out[k] == *table {
                            assert(seen[k as int] == table@);
                            found = true;
                        }
                        k = k + 1;
                    }
                    assert(found == seen.contains(table@));
                    if !found {
                        out.push(table.clone());
                    }
                },
                None => {},
            }
            i = i + 1;
        }
        assert(refs.take(every@.len() as int) =~= refs);
        out
    }
}

// -- mediators ----------------------------------------------------------------------------

/// The index of the function every chart reference goes through, and that has
/// no published name.
pub const CHART_REFERENCE_FUNCTION: u32 = 175;

/// A formula whose last node is a call of function 175, without that node:
/// the fragment that leaves one value on the stack per operand.
pub open spec fn spec_unwrap_175(f: Formula) -> Option<Seq<crate::formula::NodeView>> {
    let ns = f.ast@;
    if ns.len() == 0 {
        None
    } else {
        match crate::formula::spec_function(ns.last().1) {
            Some((index, _)) => if index == CHART_REFERENCE_FUNCTION {
                Some(ns.drop_last())
            } else {
                None
            },
            None => None,
        }
    }
}

/// A copy of a node.
fn copy_node(node: &Node) -> (r: Node)
    ensures
        r@ == node@,
{
    Node { kind: node.kind, raw: node.raw.duplicate() }
}

/// **Function 175**, dropped: the formula's stream without its last node,
/// when that node is a call of function 175.
pub fn unwrap_175(formula: &Formula) -> (r: Option<Ast>)
    ensures
        match spec_unwrap_175(*formula) {
            Some(ns) => r matches Some(a) && a@ == ns,
            None => r is None,
        },
{
    let n = formula.ast.nodes.len();
    if n == 0 {
        return None;
    }
    let last = &formula.ast.nodes[n - 1];
    assert(formula.ast@.last() == last@);
    let index = match last.function() {
        Some((index, _)) => index,
        None => return None,
    };
    if index != CHART_REFERENCE_FUNCTION {
        return None;
    }
    let mut nodes: Vec<Node> = Vec::new();
    let mut i: usize = 0;
    while i < n - 1
        invariant
            n == formula.ast.nodes@.len(),
            n > 0,
            i <= n - 1,
            nodes@.len() == i,
            forall|k: int| 0 <= k < i ==> #[trigger] nodes@[k]@ == formula.ast.nodes@[k]@,
        decreases n - 1 - i,
    {
        nodes.push(copy_node(&formula.ast.nodes[i]));
        i = i + 1;
    }
    let ast = Ast { nodes };
    assert(ast@ =~= formula.ast@.drop_last());
    Some(ast)
}

/// The varints of a packed list, read until the bytes run out or stop being
/// varints.
pub open spec fn packed(b: Seq<u8>) -> Seq<u64>
    decreases b.len(),
{
    if b.len() == 0 {
        Seq::empty()
    } else {
        match varint_of(b) {
            Some((v, n)) => if 0 < n <= b.len() {
                seq![v] + packed(b.skip(n as int))
            } else {
                Seq::empty()
            },
            None => Seq::empty(),
        }
    }
}

/// A repeated scalar as written: a varint is one value, a length-delimited
/// value is a packed list of them.
pub open spec fn spec_packed_varints(vs: Seq<SpecValue>) -> Seq<u64>
    decreases vs.len(),
{
    if vs.len() == 0 {
        Seq::empty()
    } else {
        spec_packed_varints(vs.drop_last()) + match vs.last() {
            SpecValue::Varint(v) => seq![v],
            SpecValue::Bytes(b) => packed(b),
            _ => Seq::empty(),
        }
    }
}

fn push_packed(out: &mut Vec<u64>, b: &[u8])
    ensures
        final(out)@ == old(out)@ + packed(b@),
{
    let ghost start = out@;
    let mut pos: usize = 0;
    let mut going = true;
    assert(b@.skip(0) =~= b@);
    while going && pos < b.len()
        invariant
            pos <= b@.len(),
            going ==> start + packed(b@) == out@ + packed(b@.skip(pos as int)),
            !going ==> out@ == start + packed(b@),
        decreases b@.len() - pos + (if going {
            1int
        } else {
            0int
        }),
    {
        let ghost rest = b@.skip(pos as int);
        proof {
            crate::pb::lemma_read_varint_bounds(rest, 10);
        }
        match read_varint_at(b, pos) {
            Some((v, n)) => {
                if n == 0 || n > b.len() - pos {
                    assert(packed(rest) =~= Seq::empty());
                    assert(out@ =~= start + packed(b@));
                    going = false;
                } else {
                    out.push(v);
                    assert(rest.skip(n as int) =~= b@.skip(pos + n));
                    assert(packed(rest) =~= seq![v] + packed(rest.skip(n as int)));
                    assert(start + packed(b@) =~= out@ + packed(b@.skip(pos + n)));
                    pos = pos + n;
                }
            },
            None => {
                assert(packed(rest) =~= Seq::empty());
                assert(out@ =~= start + packed(b@));
                going = false;
            },
        }
    }
    if going {
        assert(b@.skip(pos as int) =~= Seq::<u8>::empty());
        assert(out@ =~= start + packed(b@));
    }
}

/// A repeated scalar that may arrive packed or unpacked. proto2 does not mark
/// these `[packed=true]`, so Apple writes them one field per value — but a
/// reader has to accept both.
pub fn packed_varints(message: &Message, number: u32) -> (r: Vec<u64>)
    ensures
        r@ == spec_packed_varints(values_with(message@, number)),
{
    let values = message.all(number);
    let ghost vs = values_with(message@, number);
    let mut out: Vec<u64> = Vec::new();
    let mut i: usize = 0;
    while i < values.len()
        invariant
            i <= values@.len(),
            values@.len() == vs.len(),
            forall|k: int| 0 <= k < values@.len() ==> values@[k]@ == vs[k],
            out@ == spec_packed_varints(vs.take(i as int)),
        decreases values@.len() - i,
    {
        assert(vs.take(i + 1).drop_last() =~= vs.take(i as int));
        assert(vs.take(i + 1).last() == values@[i as int]@);
        let ghost before = out@;
        match values[i] {
            Value::Varint(v) => {
                out.push(*v);
                assert(out@ =~= before + seq![*v]);
            },
            Value::Bytes(b) => {
                push_packed(&mut out, b.as_slice());
            },
            _ => {
                assert(out@ =~= before + Seq::<u64>::empty());
            },
        }
        i = i + 1;
    }
    assert(vs.take(values@.len() as int) =~= vs);
    out
}


// -- what a mediator says -----------------------------------------------------------------

/// `TSCH.ChartMediatorArchive`, the plain mediator.
pub const TYPE_CHART_MEDIATOR: u32 = 5004;
/// `TN.ChartMediatorArchive` — the Numbers subclass that holds the formulas.
pub const TYPE_TN_CHART_MEDIATOR: u32 = 12006;

/// A chart reference as a mathematical object.
pub struct ChartReferenceView {
    pub table: Option<Seq<char>>,
    pub text: Seq<char>,
    pub parts: Seq<Seq<char>>,
    pub wrapped: bool,
}

pub open spec fn reference_view(r: ChartReference) -> ChartReferenceView {
    ChartReferenceView {
        table: match r.table {
            Some(t) => Some(t@),
            None => None,
        },
        text: r.text@,
        parts: r.parts@.map_values(|p: String| p@),
        wrapped: r.wrapped,
    }
}

/// The stream a chart reference prints: the formula's own, or — when it ends
/// in a call of function 175 — the operands of that call.
pub open spec fn unwrap_stream(ns: Seq<crate::formula::NodeView>) -> Option<Seq<crate::formula::NodeView>> {
    if ns.len() == 0 {
        None
    } else {
        match crate::formula::spec_function(ns.last().1) {
            Some((index, _)) => if index == CHART_REFERENCE_FUNCTION {
                Some(ns.drop_last())
            } else {
                None
            },
            None => None,
        }
    }
}

/// The table the first node that names one reaches.
pub open spec fn first_table_uid(ns: Seq<crate::formula::NodeView>) -> Option<crate::formula::Uuid>
    decreases ns.len(),
{
    if ns.len() == 0 {
        None
    } else {
        match crate::formula::spec_reference(ns[0]) {
            Some(r) => match r.table {
                Some(uid) => Some(uid),
                None => first_table_uid(ns.drop_first()),
            },
            None => first_table_uid(ns.drop_first()),
        }
    }
}

/// `parts` with `", "` between each two.
pub open spec fn comma_joined(parts: Seq<Seq<char>>) -> Seq<char>
    decreases parts.len(),
{
    if parts.len() == 0 {
        Seq::empty()
    } else {
        comma_joined(parts.drop_last()) + (if parts.len() > 1 {
            seq![',', ' ']
        } else {
            Seq::empty()
        }) + parts.last()
    }
}

/// One formula of a mediator, read: how it reads, and whether it counts as
/// wrapped in function 175. `None` where reading it cannot be done — a host
/// whose sign cannot be applied, or a reference that does not print.
pub open spec fn chart_reference(archive: Seq<SpecField>, names: &Names) -> Option<(ChartReferenceView, bool)> {
    if !crate::formula::host_is_readable(archive) {
        None
    } else {
        match crate::formula::spec_formula_ast(archive) {
            None => Some(
                (
                    ChartReferenceView {
                        table: None,
                        text: "#FORMULA!"@,
                        parts: Seq::empty(),
                        wrapped: false,
                    },
                    false,
                ),
            ),
            Some(ns) => {
                let (ast, wrapped) = match unwrap_stream(ns) {
                    Some(inner) => (inner, true),
                    None => (ns, false),
                };
                let target = match first_table_uid(ast) {
                    Some(uid) => crate::formula::names::spec_by_uid(names.tables@, uid),
                    None => None,
                };
                let at = Site {
                    names,
                    table: match target {
                        Some(t) => Some(t as usize),
                        None => None,
                    },
                    host: (0i64, 0i64),
                };
                match crate::formula::print::print_run(ast, at, Seq::empty()) {
                    None => None,
                    Some(done) => Some(
                        (
                            ChartReferenceView {
                                table: match target {
                                    Some(t) => Some(names.tables@[t].name@),
                                    None => None,
                                },
                                text: if done.stack.len() == 0 {
                                    "(nothing)"@
                                } else {
                                    comma_joined(done.stack)
                                },
                                parts: done.stack,
                                wrapped,
                            },
                            wrapped,
                        ),
                    ),
                }
            },
        }
    }
}

/// The formulas among a list of values: each one that is a nested message.
pub open spec fn formula_archives(vs: Seq<SpecValue>) -> Seq<Seq<SpecField>>
    decreases vs.len(),
{
    if vs.len() == 0 {
        Seq::empty()
    } else {
        let rest = formula_archives(vs.drop_last());
        match vs.last() {
            SpecValue::Bytes(b) => match nested_of(b) {
                Some(m) => rest.push(m),
                None => rest,
            },
            _ => rest,
        }
    }
}

/// Every formula of a list read, in order, with how many were wrapped in
/// function 175 and how many were not; `None` where one cannot be read.
pub open spec fn chart_references(archives: Seq<Seq<SpecField>>, names: &Names) -> Option<(Seq<ChartReferenceView>, nat, nat)>
    decreases archives.len(),
{
    if archives.len() == 0 {
        Some((Seq::empty(), 0, 0))
    } else {
        match chart_references(archives.drop_last(), names) {
            None => None,
            Some((refs, wrapped, unwrapped)) => match chart_reference(archives.last(), names) {
                None => None,
                Some((r, w)) => Some(
                    (
                        refs.push(r),
                        if w {
                            wrapped + 1
                        } else {
                            wrapped
                        },
                        if w {
                            unwrapped
                        } else {
                            unwrapped + 1
                        },
                    ),
                ),
            },
        }
    }
}

/// The formula storage of a Numbers mediator (field 3), when it has one.
pub open spec fn mediator_storage(archive: Seq<SpecField>) -> Option<Seq<SpecField>> {
    crate::formula::nested_field(archive, 3)
}

/// Whether a mediator's formulas can all be read: the data (1), row label (3)
/// and column label (4) lists of its storage.
pub open spec fn mediator_readable(archive: Seq<SpecField>, names: &Names) -> bool {
    match mediator_storage(archive) {
        Some(storage) => {
            &&& chart_references(formula_archives(values_with(storage, 1)), names) is Some
            &&& chart_references(formula_archives(values_with(storage, 3)), names) is Some
            &&& chart_references(formula_archives(values_with(storage, 4)), names) is Some
        },
        None => true,
    }
}

/// Whether `data_references` can be asked of this mediator.
pub open spec fn references_readable(
    mediator: u64,
    objects: Map<u64, (u32, Message)>,
    names: &Names,
) -> bool {
    objects.contains_key(mediator) && objects[mediator].0 == TYPE_TN_CHART_MEDIATOR ==> mediator_readable(
        objects[mediator].1@,
        names,
    )
}

#[verifier::spinoff_prover]
fn read_reference(archive: &Message, names: &Names) -> (r: (ChartReference, bool))
    requires
        chart_reference(archive@, names) is Some,
    ensures
        reference_view(r.0) == chart_reference(archive@, names).unwrap().0,
        r.1 == chart_reference(archive@, names).unwrap().1,
{
    let formula = match Formula::decode(archive) {
        Some(f) => f,
        None => {
            let r = ChartReference {
                table: None,
                text: to_string(&chars_of("#FORMULA!")),
                parts: Vec::new(),
                wrapped: false,
            };
            assert(r.parts@.map_values(|p: String| p@) =~= Seq::empty());
            return (r, false);
        },
    };
    let (ast, wrapped) = match unwrap_175(&formula) {
        Some(inner) => (inner, true),
        None => (
            Ast { nodes: copy_nodes(&formula.ast.nodes) },
            false,
        ),
    };
    assert(ast@ == (match unwrap_stream(formula.ast@) {
        Some(inner) => inner,
        None => formula.ast@,
    }));
    let uid = first_uid(&ast.nodes);
    let target = match uid {
        Some(u) => names.by_uid(u),
        None => None,
    };
    let at = Site::new(names, target, (0, 0));
    let parts = ast.texts(at);
    let ghost stack = crate::formula::print::print_run(ast@, at, Seq::empty()).unwrap().stack;
    let text = if parts.len() == 0 {
        to_string(&chars_of("(nothing)"))
    } else {
        let mut out: Vec<char> = Vec::new();
        let mut i: usize = 0;
        while i < parts.len()
            invariant
                i <= parts@.len(),
                parts@.len() == stack.len(),
                forall|k: int| 0 <= k < parts@.len() ==> #[trigger] parts@[k]@ == stack[k],
                out@ == comma_joined(stack.take(i as int)),
            decreases parts@.len() - i,
        {
            assert(stack.take(i + 1).drop_last() =~= stack.take(i as int));
            if i > 0 {
                out.push(',');
                out.push(' ');
            }
            push_str(&mut out, parts[i].as_str());
            assert(out@ =~= comma_joined(stack.take(i + 1)));
            i = i + 1;
        }
        assert(stack.take(parts@.len() as int) =~= stack);
        to_string(&out)
    };
    let table = match target {
        Some(t) => Some(names.tables[t].name.clone()),
        None => None,
    };
    let r = ChartReference { table, text, parts, wrapped };
    assert(r.parts@.map_values(|p: String| p@) =~= stack);
    (r, wrapped)
}

fn copy_nodes(nodes: &Vec<Node>) -> (r: Vec<Node>)
    ensures
        r@.len() == nodes@.len(),
        forall|i: int| 0 <= i < r@.len() ==> #[trigger] r@[i]@ == nodes@[i]@,
{
    let mut out: Vec<Node> = Vec::new();
    let mut i: usize = 0;
    while i < nodes.len()
        invariant
            i <= nodes@.len(),
            out@.len() == i,
            forall|k: int| 0 <= k < i ==> #[trigger] out@[k]@ == nodes@[k]@,
        decreases nodes@.len() - i,
    {
        out.push(copy_node(&nodes[i]));
        i = i + 1;
    }
    out
}

fn first_uid(nodes: &Vec<Node>) -> (r: Option<crate::formula::Uuid>)
    ensures
        r == first_table_uid(nodes@.map_values(|n: Node| n@)),
{
    let ghost ns = nodes@.map_values(|n: Node| n@);
    let mut i: usize = 0;
    assert(ns.skip(0) =~= ns);
    while i < nodes.len()
        invariant
            i <= nodes@.len(),
            ns == nodes@.map_values(|n: Node| n@),
            first_table_uid(ns) == first_table_uid(ns.skip(i as int)),
        decreases nodes@.len() - i,
    {
        let ghost rest = ns.skip(i as int);
        assert(rest[0] == nodes@[i as int]@);
        assert(rest.drop_first() =~= ns.skip(i + 1));
        match nodes[i].reference() {
            Some(r) => match r.table {
                Some(uid) => return Some(uid),
                None => {},
            },
            None => {},
        }
        i = i + 1;
    }
    assert(ns.skip(i as int) =~= Seq::<crate::formula::NodeView>::empty());
    None
}

/// Every formula of the list a storage keeps at `number`, read.
fn read_references(storage: &Message, number: u32, names: &Names) -> (r: (Vec<ChartReference>, usize, usize))
    requires
        chart_references(formula_archives(values_with(storage@, number)), names) is Some,
    ensures
        ({
            let (refs, wrapped, unwrapped) = chart_references(
                formula_archives(values_with(storage@, number)),
                names,
            ).unwrap();
            &&& r.0@.len() == refs.len()
            &&& forall|i: int| 0 <= i < refs.len() ==> #[trigger] reference_view(r.0@[i]) == refs[i]
            &&& r.1 == wrapped
            &&& r.2 == unwrapped
        }),
{
    let values = storage.all(number);
    let ghost vs = values_with(storage@, number);
    let mut archives: Vec<Message> = Vec::new();
    let mut i: usize = 0;
    while i < values.len()
        invariant
            i <= values@.len(),
            values@.len() == vs.len(),
            forall|k: int| 0 <= k < values@.len() ==> values@[k]@ == vs[k],
            archives@.len() == formula_archives(vs.take(i as int)).len(),
            forall|k: int|
                0 <= k < archives@.len() ==> #[trigger] archives@[k]@ == formula_archives(
                    vs.take(i as int),
                )[k],
        decreases values@.len() - i,
    {
        assert(vs.take(i + 1).drop_last() =~= vs.take(i as int));
        assert(vs.take(i + 1).last() == values@[i as int]@);
        match values[i] {
            Value::Bytes(b) => match decode_nested(b.as_slice()) {
                Some(m) => archives.push(m),
                None => {},
            },
            _ => {},
        }
        i = i + 1;
    }
    assert(vs.take(values@.len() as int) =~= vs);
    let ghost all = formula_archives(vs);
    let mut refs: Vec<ChartReference> = Vec::new();
    let mut wrapped: usize = 0;
    let mut unwrapped: usize = 0;
    let mut j: usize = 0;
    proof {
        assert(all.take(all.len() as int) =~= all);
        lemma_references_prefix(all, names, all.len() as int);
    }
    while j < archives.len()
        invariant
            j <= archives@.len(),
            archives@.len() == all.len(),
            forall|k: int| 0 <= k < archives@.len() ==> #[trigger] archives@[k]@ == all[k],
            chart_references(all, names) is Some,
            forall|k: int|
                0 <= k <= all.len() ==> #[trigger] chart_references(all.take(k), names) is Some,
            chart_references(all.take(j as int), names) == Some(
                (refs@.map_values(|c: ChartReference| reference_view(c)), wrapped as nat, unwrapped as nat),
            ),
            wrapped + unwrapped == j,
        decreases archives@.len() - j,
    {
        assert(all.take(j + 1).drop_last() =~= all.take(j as int));
        assert(all.take(j + 1).last() == archives@[j as int]@);
        assert(chart_references(all.take(j + 1), names) is Some);
        let (r, w) = read_reference(&archives[j], names);
        let ghost before = refs@.map_values(|c: ChartReference| reference_view(c));
        refs.push(r);
        assert(refs@.map_values(|c: ChartReference| reference_view(c)) =~= before.push(
            reference_view(r),
        ));
        if w {
            wrapped = wrapped + 1;
        } else {
            unwrapped = unwrapped + 1;
        }
        j = j + 1;
    }
    assert(all.take(archives@.len() as int) =~= all);
    (refs, wrapped, unwrapped)
}

proof fn lemma_references_prefix(all: Seq<Seq<SpecField>>, names: &Names, n: int)
    requires
        0 <= n <= all.len(),
        chart_references(all.take(n), names) is Some,
    ensures
        forall|k: int| 0 <= k <= n ==> #[trigger] chart_references(all.take(k), names) is Some,
    decreases n,
{
    if n > 0 {
        assert(all.take(n).drop_last() =~= all.take(n - 1));
        lemma_references_prefix(all, names, n - 1);
        assert forall|k: int| 0 <= k <= n implies #[trigger] chart_references(all.take(k), names) is Some by {
            if k == n {
            }
        }
    }
}

/// What the formula storage of a mediator says: the direction, the three
/// lists of references, the error-bar formulas and the two counts — nothing
/// at all where there is no storage.
pub open spec fn storage_holds(r: DataReferences, storage: Option<Seq<SpecField>>, names: &Names) -> bool {
    match storage {
        None => {
            &&& r.direction is None
            &&& r.data@.len() == 0
            &&& r.row_labels@.len() == 0
            &&& r.column_labels@.len() == 0
            &&& r.error_formulas == 0
            &&& r.wrapped_in_175 == 0
            &&& r.unwrapped == 0
        },
        Some(storage) => {
            let (data, dw, du) = chart_references(formula_archives(values_with(storage, 1)), names).unwrap();
            let (rows, rw, ru) = chart_references(formula_archives(values_with(storage, 3)), names).unwrap();
            let (columns, cw, cu) = chart_references(formula_archives(values_with(storage, 4)), names).unwrap();
            &&& r.direction == match varint_field(storage, 5) {
                Some(v) => Some(v as i64),
                None => None,
            }
            &&& r.data@.map_values(|c: ChartReference| reference_view(c)) == data
            &&& r.row_labels@.map_values(|c: ChartReference| reference_view(c)) == rows
            &&& r.column_labels@.map_values(|c: ChartReference| reference_view(c)) == columns
            &&& r.error_formulas == values_with(storage, 6).len() + values_with(storage, 7).len()
                + values_with(storage, 8).len() + values_with(storage, 9).len()
            &&& r.wrapped_in_175 == dw + rw + cw
            &&& r.unwrapped == du + ru + cu
        },
    }
}

/// What a mediator of this type says about the tables that feed the chart,
/// field by field. The base class is field 1 of the Numbers subclass and the
/// whole message of the plain one; only the Numbers mediator has an entity,
/// a series orientation and a formula storage.
pub open spec fn references_hold(r: DataReferences, mediator: u64, message_type: u32, archive: Seq<SpecField>, names: &Names) -> bool {
    let numbers = message_type == TYPE_TN_CHART_MEDIATOR;
    let base = if numbers {
        match crate::formula::nested_field(archive, 1) {
            Some(b) => b,
            None => archive,
        }
    } else {
        archive
    };
    &&& r.mediator == mediator
    &&& r.local_series_indexes@ == spec_packed_varints(values_with(base, 2))
    &&& r.remote_series_indexes@ == spec_packed_varints(values_with(base, 3))
    &&& match r.entity_id {
        Some(e) => numbers && crate::formula::text_field(archive, 2) == Some(e@),
        None => !numbers || crate::formula::text_field(archive, 2) is None,
    }
    &&& r.columns_are_series == (if numbers {
        match varint_field(archive, 4) {
            Some(v) => Some(v != 0),
            None => None,
        }
    } else {
        None
    })
    &&& storage_holds(
        r,
        if numbers {
            mediator_storage(archive)
        } else {
            None
        },
        names,
    )
}

/// Fills in what a formula storage says.
#[verifier::rlimit(30)]
fn read_storage(out: &mut DataReferences, storage: &Message, names: &Names)
    requires
        old(out).direction is None,
        chart_references(formula_archives(values_with(storage@, 1)), names) is Some,
        chart_references(formula_archives(values_with(storage@, 3)), names) is Some,
        chart_references(formula_archives(values_with(storage@, 4)), names) is Some,
    ensures
        storage_holds(*final(out), Some(storage@), names),
        final(out).mediator == old(out).mediator,
        final(out).local_series_indexes == old(out).local_series_indexes,
        final(out).remote_series_indexes == old(out).remote_series_indexes,
        final(out).entity_id == old(out).entity_id,
        final(out).columns_are_series == old(out).columns_are_series,
{
    out.direction = match storage.varint(5) {
        Some(v) => Some(v as i64),
        None => None,
    };
    let (data, dw, du) = read_references(storage, 1, names);
    let (rows, rw, ru) = read_references(storage, 3, names);
    let (columns, cw, cu) = read_references(storage, 4, names);
    assert(data@.map_values(|c: ChartReference| reference_view(c)) =~= chart_references(
        formula_archives(values_with(storage@, 1)),
        names,
    ).unwrap().0);
    assert(rows@.map_values(|c: ChartReference| reference_view(c)) =~= chart_references(
        formula_archives(values_with(storage@, 3)),
        names,
    ).unwrap().0);
    assert(columns@.map_values(|c: ChartReference| reference_view(c)) =~= chart_references(
        formula_archives(values_with(storage@, 4)),
        names,
    ).unwrap().0);
    out.data = data;
    out.row_labels = rows;
    out.column_labels = columns;
    let _ = storage.fields.len();
    let e6 = storage.all(6).len();
    let e7 = storage.all(7).len();
    let e8 = storage.all(8).len();
    let e9 = storage.all(9).len();
    proof {
        assert(storage@.len() == storage.fields@.len());
        lemma_values_disjoint(storage@);
        lemma_counts_bounded(formula_archives(values_with(storage@, 1)), names);
        lemma_counts_bounded(formula_archives(values_with(storage@, 3)), names);
        lemma_counts_bounded(formula_archives(values_with(storage@, 4)), names);
        lemma_archives_bounded(values_with(storage@, 1));
        lemma_archives_bounded(values_with(storage@, 3));
        lemma_archives_bounded(values_with(storage@, 4));
        lemma_values_disjoint_labels(storage@);
    }
    out.error_formulas = e6 + e7 + e8 + e9;
    out.wrapped_in_175 = dw + rw + cw;
    out.unwrapped = du + ru + cu;
}

/// A chart's binding to the tables that feed it, read from its mediator.
///
/// Each formula is printed against the table it reaches, so that a reference
/// inside that table reads `A2:A10` rather than naming the table on both
/// sides of the colon, and one operand is printed per value function 175 was
/// given.
pub fn data_references(
    mediator: u64,
    objects: &std::collections::BTreeMap<u64, (u32, Message)>,
    names: &Names,
) -> (r: Option<DataReferences>)
    requires
        references_readable(mediator, objects@, names),
    ensures
        match r {
            Some(refs) => {
                &&& objects@.contains_key(mediator)
                &&& (objects@[mediator].0 == TYPE_TN_CHART_MEDIATOR || objects@[mediator].0
                    == TYPE_CHART_MEDIATOR)
                &&& references_hold(refs, mediator, objects@[mediator].0, objects@[mediator].1@, names)
            },
            None => !objects@.contains_key(mediator) || (objects@[mediator].0
                != TYPE_TN_CHART_MEDIATOR && objects@[mediator].0 != TYPE_CHART_MEDIATOR),
        },
{
    let (message_type, archive) = match objects.get(&mediator) {
        Some(entry) => (entry.0, &entry.1),
        None => return None,
    };
    if message_type != TYPE_TN_CHART_MEDIATOR && message_type != TYPE_CHART_MEDIATOR {
        return None;
    }
    let numbers = message_type == TYPE_TN_CHART_MEDIATOR;
    let nested_base = if numbers {
        crate::formula::nested(archive, 1)
    } else {
        None
    };
    let base = match nested_base {
        Some(b) => b,
        None => archive.duplicate(),
    };
    let mut out = DataReferences::default();
    out.mediator = mediator;
    out.local_series_indexes = packed_varints(&base, 2);
    out.remote_series_indexes = packed_varints(&base, 3);
    if !numbers {
        return Some(out);
    }
    out.entity_id = match archive.get(2) {
        Some(Value::Bytes(bytes)) => Some(crate::chars::lossy_string(bytes.as_slice())),
        _ => None,
    };
    out.columns_are_series = match archive.varint(4) {
        Some(v) => Some(v != 0),
        None => None,
    };
    match crate::formula::nested(archive, 3) {
        Some(storage) => read_storage(&mut out, &storage, names),
        None => {},
    }
    Some(out)
}

/// A field list has at most as many values of one number as it has fields.
proof fn lemma_values_bounded(fs: Seq<SpecField>, number: u32)
    ensures
        values_with(fs, number).len() <= fs.len(),
    decreases fs.len(),
{
    if fs.len() > 0 {
        lemma_values_bounded(fs.drop_last(), number);
    }
}

/// The values of four different numbers are never more than the fields.
proof fn lemma_values_disjoint(fs: Seq<SpecField>)
    ensures
        values_with(fs, 6).len() + values_with(fs, 7).len() + values_with(fs, 8).len()
            + values_with(fs, 9).len() <= fs.len(),
    decreases fs.len(),
{
    if fs.len() > 0 {
        lemma_values_disjoint(fs.drop_last());
    }
}

proof fn lemma_values_disjoint_labels(fs: Seq<SpecField>)
    ensures
        values_with(fs, 1).len() + values_with(fs, 3).len() + values_with(fs, 4).len() <= fs.len(),
    decreases fs.len(),
{
    if fs.len() > 0 {
        lemma_values_disjoint_labels(fs.drop_last());
    }
}

proof fn lemma_archives_bounded(vs: Seq<SpecValue>)
    ensures
        formula_archives(vs).len() <= vs.len(),
    decreases vs.len(),
{
    if vs.len() > 0 {
        lemma_archives_bounded(vs.drop_last());
    }
}

proof fn lemma_counts_bounded(archives: Seq<Seq<SpecField>>, names: &Names)
    ensures
        chart_references(archives, names) matches Some((refs, w, u)) ==> w + u == archives.len()
            && refs.len() == archives.len(),
    decreases archives.len(),
{
    if archives.len() > 0 {
        lemma_counts_bounded(archives.drop_last(), names);
    }
}

// -- laws ------------------------------------------------------------------------------

/// **Each table is named once.** The tables a chart's references reach are
/// reported without repetition.
pub proof fn law_tables_are_distinct(refs: Seq<ChartReference>)
    ensures
        forall|i: int, j: int|
            0 <= i < j < distinct_tables(refs).len() ==> distinct_tables(refs)[i]
                != distinct_tables(refs)[j],
    decreases refs.len(),
{
    if refs.len() > 0 {
        law_tables_are_distinct(refs.drop_last());
        let seen = distinct_tables(refs.drop_last());
        match refs.last().table {
            Some(t) => {
                if !seen.contains(t@) {
                    let all = seen.push(t@);
                    assert forall|i: int, j: int| 0 <= i < j < all.len() implies all[i] != all[j] by {
                        if j == all.len() - 1 {
                            assert(all[i] == seen[i]);
                            if all[i] == all[j] {
                                assert(seen.contains(t@));
                            }
                        } else {
                            assert(all[i] == seen[i] && all[j] == seen[j]);
                        }
                    }
                }
            },
            None => {},
        }
    }
}

/// **A reference to every table that feeds the chart.** Every table a
/// reference reaches is among the chart's tables.
pub proof fn law_every_table_is_reported(refs: Seq<ChartReference>, k: int)
    requires
        0 <= k < refs.len(),
        refs[k].table is Some,
    ensures
        distinct_tables(refs).contains(refs[k].table.unwrap()@),
    decreases refs.len(),
{
    let seen = distinct_tables(refs.drop_last());
    if k < refs.len() - 1 {
        law_every_table_is_reported(refs.drop_last(), k);
        assert(refs.drop_last()[k] == refs[k]);
        let t = refs[k].table.unwrap()@;
        let w = choose|w: int| 0 <= w < seen.len() && seen[w] == t;
        match refs.last().table {
            Some(u) => {
                if !seen.contains(u@) {
                    assert(seen.push(u@)[w] == t);
                }
            },
            None => {},
        }
    } else {
        let t = refs[k].table.unwrap()@;
        if !seen.contains(t) {
            assert(seen.push(t)[seen.len() as int] == t);
        }
    }
}

/// **A reference wrapped in function 175 is read through it.** When the last
/// node of a mediator's formula is a call of function 175 — the form every
/// chart mediator writes — the reference counts as wrapped, and its parts are
/// the texts the formula's other nodes print, read against the table the
/// first of them names: the call itself, which has no published name, is not
/// printed.
pub proof fn law_function_175_is_read_through(
    archive: Seq<SpecField>,
    names: &Names,
    ns: Seq<crate::formula::NodeView>,
)
    requires
        crate::formula::spec_formula_ast(archive) == Some(ns),
        ns.len() > 0,
        crate::pb::varint_field(ns.last().1, 2) == Some(175u64),
        chart_reference(archive, names) is Some,
    ensures
        ({
            let (view, wrapped) = chart_reference(archive, names).unwrap();
            let inner = ns.drop_last();
            let target = match first_table_uid(inner) {
                Some(uid) => crate::formula::names::spec_by_uid(names.tables@, uid),
                None => None,
            };
            let at = Site {
                names,
                table: match target {
                    Some(t) => Some(t as usize),
                    None => None,
                },
                host: (0i64, 0i64),
            };
            &&& wrapped
            &&& view.wrapped
            &&& crate::formula::print::print_run(inner, at, Seq::empty()) matches Some(done)
            &&& view.parts == done.stack
        }),
{
    assert(crate::formula::spec_function(ns.last().1) == Some((175u32, crate::formula::varint_or(ns.last().1, 3, 0) as u32)));
    assert(unwrap_stream(ns) == Some(ns.drop_last()));
}

} // verus!
