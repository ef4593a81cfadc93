//! `TSCE` — the calculation engine: formulas, their ASTs and their text.
//!
//! A cell does not hold a formula; it holds a **key** into its table's FORMULA
//! `TST.TableDataList`, and the entry there is a `TSCE.FormulaArchive` whose
//! only required field is an `ASTNodeArrayArchive` — a post-order (RPN) stream
//! of nodes. Evaluating that stream onto a stack, with operators popping their
//! operands, reconstructs the expression the user typed.
//!
//! * **A formula archive stored in a data list carries no host cell.**
//!   Relative references therefore resolve against *the cell holding the key*,
//!   which is why one entry can be shared by many cells.
//! * **A reference is not stored as text.** It is a column/row pair of signed
//!   offsets (or absolute indices) plus, for anything outside the host table, a
//!   UUID. Table names never appear in the file, which is why renaming a table
//!   does not touch a single formula.
//!
//! Everything below works at the wire level: a node is kept as its protobuf
//! message, validated field by field against the 15.3.1 schema, and read
//! through typed accessors. Re-encoding a decoded node gives back the message
//! it was decoded from.

pub mod names;
pub mod number;
pub mod print;
pub mod node;

use vstd::prelude::*;

use crate::chars::{decimal, lossy_string, push_decimal, push_str, to_string, utf8_lossy};
use crate::pb::{
    bytes_field, decode_nested, field_bytes, fields_bytes, first_with,
    lemma_field_bytes_size, lemma_fields_bytes_last, lemma_fields_of_size, lemma_varint_nonempty,
    fields_are_encodable, fields_of, lemma_message_roundtrip,
    nested_of, tag_of, values_with, varint_field, wire_type, Field, Message, SpecField, SpecValue,
    Value,
};

verus! {

// -- identities --------------------------------------------------------------

/// `TSP.UUID` — a 128-bit identity split into two 64-bit halves.
#[derive(Debug, Clone, Copy, PartialEq, Eq, Default, Structural)]
pub struct Uuid {
    pub lower: u64,
    pub upper: u64,
}

/// A `TSP.UUID` message: `{1: lower, 2: upper}`.
pub open spec fn spec_uuid(fs: Seq<SpecField>) -> Uuid {
    Uuid {
        lower: match varint_field(fs, 1) {
            Some(v) => v,
            None => 0,
        },
        upper: match varint_field(fs, 2) {
            Some(v) => v,
            None => 0,
        },
    }
}

impl Uuid {
    pub fn decode(message: &Message) -> (r: Uuid)
        ensures
            r == spec_uuid(message@),
    {
        Uuid {
            lower: match message.varint(1) {
                Some(v) => v,
                None => 0,
            },
            upper: match message.varint(2) {
                Some(v) => v,
                None => 0,
            },
        }
    }
}

/// The nested message at a field, when the field is one.
pub open spec fn nested_field(fs: Seq<SpecField>, number: u32) -> Option<Seq<SpecField>> {
    match bytes_field(fs, number) {
        Some(b) => nested_of(b),
        None => None,
    }
}

pub fn nested(message: &Message, number: u32) -> (r: Option<Message>)
    ensures
        match nested_field(message@, number) {
            Some(fs) => r matches Some(m) && m@ == fs,
            None => r is None,
        },
{
    match message.bytes(number) {
        Some(b) => decode_nested(b),
        None => None,
    }
}

/// A `TSP.CFUUIDArchive` as a `TSP.UUID`: four 32-bit words at fields 2–5,
/// `lower = w0 | w1 << 32` and `upper = w2 | w3 << 32`.
pub open spec fn spec_uuid_from_cfuuid(fs: Seq<SpecField>) -> Option<Uuid> {
    match (varint_field(fs, 2), varint_field(fs, 3), varint_field(fs, 4), varint_field(fs, 5)) {
        (Some(a), Some(b), Some(c), Some(d)) => Some(
            Uuid {
                lower: ((a as u32) + (b as u32) * 0x1_0000_0000) as u64,
                upper: ((c as u32) + (d as u32) * 0x1_0000_0000) as u64,
            },
        ),
        _ => None,
    }
}

fn join_words(low: u64, high: u64) -> (r: u64)
    ensures
        r == ((low as u32) + (high as u32) * 0x1_0000_0000) as u64,
{
    let a = low as u32;
    let b = high as u32;
    a as u64 + (b as u64) * 0x1_0000_0000
}

/// A `TSP.CFUUIDArchive` as the `TSP.UUID` the rest of the crate uses.
///
/// The two are the same 128-bit value in different clothes: the CFUUID form —
/// which is the only form an AST uses — splits it into four 32-bit words.
pub fn uuid_from_cfuuid(message: &Message) -> (r: Option<Uuid>)
    ensures
        r == spec_uuid_from_cfuuid(message@),
{
    let a = match message.varint(2) {
        Some(v) => v,
        None => return None,
    };
    let b = match message.varint(3) {
        Some(v) => v,
        None => return None,
    };
    let c = match message.varint(4) {
        Some(v) => v,
        None => return None,
    };
    let d = match message.varint(5) {
        Some(v) => v,
        None => return None,
    };
    Some(Uuid { lower: join_words(a, b), upper: join_words(c, d) })
}


// -- the AST -----------------------------------------------------------------

/// One `ASTNodeArchive`, kept as its message and read through accessors.
///
/// Keeping the wire form is what makes "unknown fields verbatim" free: a node
/// re-encodes to the bytes it came from, whatever this crate does or does not
/// understand about it.
#[derive(Debug, Clone, PartialEq)]
pub struct Node {
    pub kind: u32,
    /// The message, exactly as read.
    pub raw: Message,
}

/// A node as a mathematical object: its type and its fields.
pub type NodeView = (u32, Seq<SpecField>);

impl View for Node {
    type V = NodeView;

    open spec fn view(&self) -> NodeView {
        (self.kind, self.raw@)
    }
}

/// What `Node::decode` makes of a message: a node when field 1 is a varint
/// naming a node type the schema has.
pub open spec fn spec_node(fs: Seq<SpecField>) -> Option<NodeView> {
    match varint_field(fs, 1) {
        Some(k) => if node::spec_is_known(k as u32) {
            Some((k as u32, fs))
        } else {
            None
        },
        None => None,
    }
}

/// The value of a varint field, or a default when it is absent.
pub open spec fn varint_or(fs: Seq<SpecField>, number: u32, default: u64) -> u64 {
    match varint_field(fs, number) {
        Some(v) => v,
        None => default,
    }
}

/// The text of a length-delimited field, read the way `from_utf8_lossy` reads
/// it.
pub open spec fn text_field(fs: Seq<SpecField>, number: u32) -> Option<Seq<char>> {
    match bytes_field(fs, number) {
        Some(b) => Some(utf8_lossy(b)),
        None => None,
    }
}

/// The texts of every length-delimited value among `vs`, in order.
pub open spec fn lossy_texts(vs: Seq<SpecValue>) -> Seq<Seq<char>>
    decreases vs.len(),
{
    if vs.len() == 0 {
        Seq::empty()
    } else {
        match vs.last() {
            SpecValue::Bytes(b) => lossy_texts(vs.drop_last()).push(utf8_lossy(b)),
            _ => lossy_texts(vs.drop_last()),
        }
    }
}

pub open spec fn spec_function(fs: Seq<SpecField>) -> Option<(u32, u32)> {
    match varint_field(fs, 2) {
        Some(i) => Some((i as u32, varint_or(fs, 3, 0) as u32)),
        None => None,
    }
}

pub open spec fn spec_boolean(fs: Seq<SpecField>, number: u32) -> Option<bool> {
    match varint_field(fs, number) {
        Some(v) => Some(v != 0),
        None => None,
    }
}

pub open spec fn spec_unknown_function(fs: Seq<SpecField>) -> Option<(Seq<char>, u32)> {
    match text_field(fs, 17) {
        Some(t) => Some((t, varint_or(fs, 18, 0) as u32)),
        None => None,
    }
}

pub open spec fn spec_let_binding(fs: Seq<SpecField>) -> Option<(Seq<char>, bool)> {
    match text_field(fs, 34) {
        Some(t) => Some((t, varint_or(fs, 36, 0) != 0)),
        None => None,
    }
}

pub open spec fn spec_symbol(fs: Seq<SpecField>) -> Option<u32> {
    match varint_field(fs, 37) {
        Some(v) => Some(v as u32),
        None => None,
    }
}

pub open spec fn spec_lambda_idents(fs: Seq<SpecField>) -> Option<(Seq<Seq<char>>, u32)> {
    match nested_field(fs, 45) {
        Some(idents) => Some((lossy_texts(values_with(idents, 1)), varint_or(idents, 2, 0) as u32)),
        None => None,
    }
}

/// How many operands a node of this type takes off the stack, and how many it
/// puts back.
pub open spec fn spec_stack_effect(kind: u32, fs: Seq<SpecField>) -> (int, int) {
    if (1 <= kind <= 12) || kind == 29 || kind == 69 {
        (2, 1)
    } else if kind == 13 || kind == 14 || kind == 15 || kind == 70 || kind == 32 || kind == 33
        || kind == 54 || kind == 55 {
        (1, 1)
    } else if kind == 52 {
        (1, 0)
    } else if kind == 16 {
        ((varint_or(fs, 3, 0) as usize) as int, 1)
    } else if kind == 31 {
        ((varint_or(fs, 18, 0) as usize) as int, 1)
    } else if kind == 25 {
        ((varint_or(fs, 13, 0) as usize) as int, 1)
    } else if kind == 24 {
        ((varint_or(fs, 11, 1) as usize) * (varint_or(fs, 12, 1) as usize), 1)
    } else if kind == 34 || kind == 35 || kind == 56 || kind == 57 {
        (0, 0)
    } else {
        (0, 1)
    }
}

impl Node {
    /// A node, when field 1 names a node type the schema has.
    pub fn decode(message: Message) -> (r: Option<Node>)
        ensures
            match spec_node(message@) {
                Some(v) => r matches Some(n) && n@ == v && n.kind == v.0,
                None => r is None,
            },
    {
        let kind = match message.varint(1) {
            Some(k) => k as u32,
            None => return None,
        };
        if node::is_known(kind) {
            Some(Node { kind, raw: message })
        } else {
            None
        }
    }

    pub fn message(&self) -> (r: &Message)
        ensures
            r@ == self@.1,
    {
        &self.raw
    }

    /// The node's wire form.
    pub fn encode(&self) -> (r: Vec<u8>)
        ensures
            r@ == fields_bytes(self@.1),
    {
        self.raw.encode()
    }

    /// Function index (field 2) and argument count (field 3).
    pub fn function(&self) -> (r: Option<(u32, u32)>)
        ensures
            r == spec_function(self@.1),
    {
        let index = match self.raw.varint(2) {
            Some(v) => v as u32,
            None => return None,
        };
        let arity = match self.raw.varint(3) {
            Some(v) => v as u32,
            None => 0,
        };
        Some((index, arity))
    }

    pub fn boolean(&self) -> (r: Option<bool>)
        ensures
            r == spec_boolean(self@.1, 5),
    {
        match self.raw.varint(5) {
            Some(v) => Some(v != 0),
            None => None,
        }
    }

    /// `TOKEN_NODE`'s boolean, which lives at field 10 and not field 5.
    pub fn token_boolean(&self) -> (r: Option<bool>)
        ensures
            r == spec_boolean(self@.1, 10),
    {
        match self.raw.varint(10) {
            Some(v) => Some(v != 0),
            None => None,
        }
    }

    fn text_at(&self, number: u32) -> (r: Option<String>)
        ensures
            match text_field(self@.1, number) {
                Some(t) => r matches Some(s) && s@ == t,
                None => r is None,
            },
    {
        match self.raw.bytes(number) {
            Some(b) => Some(lossy_string(b)),
            None => None,
        }
    }

    /// A string literal, stored **unescaped** — a `"` inside it is one
    /// character here and two in the formula text.
    pub fn string(&self) -> (r: Option<String>)
        ensures
            match text_field(self@.1, 6) {
                Some(t) => r matches Some(s) && s@ == t,
                None => r is None,
            },
    {
        self.text_at(6)
    }

    /// `ARRAY_NODE`'s shape: columns then rows, one each when absent.
    pub fn array_shape(&self) -> (r: Option<(u32, u32)>)
        ensures
            r == Some(((varint_or(self@.1, 11, 1) as u32), (varint_or(self@.1, 12, 1) as u32))),
    {
        let columns = match self.raw.varint(11) {
            Some(v) => v as u32,
            None => 1,
        };
        let rows = match self.raw.varint(12) {
            Some(v) => v as u32,
            None => 1,
        };
        Some((columns, rows))
    }

    pub fn list_args(&self) -> (r: Option<u32>)
        ensures
            r == (match varint_field(self@.1, 13) {
                Some(v) => Some(v as u32),
                None => None,
            }),
    {
        match self.raw.varint(13) {
            Some(v) => Some(v as u32),
            None => None,
        }
    }

    /// An unrecognised function's name (field 17) and arity (field 18) — what
    /// the app writes so a formula it cannot resolve survives a round trip.
    pub fn unknown_function(&self) -> (r: Option<(String, u32)>)
        ensures
            match spec_unknown_function(self@.1) {
                Some((t, a)) => r matches Some((s, b)) && s@ == t && b == a,
                None => r is None,
            },
    {
        let name = match self.text_at(17) {
            Some(s) => s,
            None => return None,
        };
        let arity = match self.raw.varint(18) {
            Some(v) => v as u32,
            None => 0,
        };
        Some((name, arity))
    }

    pub fn whitespace(&self) -> (r: Option<String>)
        ensures
            match text_field(self@.1, 25) {
                Some(t) => r matches Some(s) && s@ == t,
                None => r is None,
            },
    {
        self.text_at(25)
    }

    /// `LET_BIND_NODE`'s identifier, and whether it continues the binding list
    /// of the `LET` before it rather than opening a new one.
    pub fn let_binding(&self) -> (r: Option<(String, bool)>)
        ensures
            match spec_let_binding(self@.1) {
                Some((t, c)) => r matches Some((s, d)) && s@ == t && d == c,
                None => r is None,
            },
    {
        let name = match self.text_at(34) {
            Some(s) => s,
            None => return None,
        };
        let continuation = match self.raw.varint(36) {
            Some(v) => v != 0,
            None => false,
        };
        Some((name, continuation))
    }

    /// Symbol-table index of a `VAR_NODE` or a `LET_BIND_NODE`.
    pub fn symbol(&self) -> (r: Option<u32>)
        ensures
            r == spec_symbol(self@.1),
    {
        match self.raw.varint(37) {
            Some(v) => Some(v as u32),
            None => None,
        }
    }

    /// `LAMBDA_NODE`'s parameter names and the symbol index the first one has.
    pub fn lambda_idents(&self) -> (r: Option<(Vec<String>, u32)>)
        ensures
            match spec_lambda_idents(self@.1) {
                Some((names, first)) => r matches Some((v, f)) && f == first && v@.len()
                    == names.len() && forall|i: int| 0 <= i < v@.len() ==> v@[i]@ == names[i],
                None => r is None,
            },
    {
        let idents = match nested(&self.raw, 45) {
            Some(m) => m,
            None => return None,
        };
        let values = idents.all(1);
        let mut names: Vec<String> = Vec::new();
        let mut i: usize = 0;
        while i < values.len()
            invariant
                i <= values@.len(),
                values@.len() == values_with(idents@, 1).len(),
                forall|k: int| 0 <= k < values@.len() ==> values@[k]@ == values_with(idents@, 1)[k],
                names@.len() == lossy_texts(values_with(idents@, 1).take(i as int)).len(),
                forall|k: int|
                    0 <= k < names@.len() ==> names@[k]@ == lossy_texts(
                        values_with(idents@, 1).take(i as int),
                    )[k],
            decreases values@.len() - i,
        {
            let ghost vs = values_with(idents@, 1);
            assert(vs.take(i + 1).drop_last() =~= vs.take(i as int));
            match values[i] {
                Value::Bytes(b) => {
                    names.push(lossy_string(b.as_slice()));
                },
                _ => {},
            }
            i = i + 1;
        }
        assert(values_with(idents@, 1).take(values@.len() as int) =~= values_with(idents@, 1));
        let first = match idents.varint(2) {
            Some(v) => v as u32,
            None => 0,
        };
        Some((names, first))
    }

    /// Whether the operand count this node takes fits in a machine word. Only
    /// an `ARRAY_NODE` multiplies two stored numbers together, and only one
    /// written to be hostile overflows.
    pub open spec fn stack_effect_fits(&self) -> bool {
        self@.0 == 24 ==> (varint_or(self@.1, 11, 1) as usize) * (varint_or(self@.1, 12, 1) as usize)
            <= usize::MAX
    }

    /// How many operands this node takes off the stack, and how many it puts
    /// back.
    pub fn stack_effect(&self) -> (r: (usize, usize))
        requires
            self.stack_effect_fits(),
        ensures
            (r.0 as int, r.1 as int) == spec_stack_effect(self@.0, self@.1),
    {
        let kind = self.kind;
        if (1 <= kind && kind <= 12) || kind == node::COLON || kind == node::INTERSECTION {
            (2, 1)
        } else if kind == node::NEGATION || kind == node::PLUS_SIGN || kind == node::PERCENT || kind
            == node::SPILL_RANGE || kind == node::APPEND_WHITESPACE || kind
            == node::PREPEND_WHITESPACE || kind == node::END_SCOPE || kind == node::LAMBDA {
            (1, 1)
        } else if kind == node::LET_BIND {
            (1, 0)
        } else if kind == node::FUNCTION {
            (self.varint_usize(3, 0), 1)
        } else if kind == node::UNKNOWN_FUNCTION {
            (self.varint_usize(18, 0), 1)
        } else if kind == node::LIST {
            (self.varint_usize(13, 0), 1)
        } else if kind == node::ARRAY {
            let columns = self.varint_usize(11, 1);
            let rows = self.varint_usize(12, 1);
            (columns * rows, 1)
        } else if kind == node::BEGIN_THUNK || kind == node::END_THUNK || kind
            == node::BEGIN_LAMBDA_THUNK || kind == node::END_LAMBDA_THUNK {
            (0, 0)
        } else {
            (0, 1)
        }
    }

    /// Whether `stack_effect` can be asked.
    pub fn stack_effect_is_computable(&self) -> (r: bool)
        ensures
            r == self.stack_effect_fits(),
    {
        if self.kind != node::ARRAY {
            return true;
        }
        let columns = self.varint_usize(11, 1);
        let rows = self.varint_usize(12, 1);
        columns.checked_mul(rows).is_some()
    }

    fn varint_usize(&self, number: u32, default: u64) -> (r: usize)
        ensures
            r == varint_or(self@.1, number, default) as usize,
    {
        match self.raw.varint(number) {
            Some(v) => v as usize,
            None => default as usize,
        }
    }
}


// -- references --------------------------------------------------------------

/// One axis of a reference: absolute index, offset from the host, or the whole
/// axis.
#[derive(Debug, Clone, Copy, PartialEq, Eq, Structural)]
pub enum Axis {
    Absolute(i64),
    Relative(i64),
    /// The axis is not constrained — a whole-column reference has no row and a
    /// whole-row reference has no column.
    Unbounded,
}

/// Whether resolving the axis against `host` stays within 64 bits.
pub open spec fn axis_fits(axis: Axis, host: i64) -> bool {
    match axis {
        Axis::Relative(offset) => i64::MIN <= host + offset <= i64::MAX,
        _ => true,
    }
}

pub open spec fn spec_resolve(axis: Axis, host: i64) -> Option<i64> {
    match axis {
        Axis::Absolute(index) => Some(index),
        Axis::Relative(offset) => Some((host + offset) as i64),
        Axis::Unbounded => None,
    }
}

impl Axis {
    /// Resolve against the host cell's index on the same axis.
    pub fn resolve(self, host: i64) -> (r: Option<i64>)
        requires
            axis_fits(self, host),
        ensures
            r == spec_resolve(self, host),
    {
        match self {
            Axis::Absolute(index) => Some(index),
            Axis::Relative(offset) => Some(host + offset),
            Axis::Unbounded => None,
        }
    }

    pub fn is_absolute(self) -> (r: bool)
        ensures
            r == (self is Absolute),
    {
        match self {
            Axis::Absolute(_) => true,
            _ => false,
        }
    }

    /// Whether `resolve` can be asked.
    pub fn fits(self, host: i64) -> (r: bool)
        ensures
            r == axis_fits(self, host),
    {
        match self {
            Axis::Relative(offset) => host.checked_add(offset).is_some(),
            _ => true,
        }
    }
}

/// A reference made by one node: a cell, a range, or an unbounded strip.
#[derive(Debug, Clone, Copy, PartialEq, Eq, Structural)]
pub struct Reference {
    pub column: Axis,
    pub row: Axis,
    /// End of a range; equal to the start for a single cell.
    pub column_end: Axis,
    pub row_end: Axis,
    /// The table's `base_owner_uid`, when the reference leaves its own table.
    pub table: Option<Uuid>,
    /// A range rather than a single cell — which is what decides whether the
    /// app prints header names or A1 notation.
    pub is_range: bool,
    /// Both axes saturated: a stored `#REF!`.
    pub is_error: bool,
}

/// A reference with its host applied. `None` on an axis means "the whole
/// column" or "the whole row".
#[derive(Debug, Clone, Copy, PartialEq, Eq, Structural)]
pub struct ResolvedReference {
    pub column: Option<i64>,
    pub row: Option<i64>,
    pub column_end: Option<i64>,
    pub row_end: Option<i64>,
}

/// Rows saturate at 31 bits and columns at 15 — the two sentinels differ, and
/// using the row one for a column breaks every whole-row reference.
pub const ROW_MAX: i64 = 0x7fff_ffff;
pub const COLUMN_MAX: i64 = 0x7fff;

pub open spec fn reference_fits(r: Reference, host: (i64, i64)) -> bool {
    &&& axis_fits(r.column, host.0)
    &&& axis_fits(r.row, host.1)
    &&& axis_fits(r.column_end, host.0)
    &&& axis_fits(r.row_end, host.1)
}

pub open spec fn spec_resolve_reference(r: Reference, host: (i64, i64)) -> ResolvedReference {
    ResolvedReference {
        column: spec_resolve(r.column, host.0),
        row: spec_resolve(r.row, host.1),
        column_end: spec_resolve(r.column_end, host.0),
        row_end: spec_resolve(r.row_end, host.1),
    }
}

/// The signed value of a zigzag-encoded varint: even numbers are the
/// non-negative values, odd ones the negative.
pub open spec fn spec_unzigzag(value: u64) -> i64 {
    if value % 2 == 0 {
        (value / 2) as i64
    } else {
        (-((value / 2) as int) - 1) as i64
    }
}

pub fn unzigzag(value: u64) -> (r: i64)
    ensures
        r == spec_unzigzag(value),
{
    let half = (value / 2) as i64;
    if value % 2 == 0 {
        half
    } else {
        -half - 1
    }
}

/// `ASTColumnCoordinateArchive` / `ASTRowCoordinateArchive`: a **zigzag**
/// index at field 1 and an absolute flag at field 2.
pub open spec fn spec_coordinate(fs: Seq<SpecField>, number: u32) -> Axis {
    match nested_field(fs, number) {
        None => Axis::Unbounded,
        Some(m) => match varint_field(m, 1) {
            None => Axis::Unbounded,
            Some(raw) => if varint_or(m, 2, 0) != 0 {
                Axis::Absolute(spec_unzigzag(raw))
            } else {
                Axis::Relative(spec_unzigzag(raw))
            },
        },
    }
}

fn coordinate(node: &Message, number: u32) -> (r: Axis)
    ensures
        r == spec_coordinate(node@, number),
{
    let message = match nested(node, number) {
        Some(m) => m,
        None => return Axis::Unbounded,
    };
    let raw = match message.varint(1) {
        Some(v) => v,
        None => return Axis::Unbounded,
    };
    let index = unzigzag(raw);
    let absolute = match message.varint(2) {
        Some(v) => v != 0,
        None => false,
    };
    if absolute {
        Axis::Absolute(index)
    } else {
        Axis::Relative(index)
    }
}

/// A varint read as the `int32` it was written as.
pub open spec fn as_int32(v: u64) -> i64 {
    (v as i32) as i64
}

/// `{range_begin, range_end?}` as signed values. An absent end is the
/// beginning again — not zero, and not unbounded.
pub open spec fn spec_range(tract: Seq<SpecField>, number: u32) -> Option<(i64, i64)> {
    match first_with(tract, number) {
        Some(SpecValue::Bytes(b)) => match nested_of(b) {
            Some(entry) => match varint_field(entry, 1) {
                Some(begin) => Some(
                    (
                        as_int32(begin),
                        match varint_field(entry, 2) {
                            Some(end) => as_int32(end),
                            None => as_int32(begin),
                        },
                    ),
                ),
                None => None,
            },
            None => None,
        },
        _ => None,
    }
}

/// One of a colon tract's `{range_begin, range_end?}` lists.
pub fn range(tract: &Message, number: u32) -> (r: Option<(i64, i64)>)
    ensures
        r == spec_range(tract@, number),
{
    let bytes = match tract.get(number) {
        Some(Value::Bytes(b)) => b,
        _ => return None,
    };
    let entry = match decode_nested(bytes.as_slice()) {
        Some(m) => m,
        None => return None,
    };
    let begin = match entry.varint(1) {
        Some(v) => (v as i32) as i64,
        None => return None,
    };
    let end = match entry.varint(2) {
        Some(v) => (v as i32) as i64,
        None => begin,
    };
    Some((begin, end))
}

/// One axis of an `ASTColonTractArchive`: the sticky bits say, for each end,
/// whether to read the relative or the absolute list. An axis with neither is
/// the whole axis.
pub open spec fn spec_tract_axis(
    tract: Seq<SpecField>,
    relative: u32,
    absolute: u32,
    begin_absolute: bool,
    end_absolute: bool,
) -> (Axis, Axis) {
    let relative_range = spec_range(tract, relative);
    let absolute_range = spec_range(tract, absolute);
    let begin = if begin_absolute {
        match absolute_range {
            Some((b, _)) => Axis::Absolute(b),
            None => Axis::Unbounded,
        }
    } else {
        match relative_range {
            Some((b, _)) => Axis::Relative(b),
            None => Axis::Unbounded,
        }
    };
    let end = if end_absolute {
        match absolute_range {
            Some((_, e)) => Axis::Absolute(e),
            None => Axis::Unbounded,
        }
    } else {
        match relative_range {
            Some((_, e)) => Axis::Relative(e),
            None => Axis::Unbounded,
        }
    };
    (begin, end)
}

fn tract_axis(
    tract: &Message,
    relative: u32,
    absolute: u32,
    begin_absolute: bool,
    end_absolute: bool,
) -> (r: (Axis, Axis))
    ensures
        r == spec_tract_axis(tract@, relative, absolute, begin_absolute, end_absolute),
{
    let relative_range = range(tract, relative);
    let absolute_range = range(tract, absolute);
    let begin = if begin_absolute {
        match absolute_range {
            Some((b, _)) => Axis::Absolute(b),
            None => Axis::Unbounded,
        }
    } else {
        match relative_range {
            Some((b, _)) => Axis::Relative(b),
            None => Axis::Unbounded,
        }
    };
    let end = if end_absolute {
        match absolute_range {
            Some((_, e)) => Axis::Absolute(e),
            None => Axis::Unbounded,
        }
    } else {
        match relative_range {
            Some((_, e)) => Axis::Relative(e),
            None => Axis::Unbounded,
        }
    };
    (begin, end)
}

pub open spec fn saturated(axis: Axis, max: i64) -> bool {
    match axis {
        Axis::Absolute(v) => v == max,
        Axis::Relative(v) => v == max,
        Axis::Unbounded => false,
    }
}

/// The table a reference node leaves its own table for: field 28's
/// `table_id`, a `TSP.CFUUIDArchive`.
pub open spec fn spec_reference_table(fs: Seq<SpecField>) -> Option<Uuid> {
    match nested_field(fs, 28) {
        Some(info) => match nested_field(info, 1) {
            Some(id) => spec_uuid_from_cfuuid(id),
            None => None,
        },
        None => None,
    }
}

/// The reference a node makes: a cell reference, a stored `#REF!` with its
/// coordinates, a UID reference, or a colon tract.
pub open spec fn spec_reference(n: NodeView) -> Option<Reference> {
    let (kind, fs) = n;
    let table = spec_reference_table(fs);
    if kind == node::CELL_REFERENCE || kind == node::REFERENCE_ERROR_WITH_UIDS || kind
        == node::UID_REFERENCE {
        let column = spec_coordinate(fs, 26);
        let row = spec_coordinate(fs, 27);
        if column == Axis::Unbounded && row == Axis::Unbounded {
            None
        } else {
            Some(
                Reference {
                    column,
                    row,
                    column_end: column,
                    row_end: row,
                    table,
                    is_range: false,
                    is_error: kind == node::REFERENCE_ERROR_WITH_UIDS || saturated(
                        column,
                        COLUMN_MAX,
                    ) || saturated(row, ROW_MAX),
                },
            )
        }
    } else if kind == node::COLON_TRACT {
        match nested_field(fs, 40) {
            None => None,
            Some(tract) => {
                let sticky = match nested_field(fs, 33) {
                    Some(m) => m,
                    None => Seq::empty(),
                };
                let (column, column_end) = spec_tract_axis(
                    tract,
                    1,
                    3,
                    varint_or(sticky, 2, 0) != 0,
                    varint_or(sticky, 4, 0) != 0,
                );
                let (row, row_end) = spec_tract_axis(
                    tract,
                    2,
                    4,
                    varint_or(sticky, 1, 0) != 0,
                    varint_or(sticky, 3, 0) != 0,
                );
                Some(
                    Reference {
                        column,
                        row,
                        column_end,
                        row_end,
                        table,
                        is_range: true,
                        is_error: false,
                    },
                )
            },
        }
    } else {
        None
    }
}

fn flag(message: &Message, number: u32) -> (r: bool)
    ensures
        r == (varint_or(message@, number, 0) != 0),
{
    match message.varint(number) {
        Some(v) => v != 0,
        None => false,
    }
}

impl Reference {
    fn of(node: &Node) -> (r: Option<Reference>)
        ensures
            r == spec_reference(node@),
    {
        let table = match nested(&node.raw, 28) {
            Some(info) => match nested(&info, 1) {
                Some(id) => uuid_from_cfuuid(&id),
                None => None,
            },
            None => None,
        };
        let kind = node.kind;
        if kind == node::CELL_REFERENCE || kind == node::REFERENCE_ERROR_WITH_UIDS || kind
            == node::UID_REFERENCE {
            let column = coordinate(&node.raw, 26);
            let row = coordinate(&node.raw, 27);
            let column_unbounded = match column {
                Axis::Unbounded => true,
                _ => false,
            };
            let row_unbounded = match row {
                Axis::Unbounded => true,
                _ => false,
            };
            if column_unbounded && row_unbounded {
                return None;
            }
            let column_saturated = match column {
                Axis::Absolute(v) => v == COLUMN_MAX,
                Axis::Relative(v) => v == COLUMN_MAX,
                Axis::Unbounded => false,
            };
            let row_saturated = match row {
                Axis::Absolute(v) => v == ROW_MAX,
                Axis::Relative(v) => v == ROW_MAX,
                Axis::Unbounded => false,
            };
            let is_error = kind == node::REFERENCE_ERROR_WITH_UIDS || column_saturated
                || row_saturated;
            Some(
                Reference {
                    column,
                    row,
                    column_end: column,
                    row_end: row,
                    table,
                    is_range: false,
                    is_error,
                },
            )
        } else if kind == node::COLON_TRACT {
            let tract = match nested(&node.raw, 40) {
                Some(m) => m,
                None => return None,
            };
            let sticky = match nested(&node.raw, 33) {
                Some(m) => m,
                None => Message::default(),
            };
            let begin_row_absolute = flag(&sticky, 1);
            let begin_column_absolute = flag(&sticky, 2);
            let end_row_absolute = flag(&sticky, 3);
            let end_column_absolute = flag(&sticky, 4);
            let (column, column_end) = tract_axis(
                &tract,
                1,
                3,
                begin_column_absolute,
                end_column_absolute,
            );
            let (row, row_end) = tract_axis(&tract, 2, 4, begin_row_absolute, end_row_absolute);
            Some(
                Reference {
                    column,
                    row,
                    column_end,
                    row_end,
                    table,
                    is_range: true,
                    is_error: false,
                },
            )
        } else {
            None
        }
    }

    /// Resolve to zero-based indices against a host cell, where the reference
    /// is bounded on that axis.
    pub fn resolve(&self, host: (i64, i64)) -> (r: ResolvedReference)
        requires
            reference_fits(*self, host),
        ensures
            r == spec_resolve_reference(*self, host),
    {
        ResolvedReference {
            column: self.column.resolve(host.0),
            row: self.row.resolve(host.1),
            column_end: self.column_end.resolve(host.0),
            row_end: self.row_end.resolve(host.1),
        }
    }

    /// Whether `resolve` can be asked.
    pub fn fits(&self, host: (i64, i64)) -> (r: bool)
        ensures
            r == reference_fits(*self, host),
    {
        self.column.fits(host.0) && self.row.fits(host.1) && self.column_end.fits(host.0)
            && self.row_end.fits(host.1)
    }
}

impl Node {
    /// The reference this node makes, when it makes one.
    pub fn reference(&self) -> (r: Option<Reference>)
        ensures
            r == spec_reference(self@),
    {
        Reference::of(self)
    }
}


// -- node arrays ---------------------------------------------------------------

/// `ASTNodeArrayArchive` — the RPN node stream.
#[derive(Debug, Clone, PartialEq)]
pub struct Ast {
    pub nodes: Vec<Node>,
}

impl View for Ast {
    type V = Seq<NodeView>;

    open spec fn view(&self) -> Seq<NodeView> {
        self.nodes@.map_values(|n: Node| n@)
    }
}

/// One element of a node array: field 1, a nested message, a known node type.
pub open spec fn spec_ast_node(f: SpecField) -> Option<NodeView> {
    if f.number != 1 {
        None
    } else {
        match f.value {
            SpecValue::Bytes(b) => match nested_of(b) {
                Some(m) => spec_node(m),
                None => None,
            },
            _ => None,
        }
    }
}

/// A node array, when every element of it is a node.
pub open spec fn spec_ast(fs: Seq<SpecField>) -> Option<Seq<NodeView>>
    decreases fs.len(),
{
    if fs.len() == 0 {
        Some(Seq::empty())
    } else {
        match spec_ast(fs.drop_last()) {
            Some(ns) => match spec_ast_node(fs.last()) {
                Some(n) => Some(ns.push(n)),
                None => None,
            },
            None => None,
        }
    }
}

/// A node stream as the array message that holds it.
pub open spec fn spec_ast_array(ns: Seq<NodeView>) -> Seq<SpecField> {
    ns.map_values(|n: NodeView| SpecField { number: 1, value: SpecValue::Bytes(fields_bytes(n.1)) })
}

/// Stack depth after the whole stream, or `None` if it ever underflows.
pub open spec fn spec_depth(ns: Seq<NodeView>) -> Option<int>
    decreases ns.len(),
{
    if ns.len() == 0 {
        Some(0)
    } else {
        match spec_depth(ns.drop_last()) {
            Some(d) => {
                let (pops, pushes) = spec_stack_effect(ns.last().0, ns.last().1);
                if d >= pops {
                    Some(d - pops + pushes)
                } else {
                    None
                }
            },
            None => None,
        }
    }
}

/// Once a prefix of the array is not a node array, nothing longer is.
pub proof fn lemma_ast_prefix_none(fs: Seq<SpecField>, k: int)
    requires
        0 <= k <= fs.len(),
        spec_ast(fs.take(k)) is None,
    ensures
        spec_ast(fs) is None,
    decreases fs.len(),
{
    if k == fs.len() {
        assert(fs.take(k) =~= fs);
    } else {
        assert(fs.drop_last().take(k) =~= fs.take(k));
        lemma_ast_prefix_none(fs.drop_last(), k);
    }
}

/// Once a prefix of the stream underflows, the whole stream does.
pub proof fn lemma_depth_prefix_none(ns: Seq<NodeView>, k: int)
    requires
        0 <= k <= ns.len(),
        spec_depth(ns.take(k)) is None,
    ensures
        spec_depth(ns) is None,
    decreases ns.len(),
{
    if k == ns.len() {
        assert(ns.take(k) =~= ns);
    } else {
        assert(ns.drop_last().take(k) =~= ns.take(k));
        lemma_depth_prefix_none(ns.drop_last(), k);
    }
}

pub proof fn lemma_depth_bounded(ns: Seq<NodeView>)
    ensures
        spec_depth(ns) matches Some(d) ==> 0 <= d <= ns.len(),
    decreases ns.len(),
{
    if ns.len() > 0 {
        lemma_depth_bounded(ns.drop_last());
    }
}

/// The nested node array of a `THUNK_NODE` (field 14).
pub open spec fn spec_thunk(fs: Seq<SpecField>) -> Option<Seq<NodeView>> {
    match nested_field(fs, 14) {
        Some(array) => spec_ast(array),
        None => None,
    }
}

impl Ast {
    /// Decode a node array. Returns `None` if any element is not a node.
    pub fn decode(array: &Message) -> (r: Option<Ast>)
        ensures
            match spec_ast(array@) {
                Some(ns) => r matches Some(a) && a@ == ns,
                None => r is None,
            },
    {
        let mut nodes: Vec<Node> = Vec::new();
        let mut i: usize = 0;
        while i < array.fields.len()
            invariant
                i <= array.fields@.len(),
                array@.len() == array.fields@.len(),
                spec_ast(array@.take(i as int)) == Some(nodes@.map_values(|n: Node| n@)),
            decreases array.fields@.len() - i,
        {
            let field = &array.fields[i];
            assert(array@.take(i + 1).drop_last() =~= array@.take(i as int));
            assert(array@.take(i + 1).last() == field@);
            if field.number != 1 {
                proof {
                    lemma_ast_prefix_none(array@, i + 1);
                }
                return None;
            }
            let bytes = match &field.value {
                Value::Bytes(b) => b,
                _ => {
                    proof {
                        lemma_ast_prefix_none(array@, i + 1);
                    }
                    return None;
                },
            };
            let message = match decode_nested(bytes.as_slice()) {
                Some(m) => m,
                None => {
                    proof {
                        lemma_ast_prefix_none(array@, i + 1);
                    }
                    return None;
                },
            };
            let node = match Node::decode(message) {
                Some(n) => n,
                None => {
                    proof {
                        lemma_ast_prefix_none(array@, i + 1);
                    }
                    return None;
                },
            };
            let ghost before = nodes@.map_values(|n: Node| n@);
            nodes.push(node);
            assert(nodes@.map_values(|n: Node| n@) =~= before.push(nodes@.last()@));
            i = i + 1;
        }
        assert(array@.take(array.fields@.len() as int) =~= array@);
        Some(Ast { nodes })
    }

    /// Stack depth after the whole stream, or `None` if it ever underflows.
    fn depth(&self) -> (r: Option<usize>)
        ensures
            match spec_depth(self@) {
                Some(d) => r matches Some(x) && x == d,
                None => r is None,
            },
    {
        let mut depth: usize = 0;
        let mut i: usize = 0;
        while i < self.nodes.len()
            invariant
                i <= self.nodes@.len(),
                self@.len() == self.nodes@.len(),
                spec_depth(self@.take(i as int)) == Some(depth as int),
                depth <= i,
            decreases self.nodes@.len() - i,
        {
            let node = &self.nodes[i];
            assert(self@.take(i + 1).drop_last() =~= self@.take(i as int));
            assert(self@.take(i + 1).last() == node@);
            if !node.stack_effect_is_computable() {
                // More operands than a machine word counts: more than the
                // stack could ever hold.
                proof {
                    lemma_depth_prefix_none(self@, i + 1);
                }
                return None;
            }
            let (pops, pushes) = node.stack_effect();
            if depth < pops {
                proof {
                    lemma_depth_prefix_none(self@, i + 1);
                }
                return None;
            }
            depth = depth - pops + pushes;
            i = i + 1;
        }
        assert(self@.take(self.nodes@.len() as int) =~= self@);
        Some(depth)
    }

    /// Whether the node stream is a well-formed RPN program: no operator ever
    /// pops an operand that is not there, and exactly one value is left at the
    /// end.
    ///
    /// This is the check that tells an AST apart from the other things a
    /// document is full of: `{1: 3, 2: 0}` parses as a node and is a
    /// multiplication with an empty stack.
    pub fn is_well_formed(&self) -> (r: bool)
        ensures
            r == (spec_depth(self@) == Some(1int)),
    {
        proof {
            lemma_depth_bounded(self@);
        }
        match self.depth() {
            Some(d) => d == 1,
            None => false,
        }
    }

    /// The array message that holds this stream.
    pub fn array(&self) -> (r: Message)
        ensures
            r@ == spec_ast_array(self@),
    {
        let mut array = Message::default();
        let mut i: usize = 0;
        while i < self.nodes.len()
            invariant
                i <= self.nodes@.len(),
                self@.len() == self.nodes@.len(),
                array@ == spec_ast_array(self@.take(i as int)),
            decreases self.nodes@.len() - i,
        {
            let bytes = self.nodes[i].encode();
            let ghost before = array@;
            array.fields.push(Field { number: 1, value: Value::Bytes(bytes) });
            assert(array@ =~= before.push(
                SpecField { number: 1, value: SpecValue::Bytes(fields_bytes(self@[i as int].1)) },
            ));
            assert(spec_ast_array(self@.take(i + 1)) =~= spec_ast_array(self@.take(i as int)).push(
                SpecField { number: 1, value: SpecValue::Bytes(fields_bytes(self@[i as int].1)) },
            ));
            i = i + 1;
        }
        assert(self@.take(self.nodes@.len() as int) =~= self@);
        array
    }

    /// Re-encode to the `ASTNodeArrayArchive` bytes.
    pub fn encode(&self) -> (r: Vec<u8>)
        ensures
            r@ == fields_bytes(spec_ast_array(self@)),
    {
        self.array().encode()
    }
}

impl Node {
    /// A nested AST, for `THUNK_NODE`'s lazily evaluated argument.
    pub fn thunk(&self) -> (r: Option<Ast>)
        ensures
            match spec_thunk(self@.1) {
                Some(ns) => r matches Some(a) && a@ == ns,
                None => r is None,
            },
    {
        match nested(&self.raw, 14) {
            Some(array) => Ast::decode(&array),
            None => None,
        }
    }
}


// -- the schema ----------------------------------------------------------------

/// The wire type `ASTNodeArchive` gives each of its fields in the 15.3.1
/// schema — 0 varint, 1 fixed 64-bit, 2 length-delimited — and `None` for a
/// number it does not have.
///
/// **Fields 35 and 36 are the trap this table exists for.** Up to 13.1 field
/// 35 was a nested `ASTNodeArrayArchive` and field 36 a nested
/// `ASTLetNodeWhitespace`; at 14.4 they became a `string` and a `bool` *in
/// place*. 15.3.1 writes the new shape, and this table is keyed on that, never
/// on the wire type found.
pub open spec fn node_field_wire(number: u32) -> Option<nat> {
    if number == 4 || number == 7 || number == 8 {
        Some(1)
    } else if number == 6 || number == 14 || number == 15 || number == 16 || number == 17 || number
        == 21 || number == 25 || number == 26 || number == 27 || number == 28 || number == 30
        || number == 33 || number == 34 || number == 35 || number == 38 || number == 39 || number
        == 40 || number == 41 || number == 44 || number == 45 {
        Some(2)
    } else if (1 <= number <= 3) || number == 5 || (9 <= number <= 13) || (18 <= number <= 20)
        || (22 <= number <= 24) || number == 29 || number == 36 || number == 37 || number == 42
        || number == 43 || number == 46 || number == 47 {
        Some(0)
    } else {
        None
    }
}

fn node_field_wire_of(number: u32) -> (r: Option<u64>)
    ensures
        match node_field_wire(number) {
            Some(w) => r == Some(w as u64),
            None => r is None,
        },
{
    if number == 4 || number == 7 || number == 8 {
        Some(1)
    } else if number == 6 || number == 14 || number == 15 || number == 16 || number == 17 || number
        == 21 || number == 25 || number == 26 || number == 27 || number == 28 || number == 30
        || number == 33 || number == 34 || number == 35 || number == 38 || number == 39 || number
        == 40 || number == 41 || number == 44 || number == 45 {
        Some(2)
    } else if (1 <= number && number <= 3) || number == 5 || (9 <= number && number <= 13) || (18
        <= number && number <= 20) || (22 <= number && number <= 24) || number == 29 || number == 36
        || number == 37 || number == 42 || number == 43 || number == 46 || number == 47 {
        Some(0)
    } else {
        None
    }
}

/// `TSCE.FormulaArchive`'s fields.
pub open spec fn formula_field_wire(number: u32) -> Option<nat> {
    if number == 1 || (6 <= number <= 9) {
        Some(2)
    } else if 2 <= number <= 5 {
        Some(0)
    } else {
        None
    }
}

fn formula_field_wire_of(number: u32) -> (r: Option<u64>)
    ensures
        match formula_field_wire(number) {
            Some(w) => r == Some(w as u64),
            None => r is None,
        },
{
    if number == 1 || (6 <= number && number <= 9) {
        Some(2)
    } else if 2 <= number && number <= 5 {
        Some(0)
    } else {
        None
    }
}

/// The submessages a node's fields hold, as far as this module knows their
/// shape: 26/27 a coordinate, 28 the cross-table extra info, 33/41 the sticky
/// bits, 40 a colon tract, 45 the lambda identifiers.
pub open spec fn sub_field_wire(number: u32, sub: u32) -> Option<nat> {
    if number == 26 || number == 27 {
        if sub == 1 || sub == 2 {
            Some(0)
        } else {
            None
        }
    } else if number == 28 {
        if 1 <= sub <= 5 {
            Some(2)
        } else {
            None
        }
    } else if number == 33 || number == 41 {
        if 1 <= sub <= 4 {
            Some(0)
        } else {
            None
        }
    } else if number == 40 {
        if 1 <= sub <= 4 {
            Some(2)
        } else if sub == 5 {
            Some(0)
        } else {
            None
        }
    } else if number == 45 {
        if sub == 1 || sub == 3 || sub == 4 {
            Some(2)
        } else if sub == 2 {
            Some(0)
        } else {
            None
        }
    } else {
        None
    }
}

pub open spec fn has_sub_schema(number: u32) -> bool {
    number == 26 || number == 27 || number == 28 || number == 33 || number == 41 || number == 40
        || number == 45
}

fn sub_field_wire_of(number: u32, sub: u32) -> (r: Option<u64>)
    ensures
        match sub_field_wire(number, sub) {
            Some(w) => r == Some(w as u64),
            None => r is None,
        },
{
    if number == 26 || number == 27 {
        if sub == 1 || sub == 2 {
            Some(0)
        } else {
            None
        }
    } else if number == 28 {
        if 1 <= sub && sub <= 5 {
            Some(2)
        } else {
            None
        }
    } else if number == 33 || number == 41 {
        if 1 <= sub && sub <= 4 {
            Some(0)
        } else {
            None
        }
    } else if number == 40 {
        if 1 <= sub && sub <= 4 {
            Some(2)
        } else if sub == 5 {
            Some(0)
        } else {
            None
        }
    } else if number == 45 {
        if sub == 1 || sub == 3 || sub == 4 {
            Some(2)
        } else if sub == 2 {
            Some(0)
        } else {
            None
        }
    } else {
        None
    }
}

pub open spec fn msg_no_field(kind: u32, number: u32) -> Seq<char> {
    "node type "@ + decimal(kind as nat) + " has no field "@ + decimal(number as nat)
        + " in the 15.3.1 schema"@
}

pub open spec fn msg_wrong_wire(kind: u32, number: u32) -> Seq<char> {
    "node type "@ + decimal(kind as nat) + " field "@ + decimal(number as nat)
        + " is the wrong wire type"@
}

pub open spec fn msg_submessage(number: u32, sub: u32) -> Seq<char> {
    "field "@ + decimal(number as nat) + "'s submessage has no field "@ + decimal(sub as nat)
        + " of that wire type"@
}

pub open spec fn msg_formula_field(number: u32) -> Seq<char> {
    "formula archive has no field "@ + decimal(number as nat) + " of that wire type"@
}

/// The first field of a known submessage whose number or wire type its schema
/// does not have.
pub open spec fn sub_fields_problem(number: u32, fs: Seq<SpecField>) -> Option<Seq<char>>
    decreases fs.len(),
{
    if fs.len() == 0 {
        None
    } else {
        match sub_fields_problem(number, fs.drop_last()) {
            Some(p) => Some(p),
            None => if sub_field_wire(number, fs.last().number) == Some(wire_type(fs.last().value)) {
                None
            } else {
                Some(msg_submessage(number, fs.last().number))
            },
        }
    }
}

/// What is wrong with the submessage at a node field, for the fields whose
/// shape this module knows. One that does not parse is carried unvalidated.
pub open spec fn submessage_problem(number: u32, b: Seq<u8>) -> Option<Seq<char>> {
    if !has_sub_schema(number) {
        None
    } else {
        match nested_of(b) {
            Some(m) => sub_fields_problem(number, m),
            None => None,
        }
    }
}

/// The size a node stream takes, counted so that each node is strictly
/// smaller than the stream around it.
pub open spec fn nodes_size(ns: Seq<NodeView>) -> nat
    decreases ns.len(),
{
    if ns.len() == 0 {
        0
    } else {
        nodes_size(ns.drop_last()) + fields_bytes(ns.last().1).len() + 1
    }
}

/// A node stream is smaller than the array message it was decoded from.
pub proof fn lemma_ast_size(arr: Seq<SpecField>)
    ensures
        spec_ast(arr) matches Some(ns) ==> nodes_size(ns) <= fields_bytes(arr).len(),
    decreases arr.len(),
{
    if arr.len() > 0 {
        lemma_ast_size(arr.drop_last());
        if let Some(ns) = spec_ast(arr) {
            let f = arr.last();
            let ns0 = spec_ast(arr.drop_last()).unwrap();
            assert(ns.drop_last() =~= ns0);
            if let SpecValue::Bytes(e) = f.value {
                lemma_fields_of_size(e);
                lemma_field_bytes_size(f);
                lemma_varint_nonempty(e.len());
                lemma_varint_nonempty(tag_of(f));
            }
            lemma_fields_bytes_last(arr);
        }
    }
}

pub proof fn lemma_nodes_size_last(ns: Seq<NodeView>)
    requires
        ns.len() > 0,
    ensures
        nodes_size(ns.drop_last()) < nodes_size(ns),
        fields_bytes(ns.last().1).len() < nodes_size(ns),
{
}

/// What is wrong with one field of a node of type `kind`: a number the schema
/// does not have, the wrong wire type, or a submessage that is wrong in turn.
pub open spec fn field_problem(kind: u32, f: SpecField) -> Option<Seq<char>>
    decreases field_bytes(f).len(), 0nat,
{
    match node_field_wire(f.number) {
        None => Some(msg_no_field(kind, f.number)),
        Some(w) => if wire_type(f.value) != w {
            Some(msg_wrong_wire(kind, f.number))
        } else {
            match f.value {
                SpecValue::Bytes(b) => if f.number == 14 {
                    proof {
                        lemma_field_bytes_size(f);
                    }
                    thunk_problem(b)
                } else {
                    submessage_problem(f.number, b)
                },
                _ => None,
            }
        },
    }
}

/// The first thing wrong with a node's fields, in order.
pub open spec fn node_problem(kind: u32, fs: Seq<SpecField>) -> Option<Seq<char>>
    decreases fields_bytes(fs).len(), 1nat,
{
    if fs.len() == 0 {
        None
    } else {
        proof {
            lemma_fields_bytes_last(fs);
        }
        match node_problem(kind, fs.drop_last()) {
            Some(p) => Some(p),
            None => field_problem(kind, fs.last()),
        }
    }
}

/// The first thing wrong with a stream of nodes.
pub open spec fn nodes_problem(ns: Seq<NodeView>) -> Option<Seq<char>>
    decreases nodes_size(ns), 2nat,
{
    if ns.len() == 0 {
        None
    } else {
        proof {
            lemma_nodes_size_last(ns);
        }
        match nodes_problem(ns.drop_last()) {
            Some(p) => Some(p),
            None => node_problem(ns.last().0, ns.last().1),
        }
    }
}

/// What is wrong inside a `THUNK_NODE`'s nested node array. An array that does
/// not decode as one is carried unvalidated.
pub open spec fn thunk_problem(b: Seq<u8>) -> Option<Seq<char>>
    decreases b.len(), 3nat,
{
    match nested_of(b) {
        None => None,
        Some(arr) => match spec_ast(arr) {
            None => None,
            Some(ns) => {
                proof {
                    lemma_fields_of_size(b);
                    lemma_ast_size(arr);
                }
                nodes_problem(ns)
            },
        },
    }
}


proof fn lemma_node_problem_prefix(kind: u32, fs: Seq<SpecField>, k: int)
    requires
        0 <= k <= fs.len(),
        node_problem(kind, fs.take(k)) is Some,
    ensures
        node_problem(kind, fs) == node_problem(kind, fs.take(k)),
    decreases fs.len(),
{
    if k == fs.len() {
        assert(fs.take(k) =~= fs);
    } else {
        assert(fs.drop_last().take(k) =~= fs.take(k));
        lemma_node_problem_prefix(kind, fs.drop_last(), k);
    }
}

proof fn lemma_nodes_problem_prefix(ns: Seq<NodeView>, k: int)
    requires
        0 <= k <= ns.len(),
        nodes_problem(ns.take(k)) is Some,
    ensures
        nodes_problem(ns) == nodes_problem(ns.take(k)),
    decreases ns.len(),
{
    if k == ns.len() {
        assert(ns.take(k) =~= ns);
    } else {
        assert(ns.drop_last().take(k) =~= ns.take(k));
        lemma_nodes_problem_prefix(ns.drop_last(), k);
    }
}

proof fn lemma_sub_problem_prefix(number: u32, fs: Seq<SpecField>, k: int)
    requires
        0 <= k <= fs.len(),
        sub_fields_problem(number, fs.take(k)) is Some,
    ensures
        sub_fields_problem(number, fs) == sub_fields_problem(number, fs.take(k)),
    decreases fs.len(),
{
    if k == fs.len() {
        assert(fs.take(k) =~= fs);
    } else {
        assert(fs.drop_last().take(k) =~= fs.take(k));
        lemma_sub_problem_prefix(number, fs.drop_last(), k);
    }
}

/// Every field takes no more room than the message it is in.
proof fn lemma_field_within(fs: Seq<SpecField>, i: int)
    requires
        0 <= i < fs.len(),
    ensures
        field_bytes(fs[i]).len() <= fields_bytes(fs).len(),
    decreases fs.len(),
{
    lemma_fields_bytes_last(fs);
    if i < fs.len() - 1 {
        lemma_field_within(fs.drop_last(), i);
    }
}

/// Every node is smaller than the stream it is in.
proof fn lemma_node_within(ns: Seq<NodeView>, i: int)
    requires
        0 <= i < ns.len(),
    ensures
        fields_bytes(ns[i].1).len() < nodes_size(ns),
    decreases ns.len(),
{
    lemma_nodes_size_last(ns);
    if i < ns.len() - 1 {
        lemma_node_within(ns.drop_last(), i);
    }
}

fn problem_text(parts: &[&str], numbers: &[u64]) -> (r: Vec<char>)
    requires
        parts@.len() == numbers@.len() + 1,
    ensures
        r@ == interleave(parts@.map_values(|s: &str| s@), numbers@, parts@.len() as int),
{
    let mut out: Vec<char> = Vec::new();
    let mut i: usize = 0;
    while i < parts.len()
        invariant
            parts@.len() == numbers@.len() + 1,
            i <= parts@.len(),
            out@ == interleave(parts@.map_values(|s: &str| s@), numbers@, i as int),
        decreases parts@.len() - i,
    {
        if i > 0 {
            push_decimal(&mut out, numbers[i - 1]);
        }
        push_str(&mut out, parts[i]);
        i = i + 1;
    }
    out
}

/// Text pieces with numbers between them: `p0 n0 p1 n1 … p(k-1)`.
pub open spec fn interleave(parts: Seq<Seq<char>>, numbers: Seq<u64>, k: int) -> Seq<char>
    decreases k,
{
    if k <= 0 {
        Seq::empty()
    } else if k == 1 {
        parts[0]
    } else {
        interleave(parts, numbers, k - 1) + decimal(numbers[k - 2] as nat) + parts[k - 1]
    }
}

fn sub_check(number: u32, b: &[u8]) -> (r: Option<Vec<char>>)
    ensures
        match submessage_problem(number, b@) {
            Some(p) => r matches Some(v) && v@ == p,
            None => r is None,
        },
{
    let is_known_shape = number == 26 || number == 27 || number == 28 || number == 33 || number
        == 41 || number == 40 || number == 45;
    if !is_known_shape {
        return None;
    }
    let message = match decode_nested(b) {
        Some(m) => m,
        None => return None,
    };
    let mut i: usize = 0;
    while i < message.fields.len()
        invariant
            i <= message.fields@.len(),
            message@.len() == message.fields@.len(),
            nested_of(b@) == Some(message@),
            has_sub_schema(number),
            sub_fields_problem(number, message@.take(i as int)) is None,
        decreases message.fields@.len() - i,
    {
        let field = &message.fields[i];
        assert(message@.take(i + 1).drop_last() =~= message@.take(i as int));
        assert(message@.take(i + 1).last() == field@);
        let expected = sub_field_wire_of(number, field.number);
        let found = field.value.wire_type();
        let matches = match expected {
            Some(w) => w == found,
            None => false,
        };
        if !matches {
            let text = problem_text(
                &["field ", "'s submessage has no field ", " of that wire type"],
                &[number as u64, field.number as u64],
            );
            proof {
                reveal_with_fuel(interleave, 3);
                assert(text@ == msg_submessage(number, field.number));
                assert(sub_fields_problem(number, message@.take(i + 1)) == Some(
                    msg_submessage(number, field.number),
                ));
                lemma_sub_problem_prefix(number, message@, i + 1);
            }
            return Some(text);
        }
        i = i + 1;
    }
    assert(message@.take(message.fields@.len() as int) =~= message@);
    None
}

fn field_check(kind: u32, f: &Field) -> (r: Option<Vec<char>>)
    ensures
        match field_problem(kind, f@) {
            Some(p) => r matches Some(v) && v@ == p,
            None => r is None,
        },
    decreases field_bytes(f@).len(), 0nat,
{
    let wire = match node_field_wire_of(f.number) {
        Some(w) => w,
        None => {
            let text = problem_text(
                &["node type ", " has no field ", " in the 15.3.1 schema"],
                &[kind as u64, f.number as u64],
            );
            proof {
                reveal_with_fuel(interleave, 3);
            }
            return Some(text);
        },
    };
    if f.value.wire_type() != wire {
        let text = problem_text(
            &["node type ", " field ", " is the wrong wire type"],
            &[kind as u64, f.number as u64],
        );
        proof {
            reveal_with_fuel(interleave, 3);
        }
        return Some(text);
    }
    match &f.value {
        Value::Bytes(b) => {
            if f.number == 14 {
                proof {
                    lemma_field_bytes_size(f@);
                }
                thunk_check(b.as_slice())
            } else {
                sub_check(f.number, b.as_slice())
            }
        },
        _ => None,
    }
}

fn node_check(node: &Node) -> (r: Option<Vec<char>>)
    ensures
        match node_problem(node@.0, node@.1) {
            Some(p) => r matches Some(v) && v@ == p,
            None => r is None,
        },
    decreases fields_bytes(node@.1).len(), 1nat,
{
    let fields = &node.raw.fields;
    let mut i: usize = 0;
    while i < fields.len()
        invariant
            fields == &node.raw.fields,
            i <= fields@.len(),
            node@.1.len() == fields@.len(),
            node_problem(node@.0, node@.1.take(i as int)) is None,
        decreases fields@.len() - i,
    {
        let field = &fields[i];
        assert(node@.1.take(i + 1).drop_last() =~= node@.1.take(i as int));
        assert(node@.1.take(i + 1).last() == field@);
        proof {
            lemma_field_within(node@.1, i as int);
            lemma_fields_bytes_last(node@.1.take(i + 1));
        }
        match field_check(node.kind, field) {
            Some(p) => {
                proof {
                    lemma_node_problem_prefix(node@.0, node@.1, i + 1);
                }
                return Some(p);
            },
            None => {},
        }
        i = i + 1;
    }
    assert(node@.1.take(fields@.len() as int) =~= node@.1);
    None
}

fn nodes_check(nodes: &Vec<Node>) -> (r: Option<Vec<char>>)
    ensures
        match nodes_problem(nodes@.map_values(|n: Node| n@)) {
            Some(p) => r matches Some(v) && v@ == p,
            None => r is None,
        },
    decreases nodes_size(nodes@.map_values(|n: Node| n@)), 2nat,
{
    let ghost ns = nodes@.map_values(|n: Node| n@);
    let mut i: usize = 0;
    while i < nodes.len()
        invariant
            ns == nodes@.map_values(|n: Node| n@),
            i <= nodes@.len(),
            ns.len() == nodes@.len(),
            nodes_problem(ns.take(i as int)) is None,
        decreases nodes@.len() - i,
    {
        assert(ns.take(i + 1).drop_last() =~= ns.take(i as int));
        assert(ns.take(i + 1).last() == nodes@[i as int]@);
        proof {
            lemma_node_within(ns, i as int);
        }
        match node_check(&nodes[i]) {
            Some(p) => {
                proof {
                    lemma_nodes_problem_prefix(ns, i + 1);
                }
                return Some(p);
            },
            None => {},
        }
        i = i + 1;
    }
    assert(ns.take(nodes@.len() as int) =~= ns);
    None
}

fn thunk_check(b: &[u8]) -> (r: Option<Vec<char>>)
    ensures
        match thunk_problem(b@) {
            Some(p) => r matches Some(v) && v@ == p,
            None => r is None,
        },
    decreases b@.len(), 3nat,
{
    let array = match decode_nested(b) {
        Some(m) => m,
        None => return None,
    };
    let ast = match Ast::decode(&array) {
        Some(a) => a,
        None => return None,
    };
    proof {
        lemma_fields_of_size(b@);
        lemma_ast_size(array@);
    }
    nodes_check(&ast.nodes)
}

impl Node {
    /// Every field is one the 15.3.1 schema has, at the wire type the schema
    /// gives it, and so is every submessage this module descends into.
    ///
    /// The error names the offending field's number and a reason. This is the
    /// check that turns "the bytes parsed" into "the bytes are an AST node".
    pub fn validate(&self) -> (r: Result<(), String>)
        ensures
            match node_problem(self@.0, self@.1) {
                Some(p) => r matches Err(e) && e@ == p,
                None => r is Ok,
            },
    {
        match node_check(self) {
            Some(p) => Err(to_string(&p)),
            None => Ok(()),
        }
    }
}

impl Ast {
    /// Every node validates, checked in order.
    pub fn validate(&self) -> (r: Result<(), String>)
        ensures
            match nodes_problem(self@) {
                Some(p) => r matches Err(e) && e@ == p,
                None => r is Ok,
            },
    {
        match nodes_check(&self.nodes) {
            Some(p) => Err(to_string(&p)),
            None => Ok(()),
        }
    }
}


// -- formulas ------------------------------------------------------------------

/// `TSCE.FormulaArchive` — an AST plus, when it has one, its host cell.
#[derive(Debug, Clone, PartialEq)]
pub struct Formula {
    pub ast: Ast,
    /// `host_column`/`host_row`, with the two sign bools applied. Absent from
    /// every formula 15.3.1 writes into a table's FORMULA list: the host is the
    /// cell that holds the key.
    pub host: Option<(i64, i64)>,
    /// `translation_flags`, kept whole — an Excel import or a percent-formatted
    /// result is a property of the formula, not of the AST.
    pub flags: Option<Message>,
    /// The archive, exactly as read.
    pub raw: Message,
}

/// A host coordinate with its sign flag applied.
pub open spec fn signed_host(value: u64, negative: bool) -> i64 {
    if negative {
        (-(value as i64)) as i64
    } else {
        value as i64
    }
}

pub open spec fn spec_host(fs: Seq<SpecField>) -> Option<(i64, i64)> {
    match (varint_field(fs, 2), varint_field(fs, 3)) {
        (Some(c), Some(r)) => Some(
            (signed_host(c, varint_or(fs, 4, 0) != 0), signed_host(r, varint_or(fs, 5, 0) != 0)),
        ),
        _ => None,
    }
}

/// Whether the host can be negated: a negative flag on the one value whose
/// negation does not fit is the single archive `Formula::decode` cannot read.
pub open spec fn host_is_readable(fs: Seq<SpecField>) -> bool {
    match (varint_field(fs, 2), varint_field(fs, 3)) {
        (Some(c), Some(r)) => (varint_or(fs, 4, 0) != 0 ==> c as i64 != i64::MIN) && (varint_or(
            fs,
            5,
            0,
        ) != 0 ==> r as i64 != i64::MIN),
        _ => true,
    }
}

/// What `Formula::decode` makes of an archive: the AST at field 1 and the host.
pub open spec fn spec_formula_ast(fs: Seq<SpecField>) -> Option<Seq<NodeView>> {
    match nested_field(fs, 1) {
        Some(array) => spec_ast(array),
        None => None,
    }
}

/// The first field of a formula archive the schema does not have.
pub open spec fn formula_fields_problem(fs: Seq<SpecField>) -> Option<Seq<char>>
    decreases fs.len(),
{
    if fs.len() == 0 {
        None
    } else {
        match formula_fields_problem(fs.drop_last()) {
            Some(p) => Some(p),
            None => if formula_field_wire(fs.last().number) == Some(wire_type(fs.last().value)) {
                None
            } else {
                Some(msg_formula_field(fs.last().number))
            },
        }
    }
}

proof fn lemma_formula_problem_prefix(fs: Seq<SpecField>, k: int)
    requires
        0 <= k <= fs.len(),
        formula_fields_problem(fs.take(k)) is Some,
    ensures
        formula_fields_problem(fs) == formula_fields_problem(fs.take(k)),
    decreases fs.len(),
{
    if k == fs.len() {
        assert(fs.take(k) =~= fs);
    } else {
        assert(fs.drop_last().take(k) =~= fs.take(k));
        lemma_formula_problem_prefix(fs.drop_last(), k);
    }
}

fn host_value(value: u64, negative: bool) -> (r: i64)
    requires
        negative ==> value as i64 != i64::MIN,
    ensures
        r == signed_host(value, negative),
{
    let v = value as i64;
    if negative {
        -v
    } else {
        v
    }
}

impl Formula {
    /// Whether `decode` can read this archive's host.
    pub fn host_is_readable(archive: &Message) -> (r: bool)
        ensures
            r == host_is_readable(archive@),
    {
        match (archive.varint(2), archive.varint(3)) {
            (Some(c), Some(r)) => {
                let column_negative = flag(archive, 4);
                let row_negative = flag(archive, 5);
                (!column_negative || c as i64 != i64::MIN) && (!row_negative || r as i64
                    != i64::MIN)
            },
            _ => true,
        }
    }

    /// The formula an archive holds, when field 1 is a node array.
    pub fn decode(archive: &Message) -> (r: Option<Formula>)
        requires
            host_is_readable(archive@),
        ensures
            match spec_formula_ast(archive@) {
                Some(ns) => r matches Some(f) && f.ast@ == ns && f.host == spec_host(archive@)
                    && f.raw@ == archive@ && match nested_field(archive@, 6) {
                    Some(m) => f.flags matches Some(g) && g@ == m,
                    None => f.flags is None,
                },
                None => r is None,
            },
    {
        let array = match nested(archive, 1) {
            Some(m) => m,
            None => return None,
        };
        let ast = match Ast::decode(&array) {
            Some(a) => a,
            None => return None,
        };
        let host = match (archive.varint(2), archive.varint(3)) {
            (Some(column), Some(row)) => {
                let column_negative = flag(archive, 4);
                let row_negative = flag(archive, 5);
                Some((host_value(column, column_negative), host_value(row, row_negative)))
            },
            _ => None,
        };
        Some(Formula { ast, host, flags: nested(archive, 6), raw: archive.duplicate() })
    }

    pub fn message(&self) -> (r: &Message)
        ensures
            r@ == self.raw@,
    {
        &self.raw
    }

    pub fn encode(&self) -> (r: Vec<u8>)
        ensures
            r@ == fields_bytes(self.raw@),
    {
        self.raw.encode()
    }

    /// Every field of the archive is one the schema has, and the AST
    /// validates.
    pub fn validate(&self) -> (r: Result<(), String>)
        ensures
            match formula_fields_problem(self.raw@) {
                Some(p) => r matches Err(e) && e@ == p,
                None => match nodes_problem(self.ast@) {
                    Some(p) => r matches Err(e) && e@ == p,
                    None => r is Ok,
                },
            },
    {
        let fields = &self.raw.fields;
        let ghost fs = self.raw@;
        let mut i: usize = 0;
        while i < fields.len()
            invariant
                fields == &self.raw.fields,
                fs == self.raw@,
                i <= fields@.len(),
                fs.len() == fields@.len(),
                formula_fields_problem(fs.take(i as int)) is None,
            decreases fields@.len() - i,
        {
            let field = &fields[i];
            assert(fs.take(i + 1).drop_last() =~= fs.take(i as int));
            assert(fs.take(i + 1).last() == field@);
            let ok = match formula_field_wire_of(field.number) {
                Some(w) => w == field.value.wire_type(),
                None => false,
            };
            if !ok {
                let text = problem_text(
                    &["formula archive has no field ", " of that wire type"],
                    &[field.number as u64],
                );
                proof {
                    reveal_with_fuel(interleave, 2);
                    lemma_formula_problem_prefix(fs, i + 1);
                }
                return Err(to_string(&text));
            }
            i = i + 1;
        }
        assert(fs.take(fields@.len() as int) =~= fs);
        self.ast.validate()
    }
}

// -- category references -------------------------------------------------------

/// `TSCE.CategoryReferenceArchive` — what a pivot cell's formula points at.
///
/// It names a *group* of the source table rather than a rectangle: a group-by
/// owner, the column being summarised, the aggregate applied and the path of
/// group UUIDs down the category tree. It is decoded, not printed.
#[derive(Debug, Clone, PartialEq)]
pub struct CategoryReference {
    pub group_by: Option<Uuid>,
    pub column: Option<Uuid>,
    /// `aggregate_type`. Apple publishes no names; 2 is Sum.
    pub aggregate: u32,
    pub group_level: i64,
    /// The group path, outermost first.
    pub groups: Vec<Uuid>,
    pub show_aggregate_name: bool,
    pub column_group_level: u32,
    pub row_group_level: u32,
}

/// A `TSP.UUID` carried as a nested message.
pub open spec fn spec_uuid_of(b: Seq<u8>) -> Option<Uuid> {
    match nested_of(b) {
        Some(m) => Some(spec_uuid(m)),
        None => None,
    }
}

/// The UUIDs among a list of values: each length-delimited value that is a
/// message.
pub open spec fn uuids_of(vs: Seq<SpecValue>) -> Seq<Uuid>
    decreases vs.len(),
{
    if vs.len() == 0 {
        Seq::empty()
    } else {
        match vs.last() {
            SpecValue::Bytes(b) => match spec_uuid_of(b) {
                Some(u) => uuids_of(vs.drop_last()).push(u),
                None => uuids_of(vs.drop_last()),
            },
            _ => uuids_of(vs.drop_last()),
        }
    }
}

fn uuid_of(bytes: &[u8]) -> (r: Option<Uuid>)
    ensures
        r == spec_uuid_of(bytes@),
{
    match decode_nested(bytes) {
        Some(m) => Some(Uuid::decode(&m)),
        None => None,
    }
}

fn uuid_at(message: &Message, number: u32) -> (r: Option<Uuid>)
    ensures
        r == (match bytes_field(message@, number) {
            Some(b) => spec_uuid_of(b),
            None => None,
        }),
{
    match message.bytes(number) {
        Some(b) => uuid_of(b),
        None => None,
    }
}

impl Node {
    /// `CATEGORY_REF_NODE`'s payload — a reference into a categorised or pivot
    /// table, which addresses a *group* and not a rectangle.
    pub fn category_reference(&self) -> (r: Option<CategoryReference>)
        ensures
            match nested_field(self@.1, 39) {
                None => r is None,
                Some(outer) => match nested_field(outer, 1) {
                    None => r is None,
                    Some(archive) => r matches Some(c) && {
                        let levels = nested_field(self@.1, 44);
                        &&& c.group_by == (match bytes_field(archive, 1) {
                            Some(b) => spec_uuid_of(b),
                            None => None,
                        })
                        &&& c.column == (match bytes_field(archive, 2) {
                            Some(b) => spec_uuid_of(b),
                            None => None,
                        })
                        &&& c.aggregate == varint_or(archive, 3, 0) as u32
                        &&& c.group_level == (match varint_field(archive, 4) {
                            Some(v) => spec_unzigzag(v),
                            None => 0,
                        })
                        &&& c.groups@ == (match nested_field(archive, 6) {
                            Some(list) => uuids_of(values_with(list, 1)),
                            None => Seq::empty(),
                        })
                        &&& c.show_aggregate_name == (varint_or(archive, 14, 0) != 0)
                        &&& c.column_group_level == (match levels {
                            Some(l) => varint_or(l, 1, 0),
                            None => 0,
                        }) as u32
                        &&& c.row_group_level == (match levels {
                            Some(l) => varint_or(l, 2, 0),
                            None => 0,
                        }) as u32
                    },
                },
            },
    {
        let outer = match nested(&self.raw, 39) {
            Some(m) => m,
            None => return None,
        };
        let archive = match nested(&outer, 1) {
            Some(m) => m,
            None => return None,
        };
        let levels = nested(&self.raw, 44);
        let mut groups: Vec<Uuid> = Vec::new();
        match nested(&archive, 6) {
            Some(list) => {
                let values = list.all(1);
                let ghost vs = values_with(list@, 1);
                let mut i: usize = 0;
                while i < values.len()
                    invariant
                        vs == values_with(list@, 1),
                        i <= values@.len(),
                        values@.len() == vs.len(),
                        forall|k: int| 0 <= k < values@.len() ==> values@[k]@ == vs[k],
                        groups@ == uuids_of(vs.take(i as int)),
                    decreases values@.len() - i,
                {
                    assert(vs.take(i + 1).drop_last() =~= vs.take(i as int));
                    match values[i] {
                        Value::Bytes(b) => {
                            match uuid_of(b.as_slice()) {
                                Some(u) => groups.push(u),
                                None => {},
                            }
                        },
                        _ => {},
                    }
                    i = i + 1;
                }
                assert(vs.take(values@.len() as int) =~= vs);
            },
            None => {},
        }
        let group_level = match archive.varint(4) {
            Some(v) => unzigzag(v),
            None => 0,
        };
        let column_group_level = match &levels {
            Some(l) => match l.varint(1) {
                Some(v) => v,
                None => 0,
            },
            None => 0,
        } as u32;
        let row_group_level = match &levels {
            Some(l) => match l.varint(2) {
                Some(v) => v,
                None => 0,
            },
            None => 0,
        } as u32;
        Some(
            CategoryReference {
                group_by: uuid_at(&archive, 1),
                column: uuid_at(&archive, 2),
                aggregate: match archive.varint(3) {
                    Some(v) => v as u32,
                    None => 0,
                },
                group_level,
                groups,
                show_aggregate_name: flag(&archive, 14),
                column_group_level,
                row_group_level,
            },
        )
    }
}

/// **A decoded node re-encodes to exactly its bytes**, whatever fields it
/// carries, when the bytes are in the form the wire format writes: bytes that
/// encode some fields decode to a node whose encoding is those bytes.
pub proof fn law_node_reencodes(fs: Seq<SpecField>)
    requires
        fields_are_encodable(fs),
        fs.len() > 0,
    ensures
        nested_of(fields_bytes(fs)) == Some(fs),
        spec_node(fs) matches Some(n) ==> fields_bytes(n.1) == fields_bytes(fs),
{
    lemma_message_roundtrip(fs);
    lemma_fields_bytes_last(fs);
}

/// A length-delimited value holding a message in the form the wire format
/// writes it: encoding what it decodes to gives its bytes back.
pub open spec fn in_written_form(v: SpecValue) -> bool {
    match v {
        SpecValue::Bytes(b) => match fields_of(b) {
            Some(g) => fields_bytes(g) == b,
            None => false,
        },
        _ => false,
    }
}

/// **A decoded node array re-encodes to exactly its fields**, when each node
/// is held in the form the wire format writes: the array the nodes make is the
/// array they were read from, so its bytes are the bytes read.
pub proof fn law_node_array_reencodes(array: Seq<SpecField>)
    requires
        spec_ast(array) is Some,
        forall|i: int| 0 <= i < array.len() ==> in_written_form(#[trigger] array[i].value),
    ensures
        spec_ast_array(spec_ast(array).unwrap()) == array,
    decreases array.len(),
{
    if array.len() > 0 {
        let rest = array.drop_last();
        assert forall|i: int| 0 <= i < rest.len() implies in_written_form(#[trigger] rest[i].value) by {
            assert(rest[i] == array[i]);
        }
        law_node_array_reencodes(rest);
        let ns = spec_ast(rest).unwrap();
        let last = array.last();
        assert(array[array.len() - 1] == last);
        let n = spec_ast_node(last).unwrap();
        assert(spec_ast(array).unwrap() == ns.push(n));
        assert(spec_ast_array(ns.push(n)) =~= spec_ast_array(ns).push(
            SpecField { number: 1, value: SpecValue::Bytes(fields_bytes(n.1)) },
        ));
        assert(array =~= rest.push(last));
    }
}

/// **Re-encoding a decoded node array reproduces its bytes**, when they are
/// in the form the wire format writes, the array's and each node's: the
/// bytes re-encoded are the bytes read, and they decode to the same nodes.
pub proof fn law_ast_reencodes(bytes: Seq<u8>, array: Seq<SpecField>)
    requires
        nested_of(bytes) == Some(array),
        fields_bytes(array) == bytes,
        spec_ast(array) is Some,
        forall|i: int| 0 <= i < array.len() ==> in_written_form(#[trigger] array[i].value),
    ensures
        fields_bytes(spec_ast_array(spec_ast(array).unwrap())) == bytes,
        nested_of(fields_bytes(spec_ast_array(spec_ast(array).unwrap()))) == Some(array),
        spec_ast(spec_ast_array(spec_ast(array).unwrap())) == spec_ast(array),
{
    law_node_array_reencodes(array);
}

/// **A `LET` binding takes the value it binds off the stack and leaves
/// nothing.** Appending a `LET_BIND_NODE` to a stream that has a value to bind
/// lowers its depth by one, whatever the node carries; on an empty stack the
/// stream is not well formed.
pub proof fn law_let_binding_consumes_its_value(ns: Seq<NodeView>, fs: Seq<SpecField>)
    ensures
        spec_depth(ns) matches Some(d) ==> spec_depth(ns.push((52u32, fs))) == (if d >= 1 {
            Some(d - 1)
        } else {
            None::<int>
        }),
{
    assert(ns.push((52u32, fs)).drop_last() =~= ns);
}

/// **A `LET` is one value.** `LET(x, a, y, b, x×y)` — two values each bound to
/// a name, the two names read and multiplied, and both scopes closed — leaves
/// exactly one value on the stack, so the stream is well formed, whatever the
/// nodes carry.
pub proof fn law_a_let_is_one_value(
    a: Seq<SpecField>,
    bind_x: Seq<SpecField>,
    b: Seq<SpecField>,
    bind_y: Seq<SpecField>,
    x: Seq<SpecField>,
    y: Seq<SpecField>,
    times: Seq<SpecField>,
    end_y: Seq<SpecField>,
    end_x: Seq<SpecField>,
)
    ensures
        spec_depth(
            seq![
                (17u32, a),
                (52u32, bind_x),
                (17u32, b),
                (52u32, bind_y),
                (53u32, x),
                (53u32, y),
                (3u32, times),
                (54u32, end_y),
                (54u32, end_x),
            ],
        ) == Some(1int),
{
    let ns: Seq<NodeView> = seq![
        (17u32, a),
        (52u32, bind_x),
        (17u32, b),
        (52u32, bind_y),
        (53u32, x),
        (53u32, y),
        (3u32, times),
        (54u32, end_y),
        (54u32, end_x),
    ];
    assert(spec_depth(ns.take(0)) == Some(0int));
    assert(ns.take(1).drop_last() =~= ns.take(0));
    assert(spec_depth(ns.take(1)) == Some(1int));
    assert(ns.take(2).drop_last() =~= ns.take(1));
    assert(spec_depth(ns.take(2)) == Some(0int));
    assert(ns.take(3).drop_last() =~= ns.take(2));
    assert(spec_depth(ns.take(3)) == Some(1int));
    assert(ns.take(4).drop_last() =~= ns.take(3));
    assert(spec_depth(ns.take(4)) == Some(0int));
    assert(ns.take(5).drop_last() =~= ns.take(4));
    assert(spec_depth(ns.take(5)) == Some(1int));
    assert(ns.take(6).drop_last() =~= ns.take(5));
    assert(spec_depth(ns.take(6)) == Some(2int));
    assert(ns.take(7).drop_last() =~= ns.take(6));
    assert(spec_depth(ns.take(7)) == Some(1int));
    assert(ns.take(8).drop_last() =~= ns.take(7));
    assert(spec_depth(ns.take(8)) == Some(1int));
    assert(ns.take(9).drop_last() =~= ns.take(8));
    assert(ns.take(9) =~= ns);
}

/// **A literal is one more value, an operator makes one of two, and a call
/// makes one of its arguments.** Appending a literal (a number, a boolean, a
/// string, a date, a duration, an empty argument) raises a stream's depth by
/// one; a binary operator (node types 1 to 12) needs two values and leaves
/// one; a function call of `n` arguments needs `n` and leaves one.
pub proof fn law_values_move_the_stack(ns: Seq<NodeView>, kind: u32, fs: Seq<SpecField>)
    ensures
        spec_depth(ns) matches Some(d) ==> {
            &&& (kind == 17 || kind == 18 || kind == 19 || kind == 20 || kind == 21 || kind == 22 || kind
                == 23) ==> spec_depth(ns.push((kind, fs))) == Some(d + 1)
            &&& 1 <= kind <= 12 ==> spec_depth(ns.push((kind, fs))) == (if d >= 2 {
                Some(d - 1)
            } else {
                None::<int>
            })
            &&& kind == 16 ==> spec_depth(ns.push((kind, fs))) == (if d >= (varint_or(fs, 3, 0) as usize) as int {
                Some(d - (varint_or(fs, 3, 0) as usize) as int + 1)
            } else {
                None::<int>
            })
        },
{
    assert(ns.push((kind, fs)).drop_last() =~= ns);
}

} // verus!
