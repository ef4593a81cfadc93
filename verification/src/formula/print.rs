//! Formula text: the node stream evaluated onto a stack of strings.
//!
//! Every node pops the operands it takes and pushes the text it makes of
//! them; what is left on top at the end is the formula after its `=`. A `LET`
//! is the one construct that is not written in post-order — its bindings are
//! opened by `LET_BIND_NODE`s and closed, innermost first, by
//! `END_SCOPE_NODE`s — and a `THUNK_NODE` carries a whole nested stream,
//! printed by a printer of its own.
//!
//! What the text is, for every stream, is stated here as a function of the
//! nodes and the site; the printer below is proved to produce exactly that.

use vstd::prelude::*;

use crate::chars::{chars_of, copy_chars, decimal, push_chars, push_decimal, push_signed, push_str, signed_decimal, string_chars, to_string};
use crate::formula::names::{
    a1_fits, dollar, doubled, push_a1, push_doubled, push_quoted, spec_a1, spec_by_uid,
    spec_column_name, spec_function_name, spec_owns, spec_quote_name, spec_row_name, function_name,
    TableNames, Site,
};
use crate::formula::number::{push_decimal128, spec_decimal128_text};
use crate::formula::{
    as_int32, lemma_field_within, lemma_nodes_size_last, lemma_node_within, lemma_ast_size, node,
    nodes_size, reference_fits, spec_boolean, spec_lambda_idents, spec_let_binding, spec_reference,
    spec_resolve_reference, spec_symbol, spec_thunk, spec_unknown_function, text_field, varint_or,
    Ast, Axis, Formula, Node, NodeView, Reference, ResolvedReference,
};
use crate::pb::{
    bytes_field, fields_bytes, first_with, lemma_field_bytes_size, lemma_fields_of_size,
    lemma_index_of_first, index_of_first, nested_of, varint_field, SpecField, SpecValue, Value,
};

verus! {

// -- sizes -------------------------------------------------------------------------

/// A `THUNK_NODE`'s nested stream is smaller than the node that carries it.
pub proof fn lemma_thunk_size(fs: Seq<SpecField>)
    ensures
        spec_thunk(fs) matches Some(inner) ==> nodes_size(inner) < fields_bytes(fs).len(),
{
    if let Some(inner) = spec_thunk(fs) {
        lemma_index_of_first(fs, 14);
        let i = index_of_first(fs, 14).unwrap();
        let b = bytes_field(fs, 14).unwrap();
        let arr = nested_of(b).unwrap();
        lemma_field_bytes_size(fs[i]);
        lemma_field_within(fs, i);
        lemma_fields_of_size(b);
        lemma_ast_size(arr);
    }
}

// -- the state ---------------------------------------------------------------------

/// What the printer holds between two nodes: the operand stack, the `LET`
/// bindings still open (name, value, and whether the binding continues the
/// `LET` outside it), and the bindings closed early that wait for the scope
/// that opened their `LET`.
pub struct PrintState {
    pub stack: Seq<Seq<char>>,
    pub scopes: Seq<(Seq<char>, Seq<char>, bool)>,
    pub pending: Seq<(Seq<char>, Seq<char>)>,
}

/// The symbol table: index → identifier, later entries overriding earlier
/// ones.
pub type Symbols = Seq<(u32, Seq<char>)>;

pub open spec fn start_state() -> PrintState {
    PrintState { stack: Seq::empty(), scopes: Seq::empty(), pending: Seq::empty() }
}

/// The top of the stack, or nothing when it is empty.
pub open spec fn top(stack: Seq<Seq<char>>) -> Seq<char> {
    if stack.len() > 0 {
        stack.last()
    } else {
        Seq::empty()
    }
}

/// The stack without its top.
pub open spec fn below(stack: Seq<Seq<char>>) -> Seq<Seq<char>> {
    if stack.len() > 0 {
        stack.drop_last()
    } else {
        stack
    }
}

/// Where popping `count` operands cuts the stack: all of it when it holds
/// fewer.
pub open spec fn split_point(stack: Seq<Seq<char>>, count: int) -> int {
    if stack.len() >= count {
        stack.len() - count
    } else {
        0
    }
}

/// `parts` with `sep` between each two.
pub open spec fn join(parts: Seq<Seq<char>>, sep: char) -> Seq<char>
    decreases parts.len(),
{
    if parts.len() == 0 {
        Seq::empty()
    } else {
        join(parts.drop_last(), sep) + (if parts.len() > 1 {
            seq![sep]
        } else {
            Seq::empty()
        }) + parts.last()
    }
}

/// Array cells, `width` to a row: `,` between the cells of a row and `;`
/// between rows.
pub open spec fn array_body(cells: Seq<Seq<char>>, width: nat) -> Seq<char>
    decreases cells.len(),
{
    if cells.len() == 0 {
        Seq::empty()
    } else {
        let i = cells.len() - 1;
        array_body(cells.drop_last(), width) + (if i == 0 {
            Seq::empty()
        } else if width > 0 && i % (width as int) == 0 {
            seq![';']
        } else {
            seq![',']
        }) + cells.last()
    }
}

pub open spec fn with_stack(st: PrintState, stack: Seq<Seq<char>>) -> PrintState {
    PrintState { stack, scopes: st.scopes, pending: st.pending }
}

/// Pops two operands and pushes `left op right`; a missing operand prints as
/// nothing.
pub open spec fn binary(st: PrintState, op: char) -> PrintState {
    let at = split_point(st.stack, 2);
    let operands = st.stack.skip(at);
    let left = if operands.len() > 0 {
        operands[0]
    } else {
        Seq::empty()
    };
    let right = if operands.len() > 1 {
        operands[1]
    } else {
        Seq::empty()
    };
    with_stack(st, st.stack.take(at).push(left + seq![op] + right))
}

/// Pops one operand and pushes it between `before` and `after`.
pub open spec fn unary(st: PrintState, before: Seq<char>, after: Seq<char>) -> PrintState {
    with_stack(st, below(st.stack).push(before + top(st.stack) + after))
}

pub open spec fn pushed(st: PrintState, text: Seq<char>) -> PrintState {
    with_stack(st, st.stack.push(text))
}

/// Pops `arity` arguments and pushes `name(arguments)`.
pub open spec fn call(st: PrintState, name: Seq<char>, arity: int) -> PrintState {
    let at = split_point(st.stack, arity);
    pushed(
        with_stack(st, st.stack.take(at)),
        name + seq!['('] + join(st.stack.skip(at), ',') + seq![')'],
    )
}

// -- what each node prints -----------------------------------------------------------

/// The operator a binary node prints, in the app's spelling: `−`, `×`, `÷`,
/// `≥`, `≤` and `≠` rather than their ASCII stand-ins.
pub open spec fn operator_char(kind: u32) -> char {
    if kind == 1 {
        '+'
    } else if kind == 2 {
        '\u{2212}'
    } else if kind == 3 {
        '\u{d7}'
    } else if kind == 4 {
        '\u{f7}'
    } else if kind == 5 {
        '^'
    } else if kind == 6 {
        '&'
    } else if kind == 7 {
        '>'
    } else if kind == 8 {
        '\u{2265}'
    } else if kind == 9 {
        '<'
    } else if kind == 10 {
        '\u{2264}'
    } else if kind == 11 {
        '='
    } else if kind == 12 {
        '\u{2260}'
    } else if kind == 29 {
        ':'
    } else {
        ' '
    }
}

pub open spec fn is_binary(kind: u32) -> bool {
    (1 <= kind <= 12) || kind == 29 || kind == 69
}

/// The first field with this number, when it holds eight bytes.
pub open spec fn fixed64_field(fs: Seq<SpecField>, number: u32) -> Option<Seq<u8>> {
    match first_with(fs, number) {
        Some(SpecValue::Fixed64(b)) => Some(b),
        _ => None,
    }
}

/// Whether `i` is the first entry of `doubles` for these bytes.
pub open spec fn is_first_double(doubles: Seq<([u8; 8], String)>, bytes: Seq<u8>, i: int) -> bool {
    &&& 0 <= i < doubles.len()
    &&& doubles[i].0@ == bytes
    &&& forall|j: int| 0 <= j < i ==> doubles[j].0@ != bytes
}

/// The caller's text for a double, or nothing when it supplied none.
pub open spec fn double_text(doubles: Seq<([u8; 8], String)>, bytes: Seq<u8>) -> Seq<char> {
    if exists|i: int| is_first_double(doubles, bytes, i) {
        doubles[choose|i: int| is_first_double(doubles, bytes, i)].1@
    } else {
        Seq::empty()
    }
}

/// The bytes of `-0.0`, the one double whose two renderings differ: a date
/// prints it as `-0`, every other literal as `0`.
pub open spec fn negative_zero() -> Seq<u8> {
    seq![0u8, 0u8, 0u8, 0u8, 0u8, 0u8, 0u8, 0x80u8]
}

/// A `NUMBER_NODE`: the decimal128 at fields 42/43 when present, the double
/// at field 4 otherwise.
pub open spec fn number_text(fs: Seq<SpecField>, doubles: Seq<([u8; 8], String)>) -> Seq<char> {
    match (varint_field(fs, 42), varint_field(fs, 43)) {
        (Some(low), Some(high)) => spec_decimal128_text(low, high),
        _ => match fixed64_field(fs, 4) {
            Some(b) => double_text(doubles, b),
            None => Seq::empty(),
        },
    }
}

/// A `DATE_NODE`: seconds since 2001-01-01, in the stored format's own
/// spelling.
pub open spec fn date_text(fs: Seq<SpecField>, doubles: Seq<([u8; 8], String)>) -> Seq<char> {
    "DATE("@ + match fixed64_field(fs, 7) {
        Some(b) => if b == negative_zero() {
            seq!['-', '0']
        } else {
            double_text(doubles, b)
        },
        None => seq!['0'],
    } + seq![')']
}

/// A `DURATION_NODE`: magnitude (field 8) and unit code (field 9).
pub open spec fn duration_text(fs: Seq<SpecField>, doubles: Seq<([u8; 8], String)>) -> Seq<char> {
    match fixed64_field(fs, 8) {
        Some(b) => "DURATION("@ + double_text(doubles, b) + seq![','] + signed_decimal(
            as_int32(varint_or(fs, 9, 0)) as int,
        ) + seq![')'],
        None => "DURATION("@ + seq!['0', ',', '0', ')'],
    }
}

/// A string literal: stored unescaped, printed in double quotes with an
/// embedded `"` doubled.
pub open spec fn string_text(fs: Seq<SpecField>) -> Seq<char> {
    seq!['"'] + doubled(
        match text_field(fs, 6) {
            Some(t) => t,
            None => Seq::empty(),
        },
        '"',
    ) + seq!['"']
}

pub open spec fn bool_text(b: bool) -> Seq<char> {
    if b {
        "TRUE"@
    } else {
        "FALSE"@
    }
}

/// The literals: numbers, booleans, strings, dates, durations and an empty
/// argument.
pub open spec fn is_literal(kind: u32) -> bool {
    kind == 17 || kind == 18 || kind == 23 || kind == 19 || kind == 20 || kind == 21 || kind == 22
}

pub open spec fn literal_text(kind: u32, fs: Seq<SpecField>, doubles: Seq<([u8; 8], String)>) -> Seq<char> {
    if kind == 17 {
        number_text(fs, doubles)
    } else if kind == 18 {
        bool_text(
            match spec_boolean(fs, 5) {
                Some(b) => b,
                None => false,
            },
        )
    } else if kind == 23 {
        bool_text(
            match spec_boolean(fs, 10) {
                Some(b) => b,
                None => false,
            },
        )
    } else if kind == 19 {
        string_text(fs)
    } else if kind == 20 {
        date_text(fs, doubles)
    } else if kind == 21 {
        duration_text(fs, doubles)
    } else {
        Seq::empty()
    }
}

/// A function call, named from the caller's table, or `(null)` — which is
/// what Numbers itself prints for a function with no published name.
pub open spec fn function_step(st: PrintState, fs: Seq<SpecField>, functions: Seq<(u32, String)>) -> PrintState {
    let index = match varint_field(fs, 2) {
        Some(i) => i as u32,
        None => 0u32,
    };
    let arity = match varint_field(fs, 2) {
        Some(_) => varint_or(fs, 3, 0) as u32,
        None => 0u32,
    };
    let name = match spec_function_name(functions, index) {
        Some(n) => n,
        None => "(null)"@,
    };
    call(st, name, arity as int)
}

/// `{a,b;c,d}`: the cells of an array, columns to a row.
pub open spec fn array_step(st: PrintState, fs: Seq<SpecField>) -> PrintState {
    let columns = varint_or(fs, 11, 1) as u32;
    let rows = varint_or(fs, 12, 1) as u32;
    let at = split_point(st.stack, columns * rows);
    let width: nat = if columns == 0 {
        1
    } else {
        columns as nat
    };
    pushed(
        with_stack(st, st.stack.take(at)),
        seq!['{'] + array_body(st.stack.skip(at), width) + seq!['}'],
    )
}

/// `(a,b)`: a list of `arity` items, one when the node does not say.
pub open spec fn list_step(st: PrintState, fs: Seq<SpecField>) -> PrintState {
    let arity = match varint_field(fs, 13) {
        Some(v) => v as u32,
        None => 1u32,
    };
    call(st, Seq::empty(), arity as int)
}

/// A function the app could not resolve, under the name it was written with.
pub open spec fn unknown_function_step(st: PrintState, fs: Seq<SpecField>) -> PrintState {
    match spec_unknown_function(fs) {
        Some((name, arity)) => call(st, name, arity as int),
        None => call(st, Seq::empty(), 0),
    }
}

/// Whitespace the user typed, added to the end or the front of the operand
/// on top.
pub open spec fn whitespace_step(st: PrintState, fs: Seq<SpecField>, append: bool) -> PrintState {
    let space = match text_field(fs, 25) {
        Some(t) => t,
        None => Seq::empty(),
    };
    if st.stack.len() == 0 {
        st
    } else {
        with_stack(
            st,
            st.stack.update(
                st.stack.len() - 1,
                if append {
                    st.stack.last() + space
                } else {
                    space + st.stack.last()
                },
            ),
        )
    }
}

/// The nodes that shape the text around their operands.
pub open spec fn is_structure(kind: u32) -> bool {
    kind == 13 || kind == 14 || kind == 15 || kind == 16 || kind == 24 || kind == 25 || kind == 31
        || kind == 32 || kind == 33 || kind == 70
}

pub open spec fn structure_step(st: PrintState, kind: u32, fs: Seq<SpecField>, functions: Seq<(u32, String)>) -> PrintState {
    if kind == 13 {
        unary(st, seq!['\u{2212}'], Seq::empty())
    } else if kind == 14 {
        unary(st, seq!['+'], Seq::empty())
    } else if kind == 15 {
        unary(st, Seq::empty(), seq!['%'])
    } else if kind == 70 {
        unary(st, Seq::empty(), seq!['#'])
    } else if kind == 16 {
        function_step(st, fs, functions)
    } else if kind == 24 {
        array_step(st, fs)
    } else if kind == 25 {
        list_step(st, fs)
    } else if kind == 31 {
        unknown_function_step(st, fs)
    } else if kind == 32 {
        whitespace_step(st, fs, true)
    } else {
        whitespace_step(st, fs, false)
    }
}

/// The identifier a symbol has, the latest binding winning.
pub open spec fn lookup(syms: Symbols, symbol: u32) -> Option<Seq<char>>
    decreases syms.len(),
{
    if syms.len() == 0 {
        None
    } else if syms.last().0 == symbol {
        Some(syms.last().1)
    } else {
        lookup(syms.drop_last(), symbol)
    }
}

/// The bindings as `name, value, name, value, …`.
pub open spec fn flatten(pairs: Seq<(Seq<char>, Seq<char>)>) -> Seq<Seq<char>>
    decreases pairs.len(),
{
    if pairs.len() == 0 {
        Seq::empty()
    } else {
        flatten(pairs.drop_last()) + seq![pairs.last().0, pairs.last().1]
    }
}

/// `LET_BIND_NODE`: its value comes off the stack and opens a binding.
pub open spec fn let_bind_step(st: PrintState, fs: Seq<SpecField>) -> PrintState {
    let (name, continuation) = match spec_let_binding(fs) {
        Some(b) => b,
        None => (Seq::empty(), false),
    };
    PrintState {
        stack: below(st.stack),
        scopes: st.scopes.push((name, top(st.stack), continuation)),
        pending: st.pending,
    }
}

/// `END_SCOPE_NODE`: one per binding, innermost first. A binding that
/// continues the `LET` outside it waits until the scope that opened that `LET`
/// closes; `=LET(x,2,y,3,x×y)` is two binds and two end-scopes.
pub open spec fn end_scope_step(st: PrintState) -> PrintState {
    let body = top(st.stack);
    let rest = below(st.stack);
    if st.scopes.len() == 0 {
        with_stack(st, rest.push(body))
    } else {
        let (name, value, continuation) = st.scopes.last();
        let pending = seq![(name, value)] + st.pending;
        if continuation {
            PrintState { stack: rest.push(body), scopes: st.scopes.drop_last(), pending }
        } else {
            PrintState {
                stack: rest.push("LET("@ + join(flatten(pending).push(body), ',') + seq![')']),
                scopes: st.scopes.drop_last(),
                pending: Seq::empty(),
            }
        }
    }
}

/// `LAMBDA_NODE`: its parameters, then its body from the stack.
pub open spec fn lambda_step(st: PrintState, fs: Seq<SpecField>) -> PrintState {
    let names = match spec_lambda_idents(fs) {
        Some((names, _)) => names,
        None => Seq::empty(),
    };
    with_stack(
        st,
        below(st.stack).push("LAMBDA("@ + join(names.push(top(st.stack)), ',') + seq![')']),
    )
}

/// `VAR_NODE`: the identifier its symbol was bound to, `?` when none was.
pub open spec fn var_text(fs: Seq<SpecField>, syms: Symbols) -> Seq<char> {
    match spec_symbol(fs) {
        Some(s) => match lookup(syms, s) {
            Some(name) => name,
            None => seq!['?'],
        },
        None => seq!['?'],
    }
}

pub open spec fn is_scoping(kind: u32) -> bool {
    kind == 52 || kind == 53 || kind == 54 || kind == 55
}

pub open spec fn scoping_step(st: PrintState, kind: u32, fs: Seq<SpecField>, syms: Symbols) -> PrintState {
    if kind == 52 {
        let_bind_step(st, fs)
    } else if kind == 53 {
        pushed(st, var_text(fs, syms))
    } else if kind == 54 {
        end_scope_step(st)
    } else {
        lambda_step(st, fs)
    }
}

/// The nodes that print a fixed text or nothing: stored `#REF!`s, the cell a
/// conditional rule is about, category references, thunk brackets, and any
/// node this printer does not know.
pub open spec fn marker_step(st: PrintState, kind: u32) -> PrintState {
    if kind == 30 || kind == 46 {
        pushed(st, "#REF!"@)
    } else if kind == 34 || kind == 35 || kind == 56 || kind == 57 {
        st
    } else if kind == 63 {
        pushed(st, "#CELL"@)
    } else if kind == 64 {
        pushed(st, "#COLUMN"@)
    } else if kind == 65 {
        pushed(st, "#ROW"@)
    } else if kind == 66 || kind == 68 {
        pushed(st, "#CATEGORY!"@)
    } else {
        pushed(st, "#NODE"@ + decimal(kind as nat))
    }
}

/// Every node but a thunk and a reference: none of them can fail.
pub open spec fn simple_step(st: PrintState, n: NodeView, at: Site, syms: Symbols) -> PrintState {
    let (kind, fs) = n;
    if is_binary(kind) {
        binary(st, operator_char(kind))
    } else if is_literal(kind) {
        pushed(st, literal_text(kind, fs, at.names.doubles@))
    } else if is_structure(kind) {
        structure_step(st, kind, fs, at.names.functions@)
    } else if is_scoping(kind) {
        scoping_step(st, kind, fs, syms)
    } else {
        marker_step(st, kind)
    }
}

// -- references --------------------------------------------------------------------

/// A reference in A1 notation, or `None` where its indices overflow.
pub open spec fn a1_reference(r: Reference, host: (i64, i64)) -> Option<Seq<char>> {
    if !reference_fits(r, host) {
        None
    } else {
        let res = spec_resolve_reference(r, host);
        let ranged = r.is_range && (res.column != res.column_end || res.row != res.row_end);
        if !a1_fits(res.column, res.row) || (ranged && !a1_fits(res.column_end, res.row_end)) {
            None
        } else {
            let begin = spec_a1(res.column, res.row, r.column is Absolute, r.row is Absolute);
            Some(
                if ranged {
                    begin + seq![':'] + spec_a1(
                        res.column_end,
                        res.row_end,
                        r.column_end is Absolute,
                        r.row_end is Absolute,
                    )
                } else {
                    begin
                },
            )
        }
    }
}

/// The header names a cell, a whole column or a whole row goes by, when its
/// table gives it names.
pub open spec fn named_reference(r: Reference, res: ResolvedReference, table: TableNames) -> Option<Seq<char>> {
    let column_name = match res.column {
        Some(c) => spec_column_name(table, c),
        None => None,
    };
    let row_name = match res.row {
        Some(w) => spec_row_name(table, w),
        None => None,
    };
    match (res.column, res.row, column_name, row_name) {
        (Some(_), Some(_), Some(c), Some(w)) => Some(
            dollar(r.column is Absolute) + spec_quote_name(c) + seq![' '] + dollar(
                r.row is Absolute,
            ) + spec_quote_name(w),
        ),
        (Some(_), None, Some(c), _) => Some(dollar(r.column is Absolute) + spec_quote_name(c)),
        (None, Some(_), _, Some(w)) => Some(dollar(r.row is Absolute) + spec_quote_name(w)),
        _ => None,
    }
}

/// The name a reference is looked up under when deciding whether it needs a
/// table prefix: the column name for a cell or a whole column, the row name
/// for a whole row.
pub open spec fn name_key(table: TableNames, res: ResolvedReference) -> Seq<char> {
    match (res.column, res.row) {
        (Some(c), _) => match spec_column_name(table, c) {
            Some(n) => n,
            None => Seq::empty(),
        },
        (None, Some(w)) => match spec_row_name(table, w) {
            Some(n) => n,
            None => Seq::empty(),
        },
        _ => Seq::empty(),
    }
}

/// The table a reference points into: the one its UUID names, or the
/// formula's own.
pub open spec fn target_table(r: Reference, at: Site) -> Option<int> {
    match r.table {
        Some(uid) => spec_by_uid(at.names.tables@, uid),
        None => match at.table {
            Some(t) => Some(t as int),
            None => None,
        },
    }
}

/// A reference in the app's own spelling: header names where the target has
/// them, A1 notation where it does not, and a table prefix only where one is
/// needed. A range never takes names: the app prints `SUM(B2:B4)` even in a
/// table whose columns and rows are all named.
///
/// `None` where printing it cannot be done: an index that overflows, or a
/// site naming a table the document does not have.
pub open spec fn reference_text(r: Reference, at: Site) -> Option<Seq<char>> {
    if r.is_error {
        Some("#REF!"@)
    } else {
        match target_table(r, at) {
            None => a1_reference(r, at.host),
            Some(t) => if !(0 <= t < at.names.tables@.len()) || !reference_fits(r, at.host) {
                None
            } else {
                let table = at.names.tables@[t];
                let res = spec_resolve_reference(r, at.host);
                let named = if !r.is_range || res.column is None || res.row is None {
                    named_reference(r, res, table)
                } else {
                    None
                };
                let own = at.table == Some(t as usize);
                match named {
                    Some(name) => Some(
                        if own || spec_owns(at.names.tables@, t, name_key(table, res)) {
                            name
                        } else {
                            table.name@ + seq![':', ':'] + name
                        },
                    ),
                    None => match a1_reference(r, at.host) {
                        Some(text) => Some(
                            if own {
                                text
                            } else {
                                table.name@ + seq![':', ':'] + text
                            },
                        ),
                        None => None,
                    },
                }
            },
        }
    }
}

pub open spec fn is_reference_node(kind: u32) -> bool {
    kind == 36 || kind == 67 || kind == 48
}

pub open spec fn reference_node_text(n: NodeView, at: Site) -> Option<Seq<char>> {
    match spec_reference(n) {
        Some(r) => reference_text(r, at),
        None => Some("#REF!"@),
    }
}

// -- symbols -----------------------------------------------------------------------

/// The symbol slot a lambda's `i`-th parameter takes.
pub open spec fn lambda_slot(first: u32, i: int) -> int {
    first + (i as u32)
}

/// Whether every parameter's slot fits in 32 bits.
pub open spec fn lambda_fits(first: u32, count: int) -> bool {
    forall|i: int| 0 <= i < count ==> #[trigger] lambda_slot(first, i) <= u32::MAX
}

pub open spec fn lambda_symbols(names: Seq<Seq<char>>, first: u32) -> Symbols {
    Seq::new(names.len(), |i: int| (lambda_slot(first, i) as u32, names[i]))
}

/// The identifiers one node binds: a `LET` binding's name at its symbol, a
/// lambda's parameters from its first symbol on, and whatever a thunk's
/// stream binds. `None` where a slot does not fit.
pub open spec fn node_symbols(n: NodeView) -> Option<Symbols>
    decreases fields_bytes(n.1).len(), 0nat,
{
    let (kind, fs) = n;
    if kind == 52 {
        match (spec_let_binding(fs), spec_symbol(fs)) {
            (Some((name, _)), Some(s)) => Some(seq![(s, name)]),
            _ => Some(Seq::empty()),
        }
    } else if kind == 55 {
        match spec_lambda_idents(fs) {
            Some((names, first)) => if lambda_fits(first, names.len() as int) {
                Some(lambda_symbols(names, first))
            } else {
                None
            },
            None => Some(Seq::empty()),
        }
    } else if kind == 26 {
        match spec_thunk(fs) {
            Some(inner) => {
                proof {
                    lemma_thunk_size(fs);
                }
                collect(inner)
            },
            None => Some(Seq::empty()),
        }
    } else {
        Some(Seq::empty())
    }
}

/// Every identifier a stream binds, in order, thunks included — collected
/// before printing because a `VAR_NODE` is written *inside* the thunk its
/// `LAMBDA_NODE` names.
pub open spec fn collect(ns: Seq<NodeView>) -> Option<Symbols>
    decreases nodes_size(ns), 1nat,
{
    if ns.len() == 0 {
        Some(Seq::empty())
    } else {
        proof {
            lemma_nodes_size_last(ns);
        }
        match collect(ns.drop_last()) {
            Some(a) => match node_symbols(ns.last()) {
                Some(b) => Some(a + b),
                None => None,
            },
            None => None,
        }
    }
}

// -- the whole stream ----------------------------------------------------------------

/// One node applied to the state. A thunk prints its nested stream with a
/// printer of its own, which starts from this one's symbols.
pub open spec fn print_node(st: PrintState, n: NodeView, at: Site, syms: Symbols) -> Option<PrintState>
    decreases fields_bytes(n.1).len(), 0nat,
{
    let (kind, fs) = n;
    if kind == 26 {
        match spec_thunk(fs) {
            Some(inner) => {
                proof {
                    lemma_thunk_size(fs);
                }
                match print_run(inner, at, syms) {
                    Some(done) => Some(pushed(st, top(done.stack))),
                    None => None,
                }
            },
            None => Some(pushed(st, Seq::empty())),
        }
    } else if is_reference_node(kind) {
        match reference_node_text(n, at) {
            Some(t) => Some(pushed(st, t)),
            None => None,
        }
    } else {
        Some(simple_step(st, n, at, syms))
    }
}

/// The stream applied to an empty printer.
pub open spec fn print_nodes(ns: Seq<NodeView>, at: Site, syms: Symbols) -> Option<PrintState>
    decreases nodes_size(ns), 1nat,
{
    if ns.len() == 0 {
        Some(start_state())
    } else {
        proof {
            lemma_nodes_size_last(ns);
        }
        match print_nodes(ns.drop_last(), at, syms) {
            Some(st) => print_node(st, ns.last(), at, syms),
            None => None,
        }
    }
}

/// A stream printed: its symbols collected on top of `syms`, then its nodes.
pub open spec fn print_run(ns: Seq<NodeView>, at: Site, syms: Symbols) -> Option<PrintState>
    decreases nodes_size(ns), 2nat,
{
    match collect(ns) {
        Some(own) => print_nodes(ns, at, syms + own),
        None => None,
    }
}

/// A formula's text: `=` and what is left on top of the stack. `None` where
/// printing stops: an index that overflows, a lambda whose symbol
/// slots do not fit, or a site naming a table the document does not have.
pub open spec fn formula_text(ns: Seq<NodeView>, at: Site) -> Option<Seq<char>> {
    match print_run(ns, at, Seq::empty()) {
        Some(done) => Some(seq!['='] + top(done.stack)),
        None => None,
    }
}


// -- building text -------------------------------------------------------------------

pub open spec fn texts_of(v: Seq<Vec<char>>) -> Seq<Seq<char>> {
    v.map_values(|t: Vec<char>| t@)
}

pub open spec fn scope_texts(v: Seq<(Vec<char>, Vec<char>, bool)>) -> Seq<(Seq<char>, Seq<char>, bool)> {
    v.map_values(|s: (Vec<char>, Vec<char>, bool)| (s.0@, s.1@, s.2))
}

pub open spec fn pair_texts(v: Seq<(Vec<char>, Vec<char>)>) -> Seq<(Seq<char>, Seq<char>)> {
    v.map_values(|p: (Vec<char>, Vec<char>)| (p.0@, p.1@))
}

pub open spec fn symbol_texts(v: Seq<(u32, Vec<char>)>) -> Symbols {
    v.map_values(|p: (u32, Vec<char>)| (p.0, p.1@))
}

/// A text of one character.
fn one(c: char) -> (v: Vec<char>)
    ensures
        v@ == seq![c],
{
    let mut v: Vec<char> = Vec::new();
    v.push(c);
    v
}

/// Whether A1 notation can print these indices.
fn a1_ok(column: Option<i64>, row: Option<i64>) -> (r: bool)
    ensures
        r == a1_fits(column, row),
{
    let column_ok = match column {
        Some(c) => c != i64::MAX,
        None => true,
    };
    let row_ok = match row {
        Some(w) => w != i64::MAX,
        None => true,
    };
    column_ok && row_ok
}

/// Pops the top of the stack; an empty stack gives an empty text.
fn pop_top(stack: &mut Vec<Vec<char>>) -> (t: Vec<char>)
    ensures
        t@ == top(texts_of(old(stack)@)),
        texts_of(final(stack)@) == below(texts_of(old(stack)@)),
{
    let ghost before = stack@;
    match stack.pop() {
        Some(t) => {
            assert(texts_of(stack@) =~= texts_of(before).drop_last());
            t
        },
        None => Vec::new(),
    }
}

/// Pops up to `count` operands, oldest first.
fn pop_many(stack: &mut Vec<Vec<char>>, count: u64) -> (v: Vec<Vec<char>>)
    ensures
        texts_of(v@) == texts_of(old(stack)@).skip(
            split_point(texts_of(old(stack)@), count as int),
        ),
        texts_of(final(stack)@) == texts_of(old(stack)@).take(
            split_point(texts_of(old(stack)@), count as int),
        ),
{
    let ghost before = stack@;
    let len = stack.len();
    let at: usize = if (len as u64) >= count {
        (len as u64 - count) as usize
    } else {
        0
    };
    let v = stack.split_off(at);
    assert(texts_of(v@) =~= texts_of(before).skip(at as int));
    assert(texts_of(stack@) =~= texts_of(before).take(at as int));
    v
}

/// Appends `parts` with `sep` between each two.
fn push_joined(out: &mut Vec<char>, parts: &Vec<Vec<char>>, sep: char)
    ensures
        final(out)@ == old(out)@ + join(texts_of(parts@), sep),
{
    let ghost start = out@;
    let mut i: usize = 0;
    while i < parts.len()
        invariant
            i <= parts@.len(),
            out@ == start + join(texts_of(parts@).take(i as int), sep),
        decreases parts@.len() - i,
    {
        assert(texts_of(parts@).take(i + 1).drop_last() =~= texts_of(parts@).take(i as int));
        if i > 0 {
            out.push(sep);
        }
        push_chars(out, &parts[i]);
        assert(out@ =~= start + join(texts_of(parts@).take(i + 1), sep));
        i = i + 1;
    }
    assert(texts_of(parts@).take(parts@.len() as int) =~= texts_of(parts@));
}

/// Appends array cells, `width` to a row.
fn push_array_body(out: &mut Vec<char>, cells: &Vec<Vec<char>>, width: u64)
    requires
        width >= 1,
    ensures
        final(out)@ == old(out)@ + array_body(texts_of(cells@), width as nat),
{
    let ghost start = out@;
    let mut i: usize = 0;
    while i < cells.len()
        invariant
            width >= 1,
            i <= cells@.len(),
            out@ == start + array_body(texts_of(cells@).take(i as int), width as nat),
        decreases cells@.len() - i,
    {
        assert(texts_of(cells@).take(i + 1).drop_last() =~= texts_of(cells@).take(i as int));
        if i > 0 {
            if (i as u64) % width == 0 {
                out.push(';');
            } else {
                out.push(',');
            }
        }
        push_chars(out, &cells[i]);
        assert(out@ =~= start + array_body(texts_of(cells@).take(i + 1), width as nat));
        i = i + 1;
    }
    assert(texts_of(cells@).take(cells@.len() as int) =~= texts_of(cells@));
}

/// The eight bytes at a field, when it holds them.
fn fixed64_at(fields: &crate::pb::Message, number: u32) -> (r: Option<[u8; 8]>)
    ensures
        match fixed64_field(fields@, number) {
            Some(b) => r matches Some(a) && a@ == b,
            None => r is None,
        },
{
    match fields.get(number) {
        Some(Value::Fixed64(b)) => Some(*b),
        _ => None,
    }
}

fn same_bytes(a: &[u8; 8], b: &[u8; 8]) -> (r: bool)
    ensures
        r == (a@ == b@),
{
    let mut i: usize = 0;
    while i < 8
        invariant
            i <= 8,
            a@.len() == 8,
            b@.len() == 8,
            forall|k: int| 0 <= k < i ==> a@[k] == b@[k],
        decreases 8 - i,
    {
        if a[i] != b[i] {
            return false;
        }
        i = i + 1;
    }
    assert(a@ =~= b@);
    true
}

/// Appends the caller's text for a double.
fn push_double(out: &mut Vec<char>, doubles: &Vec<([u8; 8], String)>, bytes: &[u8; 8])
    ensures
        final(out)@ == old(out)@ + double_text(doubles@, bytes@),
{
    let mut i: usize = 0;
    while i < doubles.len()
        invariant
            i <= doubles@.len(),
            out@ == old(out)@,
            forall|j: int| 0 <= j < i ==> doubles@[j].0@ != bytes@,
        decreases doubles@.len() - i,
    {
        if same_bytes(&doubles[i].0, bytes) {
            assert(is_first_double(doubles@, bytes@, i as int));
            proof {
                let j = choose|j: int| is_first_double(doubles@, bytes@, j);
                assert(is_first_double(doubles@, bytes@, j));
                if j < i {
                    assert(doubles@[j].0@ != bytes@);
                }
                if i < j {
                    assert(doubles@[i as int].0@ != bytes@);
                }
                assert(double_text(doubles@, bytes@) == doubles@[i as int].1@);
            }
            push_str(out, doubles[i].1.as_str());
            return;
        }
        i = i + 1;
    }
    assert(!exists|j: int| is_first_double(doubles@, bytes@, j));
    assert(out@ =~= old(out)@ + double_text(doubles@, bytes@));
}

fn is_negative_zero(b: &[u8; 8]) -> (r: bool)
    ensures
        r == (b@ == negative_zero()),
{
    let r = b[0] == 0 && b[1] == 0 && b[2] == 0 && b[3] == 0 && b[4] == 0 && b[5] == 0 && b[6]
        == 0 && b[7] == 0x80;
    if r {
        assert(b@ =~= negative_zero());
    } else {
        assert(b@ != negative_zero()) by {
            if b@ == negative_zero() {
                assert(b@[0] == negative_zero()[0]);
                assert(b@[1] == negative_zero()[1]);
                assert(b@[2] == negative_zero()[2]);
                assert(b@[3] == negative_zero()[3]);
                assert(b@[4] == negative_zero()[4]);
                assert(b@[5] == negative_zero()[5]);
                assert(b@[6] == negative_zero()[6]);
                assert(b@[7] == negative_zero()[7]);
            }
        }
    }
    r
}

/// The text a literal node prints.
fn literal(node: &Node, doubles: &Vec<([u8; 8], String)>) -> (t: Vec<char>)
    requires
        is_literal(node@.0),
    ensures
        t@ == literal_text(node@.0, node@.1, doubles@),
{
    let mut t: Vec<char> = Vec::new();
    let kind = node.kind;
    if kind == node::NUMBER {
        match (node.raw.varint(42), node.raw.varint(43)) {
            (Some(low), Some(high)) => push_decimal128(&mut t, low, high),
            _ => match fixed64_at(&node.raw, 4) {
                Some(b) => push_double(&mut t, doubles, &b),
                None => {},
            },
        }
    } else if kind == node::BOOLEAN || kind == node::TOKEN {
        let value = if kind == node::BOOLEAN {
            node.boolean()
        } else {
            node.token_boolean()
        };
        match value {
            Some(true) => push_str(&mut t, "TRUE"),
            _ => push_str(&mut t, "FALSE"),
        }
    } else if kind == node::STRING {
        t.push('"');
        match node.string() {
            Some(s) => push_doubled(&mut t, s.as_str(), '"'),
            None => {},
        }
        t.push('"');
    } else if kind == node::DATE {
        push_str(&mut t, "DATE(");
        match fixed64_at(&node.raw, 7) {
            Some(b) => {
                if is_negative_zero(&b) {
                    t.push('-');
                    t.push('0');
                } else {
                    push_double(&mut t, doubles, &b);
                }
            },
            None => t.push('0'),
        }
        t.push(')');
    } else if kind == node::DURATION {
        push_str(&mut t, "DURATION(");
        match fixed64_at(&node.raw, 8) {
            Some(b) => {
                push_double(&mut t, doubles, &b);
                t.push(',');
                let unit: i64 = match node.raw.varint(9) {
                    Some(v) => (v as i32) as i64,
                    None => 0,
                };
                assert(unit == as_int32(varint_or(node@.1, 9, 0)));
                push_signed(&mut t, unit);
            },
            None => {
                t.push('0');
                t.push(',');
                t.push('0');
            },
        }
        t.push(')');
    }
    assert(t@ =~= literal_text(node@.0, node@.1, doubles@));
    t
}

/// Appends the characters of each string.
fn string_texts(v: &Vec<String>) -> (r: Vec<Vec<char>>)
    ensures
        r@.len() == v@.len(),
        forall|i: int| 0 <= i < v@.len() ==> #[trigger] r@[i]@ == v@[i]@,
{
    let mut r: Vec<Vec<char>> = Vec::new();
    let mut i: usize = 0;
    while i < v.len()
        invariant
            i <= v@.len(),
            r@.len() == i,
            forall|k: int| 0 <= k < i ==> #[trigger] r@[k]@ == v@[k]@,
        decreases v@.len() - i,
    {
        r.push(string_chars(&v[i]));
        i = i + 1;
    }
    r
}

/// The identifier bound to a symbol, the latest binding winning.
fn lookup_symbol(symbols: &Vec<(u32, Vec<char>)>, symbol: u32) -> (r: Option<Vec<char>>)
    ensures
        match lookup(symbol_texts(symbols@), symbol) {
            Some(t) => r matches Some(v) && v@ == t,
            None => r is None,
        },
{
    let mut i: usize = symbols.len();
    assert(symbol_texts(symbols@).take(i as int) =~= symbol_texts(symbols@));
    while i > 0
        invariant
            i <= symbols@.len(),
            lookup(symbol_texts(symbols@), symbol) == lookup(symbol_texts(symbols@).take(i as int), symbol),
        decreases i,
    {
        assert(symbol_texts(symbols@).take(i as int).drop_last() =~= symbol_texts(symbols@).take(i - 1));
        if symbols[i - 1].0 == symbol {
            return Some(copy_chars(&symbols[i - 1].1));
        }
        i = i - 1;
    }
    None
}

fn copy_symbols(symbols: &Vec<(u32, Vec<char>)>) -> (r: Vec<(u32, Vec<char>)>)
    ensures
        symbol_texts(r@) == symbol_texts(symbols@),
{
    let mut r: Vec<(u32, Vec<char>)> = Vec::new();
    let mut i: usize = 0;
    while i < symbols.len()
        invariant
            i <= symbols@.len(),
            symbol_texts(r@) == symbol_texts(symbols@).take(i as int),
        decreases symbols@.len() - i,
    {
        let entry = (symbols[i].0, copy_chars(&symbols[i].1));
        let ghost before = r@;
        r.push(entry);
        assert(r@ == before.push(entry));
        assert(symbol_texts(r@) =~= symbol_texts(before).push((entry.0, entry.1@)));
        assert(symbol_texts(symbols@).take(i + 1) =~= symbol_texts(symbols@).take(i as int).push(
            (symbols@[i as int].0, symbols@[i as int].1@),
        ));
        i = i + 1;
    }
    assert(symbol_texts(symbols@).take(symbols@.len() as int) =~= symbol_texts(symbols@));
    r
}

// -- references, printed ---------------------------------------------------------------

/// A reference in A1 notation.
fn a1_text(r: &Reference, host: (i64, i64)) -> (res: Option<Vec<char>>)
    ensures
        match a1_reference(*r, host) {
            Some(t) => res matches Some(v) && v@ == t,
            None => res is None,
        },
{
    if !r.fits(host) {
        return None;
    }
    let resolved = r.resolve(host);
    let ranged = r.is_range && (resolved.column != resolved.column_end || resolved.row
        != resolved.row_end);
    if !a1_ok(resolved.column, resolved.row) || (ranged && !a1_ok(
        resolved.column_end,
        resolved.row_end,
    )) {
        return None;
    }
    let mut text: Vec<char> = Vec::new();
    push_a1(&mut text, resolved.column, resolved.row, r.column.is_absolute(), r.row.is_absolute());
    if ranged {
        text.push(':');
        push_a1(
            &mut text,
            resolved.column_end,
            resolved.row_end,
            r.column_end.is_absolute(),
            r.row_end.is_absolute(),
        );
    }
    assert(text@ =~= a1_reference(*r, host).unwrap());
    Some(text)
}

/// Appends `$` for an absolute axis.
fn push_dollar(out: &mut Vec<char>, axis: Axis)
    ensures
        final(out)@ == old(out)@ + dollar(axis is Absolute),
{
    if axis.is_absolute() {
        out.push('$');
    }
    assert(out@ =~= old(out)@ + dollar(axis is Absolute));
}

/// The header names a reference goes by, when its table gives it names.
fn named(r: &Reference, res: &ResolvedReference, table: &TableNames) -> (n: Option<Vec<char>>)
    ensures
        match named_reference(*r, *res, *table) {
            Some(t) => n matches Some(v) && v@ == t,
            None => n is None,
        },
{
    let column_name = match res.column {
        Some(c) => table.column_name(c),
        None => None,
    };
    let row_name = match res.row {
        Some(w) => table.row_name(w),
        None => None,
    };
    let mut out: Vec<char> = Vec::new();
    match (res.column, res.row, column_name, row_name) {
        (Some(_), Some(_), Some(c), Some(w)) => {
            push_dollar(&mut out, r.column);
            push_quoted(&mut out, c);
            out.push(' ');
            push_dollar(&mut out, r.row);
            push_quoted(&mut out, w);
        },
        (Some(_), None, Some(c), _) => {
            push_dollar(&mut out, r.column);
            push_quoted(&mut out, c);
        },
        (None, Some(_), _, Some(w)) => {
            push_dollar(&mut out, r.row);
            push_quoted(&mut out, w);
        },
        _ => {
            return None;
        },
    }
    assert(out@ =~= named_reference(*r, *res, *table).unwrap());
    Some(out)
}

/// The name a reference is looked up under for its table prefix.
fn key_of(table: &TableNames, res: &ResolvedReference) -> (k: Vec<char>)
    ensures
        k@ == name_key(*table, *res),
{
    let name = match (res.column, res.row) {
        (Some(c), _) => table.column_name(c),
        (None, Some(w)) => table.row_name(w),
        _ => None,
    };
    match name {
        Some(n) => chars_of(n),
        None => Vec::new(),
    }
}

/// `prefix::text`.
fn prefixed(prefix: &String, text: Vec<char>) -> (r: Vec<char>)
    ensures
        r@ == prefix@ + seq![':', ':'] + text@,
{
    let mut out = string_chars(prefix);
    out.push(':');
    out.push(':');
    push_chars(&mut out, &text);
    assert(out@ =~= prefix@ + seq![':', ':'] + text@);
    out
}

/// A reference in the app's own spelling.
fn reference_chars(r: &Reference, at: Site) -> (res: Option<Vec<char>>)
    ensures
        match reference_text(*r, at) {
            Some(t) => res matches Some(v) && v@ == t,
            None => res is None,
        },
{
    if r.is_error {
        return Some(chars_of("#REF!"));
    }
    let target: Option<usize> = match r.table {
        Some(uid) => at.names.by_uid(uid),
        None => at.table,
    };
    let t = match target {
        None => return a1_text(r, at.host),
        Some(t) => t,
    };
    if t >= at.names.tables.len() || !r.fits(at.host) {
        return None;
    }
    let table = &at.names.tables[t];
    let resolved = r.resolve(at.host);
    let named_text = if !r.is_range || resolved.column.is_none() || resolved.row.is_none() {
        named(r, &resolved, table)
    } else {
        None
    };
    let own = match at.table {
        Some(x) => x == t,
        None => false,
    };
    match named_text {
        Some(name) => {
            if own {
                return Some(name);
            }
            let key = key_of(table, &resolved);
            if at.names.owns(t, &key) {
                Some(name)
            } else {
                Some(prefixed(&table.name, name))
            }
        },
        None => match a1_text(r, at.host) {
            Some(text) => {
                if own {
                    Some(text)
                } else {
                    Some(prefixed(&table.name, text))
                }
            },
            None => None,
        },
    }
}

// -- symbols, collected --------------------------------------------------------------

proof fn lemma_collect_prefix_none(ns: Seq<NodeView>, k: int)
    requires
        0 <= k <= ns.len(),
        collect(ns.take(k)) is None,
    ensures
        collect(ns) is None,
    decreases ns.len(),
{
    if k == ns.len() {
        assert(ns.take(k) =~= ns);
    } else {
        assert(ns.drop_last().take(k) =~= ns.take(k));
        lemma_collect_prefix_none(ns.drop_last(), k);
    }
}

proof fn lemma_print_prefix_none(ns: Seq<NodeView>, at: Site, syms: Symbols, k: int)
    requires
        0 <= k <= ns.len(),
        print_nodes(ns.take(k), at, syms) is None,
    ensures
        print_nodes(ns, at, syms) is None,
    decreases ns.len(),
{
    if k == ns.len() {
        assert(ns.take(k) =~= ns);
    } else {
        assert(ns.drop_last().take(k) =~= ns.take(k));
        lemma_print_prefix_none(ns.drop_last(), at, syms, k);
    }
}

/// Adds the identifiers a stream binds.
fn collect_nodes(symbols: &mut Vec<(u32, Vec<char>)>, ast: &Ast) -> (ok: bool)
    ensures
        ok == (collect(ast@) is Some),
        ok ==> symbol_texts(final(symbols)@) == symbol_texts(old(symbols)@) + collect(ast@).unwrap(),
    decreases nodes_size(ast@), 1nat,
{
    let mut i: usize = 0;
    while i < ast.nodes.len()
        invariant
            i <= ast.nodes@.len(),
            ast@.len() == ast.nodes@.len(),
            collect(ast@.take(i as int)) is Some,
            symbol_texts(symbols@) == symbol_texts(old(symbols)@) + collect(
                ast@.take(i as int),
            ).unwrap(),
        decreases ast.nodes@.len() - i,
    {
        proof {
            lemma_node_within(ast@, i as int);
            assert(ast@.take(i + 1).drop_last() =~= ast@.take(i as int));
            assert(ast@.take(i + 1).last() == ast.nodes@[i as int]@);
        }
        let ghost before = symbols@;
        if !collect_node(symbols, &ast.nodes[i]) {
            proof {
                lemma_collect_prefix_none(ast@, i + 1);
            }
            return false;
        }
        assert(symbol_texts(symbols@) =~= symbol_texts(old(symbols)@) + collect(
            ast@.take(i + 1),
        ).unwrap());
        i = i + 1;
    }
    assert(ast@.take(ast.nodes@.len() as int) =~= ast@);
    true
}

/// Adds the identifiers one node binds.
fn collect_node(symbols: &mut Vec<(u32, Vec<char>)>, node: &Node) -> (ok: bool)
    ensures
        ok == (node_symbols(node@) is Some),
        ok ==> symbol_texts(final(symbols)@) == symbol_texts(old(symbols)@) + node_symbols(
            node@,
        ).unwrap(),
    decreases fields_bytes(node@.1).len(), 0nat,
{
    let kind = node.kind;
    if kind == node::LET_BIND {
        match (node.let_binding(), node.symbol()) {
            (Some((name, _)), Some(symbol)) => {
                symbols.push((symbol, string_chars(&name)));
                assert(symbol_texts(symbols@) =~= symbol_texts(old(symbols)@) + node_symbols(
                    node@,
                ).unwrap());
            },
            _ => {
                assert(symbol_texts(symbols@) =~= symbol_texts(old(symbols)@) + node_symbols(
                    node@,
                ).unwrap());
            },
        }
        true
    } else if kind == node::LAMBDA {
        match node.lambda_idents() {
            Some((names, first)) => {
                let ghost spec_names = spec_lambda_idents(node@.1).unwrap().0;
                let mut offset: usize = 0;
                while offset < names.len()
                    invariant
                        node@.0 == 55,
                        spec_lambda_idents(node@.1) == Some((spec_names, first)),
                        offset <= names@.len(),
                        names@.len() == spec_names.len(),
                        forall|k: int| 0 <= k < names@.len() ==> names@[k]@ == spec_names[k],
                        forall|k: int| 0 <= k < offset ==> #[trigger] lambda_slot(first, k) <= u32::MAX,
                        symbol_texts(symbols@) == symbol_texts(old(symbols)@) + lambda_symbols(
                            spec_names,
                            first,
                        ).take(offset as int),
                    decreases names@.len() - offset,
                {
                    let k = offset as u32;
                    assert(k == (offset as int) as u32);
                    match first.checked_add(k) {
                        Some(slot) => {
                            let entry = (slot, string_chars(&names[offset]));
                            let ghost before = symbols@;
                            symbols.push(entry);
                            assert(lambda_slot(first, offset as int) == slot);
                            assert(symbol_texts(symbols@) =~= symbol_texts(before).push(
                                (entry.0, entry.1@),
                            ));
                            assert(lambda_symbols(spec_names, first).take(offset + 1)
                                =~= lambda_symbols(spec_names, first).take(offset as int).push(
                                (entry.0, entry.1@),
                            ));
                        },
                        None => {
                            assert(lambda_slot(first, offset as int) > u32::MAX);
                            assert(!lambda_fits(first, spec_names.len() as int));
                            return false;
                        },
                    }
                    offset = offset + 1;
                }
                assert(lambda_symbols(spec_names, first).take(names@.len() as int) =~= lambda_symbols(
                    spec_names,
                    first,
                ));
                true
            },
            None => {
                assert(symbol_texts(symbols@) =~= symbol_texts(old(symbols)@) + Seq::empty());
                true
            },
        }
    } else if kind == node::THUNK {
        match node.thunk() {
            Some(inner) => {
                proof {
                    lemma_thunk_size(node@.1);
                }
                collect_nodes(symbols, &inner)
            },
            None => {
                assert(symbol_texts(symbols@) =~= symbol_texts(old(symbols)@) + Seq::empty());
                true
            },
        }
    } else {
        assert(symbol_texts(symbols@) =~= symbol_texts(old(symbols)@) + Seq::empty());
        true
    }
}

// -- the printer -------------------------------------------------------------------------

/// The stack machine that turns a node stream back into text.
struct Printer<'a> {
    at: Site<'a>,
    stack: Vec<Vec<char>>,
    scopes: Vec<(Vec<char>, Vec<char>, bool)>,
    pending: Vec<(Vec<char>, Vec<char>)>,
    symbols: Vec<(u32, Vec<char>)>,
}

impl<'a> Printer<'a> {
    spec fn state(&self) -> PrintState {
        PrintState {
            stack: texts_of(self.stack@),
            scopes: scope_texts(self.scopes@),
            pending: pair_texts(self.pending@),
        }
    }

    spec fn syms(&self) -> Symbols {
        symbol_texts(self.symbols@)
    }

    fn push_text(&mut self, t: Vec<char>)
        ensures
            final(self).state() == pushed(old(self).state(), t@),
            final(self).at == old(self).at,
            final(self).symbols == old(self).symbols,
    {
        self.stack.push(t);
        assert(texts_of(self.stack@) =~= texts_of(old(self).stack@).push(t@));
    }

    fn binary(&mut self, op: char)
        ensures
            final(self).state() == binary(old(self).state(), op),
            final(self).at == old(self).at,
            final(self).symbols == old(self).symbols,
    {
        let operands = pop_many(&mut self.stack, 2);
        let mut text: Vec<char> = Vec::new();
        if operands.len() > 0 {
            push_chars(&mut text, &operands[0]);
        }
        text.push(op);
        if operands.len() > 1 {
            push_chars(&mut text, &operands[1]);
        }
        proof {
            let ops = texts_of(operands@);
            let left = if ops.len() > 0 {
                ops[0]
            } else {
                Seq::empty()
            };
            let right = if ops.len() > 1 {
                ops[1]
            } else {
                Seq::empty()
            };
            assert(text@ =~= left + seq![op] + right);
        }
        self.push_text(text);
    }

    fn wrap_top(&mut self, before: Vec<char>, after: Vec<char>)
        ensures
            final(self).state() == unary(old(self).state(), before@, after@),
            final(self).at == old(self).at,
            final(self).symbols == old(self).symbols,
    {
        let operand = pop_top(&mut self.stack);
        let mut text = before;
        push_chars(&mut text, &operand);
        push_chars(&mut text, &after);
        self.push_text(text);
    }

    fn call(&mut self, name: Vec<char>, arity: u64)
        ensures
            final(self).state() == call(old(self).state(), name@, arity as int),
            final(self).at == old(self).at,
            final(self).symbols == old(self).symbols,
    {
        let ghost st = self.state();
        let arguments = pop_many(&mut self.stack, arity);
        let ghost name_text = name@;
        let mut text = name;
        text.push('(');
        push_joined(&mut text, &arguments, ',');
        text.push(')');
        assert(text@ =~= name_text + seq!['('] + join(texts_of(arguments@), ',') + seq![')']);
        assert(self.state() == with_stack(st, st.stack.take(split_point(st.stack, arity as int))));
        self.push_text(text);
    }

    fn structure(&mut self, node: &Node)
        requires
            is_structure(node@.0),
        ensures
            final(self).state() == structure_step(
                old(self).state(),
                node@.0,
                node@.1,
                old(self).at.names.functions@,
            ),
            final(self).at == old(self).at,
            final(self).symbols == old(self).symbols,
    {
        let kind = node.kind;
        let ghost st = self.state();
        let ghost functions = self.at.names.functions@;
        if kind == node::NEGATION {
            self.wrap_top(one('\u{2212}'), Vec::new());
        } else if kind == node::PLUS_SIGN {
            self.wrap_top(one('+'), Vec::new());
        } else if kind == node::PERCENT {
            self.wrap_top(Vec::new(), one('%'));
        } else if kind == node::SPILL_RANGE {
            self.wrap_top(Vec::new(), one('#'));
        } else if kind == node::FUNCTION {
            let (index, arity) = match node.function() {
                Some(p) => p,
                None => (0, 0),
            };
            let name = match function_name(&self.at.names.functions, index) {
                Some(n) => chars_of(n),
                None => chars_of("(null)"),
            };
            self.call(name, arity as u64);
            assert(self.state() == function_step(st, node@.1, functions));
        } else if kind == node::ARRAY {
            let (columns, rows) = match node.array_shape() {
                Some(shape) => shape,
                None => (1, 1),
            };
            assert((columns as u64) * (rows as u64) <= u64::MAX) by (nonlinear_arith)
                requires
                    columns <= u32::MAX,
                    rows <= u32::MAX,
            ;
            let count: u64 = (columns as u64) * (rows as u64);
            let cells = pop_many(&mut self.stack, count);
            let width: u64 = if columns == 0 {
                1
            } else {
                columns as u64
            };
            let mut text: Vec<char> = one('{');
            push_array_body(&mut text, &cells, width);
            text.push('}');
            assert(text@ =~= seq!['{'] + array_body(texts_of(cells@), width as nat) + seq!['}']);
            assert(self.state() == with_stack(st, st.stack.take(split_point(st.stack, columns * rows))));
            self.push_text(text);
            assert(self.state() == array_step(st, node@.1));
        } else if kind == node::LIST {
            let arity = match node.list_args() {
                Some(a) => a,
                None => 1,
            };
            self.call(Vec::new(), arity as u64);
            assert(self.state() == list_step(st, node@.1));
        } else if kind == node::UNKNOWN_FUNCTION {
            match node.unknown_function() {
                Some((name, arity)) => self.call(string_chars(&name), arity as u64),
                None => self.call(Vec::new(), 0),
            }
            assert(self.state() == unknown_function_step(st, node@.1));
        } else {
            let space = match node.whitespace() {
                Some(s) => string_chars(&s),
                None => Vec::new(),
            };
            if self.stack.len() > 0 {
                let ghost before = self.state();
                let operand = pop_top(&mut self.stack);
                let mut text: Vec<char>;
                if kind == node::APPEND_WHITESPACE {
                    text = operand;
                    push_chars(&mut text, &space);
                } else {
                    text = space;
                    push_chars(&mut text, &operand);
                }
                let ghost t = text@;
                self.push_text(text);
                assert(self.state().stack =~= before.stack.update(before.stack.len() - 1, t));
            }
            assert(self.state() == whitespace_step(st, node@.1, kind == node::APPEND_WHITESPACE));
        }
    }

    fn scoping(&mut self, node: &Node)
        requires
            is_scoping(node@.0),
        ensures
            final(self).state() == scoping_step(old(self).state(), node@.0, node@.1, old(self).syms()),
            final(self).at == old(self).at,
            final(self).symbols == old(self).symbols,
    {
        let kind = node.kind;
        if kind == node::LET_BIND {
            let (name, continuation) = match node.let_binding() {
                Some((s, c)) => (string_chars(&s), c),
                None => (Vec::new(), false),
            };
            let value = pop_top(&mut self.stack);
            self.scopes.push((name, value, continuation));
            assert(scope_texts(self.scopes@) =~= scope_texts(old(self).scopes@).push(
                (name@, value@, continuation),
            ));
        } else if kind == node::VAR {
            let name = match node.symbol() {
                Some(symbol) => match lookup_symbol(&self.symbols, symbol) {
                    Some(n) => n,
                    None => one('?'),
                },
                None => one('?'),
            };
            self.push_text(name);
        } else if kind == node::END_SCOPE {
            self.end_scope();
        } else {
            let body = pop_top(&mut self.stack);
            let mut parts: Vec<Vec<char>> = match node.lambda_idents() {
                Some((names, _)) => string_texts(&names),
                None => Vec::new(),
            };
            let ghost names = match spec_lambda_idents(node@.1) {
                Some((names, _)) => names,
                None => Seq::empty(),
            };
            assert(texts_of(parts@) =~= names);
            parts.push(body);
            assert(texts_of(parts@) =~= names.push(body@));
            let mut text = chars_of("LAMBDA(");
            push_joined(&mut text, &parts, ',');
            text.push(')');
            assert(text@ =~= "LAMBDA("@ + join(texts_of(parts@), ',') + seq![')']);
            self.push_text(text);
        }
    }

    fn end_scope(&mut self)
        ensures
            final(self).state() == end_scope_step(old(self).state()),
            final(self).at == old(self).at,
            final(self).symbols == old(self).symbols,
    {
        let body = pop_top(&mut self.stack);
        let ghost scopes = scope_texts(self.scopes@);
        match self.scopes.pop() {
            None => {
                self.push_text(body);
            },
            Some((name, value, continuation)) => {
                assert(scope_texts(self.scopes@) =~= scopes.drop_last());
                let ghost pending = pair_texts(self.pending@);
                self.pending.insert(0, (name, value));
                assert(pair_texts(self.pending@) =~= seq![(scopes.last().0, scopes.last().1)]
                    + pending);
                if continuation {
                    self.push_text(body);
                } else {
                    let mut parts: Vec<Vec<char>> = Vec::new();
                    let mut i: usize = 0;
                    while i < self.pending.len()
                        invariant
                            i <= self.pending@.len(),
                            texts_of(parts@) == flatten(pair_texts(self.pending@).take(i as int)),
                        decreases self.pending@.len() - i,
                    {
                        let n = copy_chars(&self.pending[i].0);
                        let v = copy_chars(&self.pending[i].1);
                        parts.push(n);
                        parts.push(v);
                        assert(pair_texts(self.pending@).take(i + 1).drop_last() =~= pair_texts(
                            self.pending@,
                        ).take(i as int));
                        assert(texts_of(parts@) =~= flatten(
                            pair_texts(self.pending@).take(i + 1),
                        ));
                        i = i + 1;
                    }
                    assert(pair_texts(self.pending@).take(self.pending@.len() as int)
                        =~= pair_texts(self.pending@));
                    let ghost flat = texts_of(parts@);
                    parts.push(body);
                    assert(texts_of(parts@) =~= flat.push(body@));
                    self.pending = Vec::new();
                    assert(pair_texts(self.pending@) =~= Seq::empty());
                    let mut text = chars_of("LET(");
                    push_joined(&mut text, &parts, ',');
                    text.push(')');
                    assert(text@ =~= "LET("@ + join(texts_of(parts@), ',') + seq![')']);
                    self.push_text(text);
                }
            },
        }
    }

    fn marker(&mut self, kind: u32)
        ensures
            final(self).state() == marker_step(old(self).state(), kind),
            final(self).at == old(self).at,
            final(self).symbols == old(self).symbols,
    {
        if kind == node::REFERENCE_ERROR || kind == node::REFERENCE_ERROR_WITH_UIDS {
            self.push_text(chars_of("#REF!"));
        } else if kind == node::BEGIN_THUNK || kind == node::END_THUNK || kind
            == node::BEGIN_LAMBDA_THUNK || kind == node::END_LAMBDA_THUNK {
        } else if kind == node::LINKED_CELL_REF {
            self.push_text(chars_of("#CELL"));
        } else if kind == node::LINKED_COLUMN_REF {
            self.push_text(chars_of("#COLUMN"));
        } else if kind == node::LINKED_ROW_REF {
            self.push_text(chars_of("#ROW"));
        } else if kind == node::CATEGORY_REF || kind == node::VIEW_TRACT_REF {
            self.push_text(chars_of("#CATEGORY!"));
        } else {
            let mut text = chars_of("#NODE");
            push_decimal(&mut text, kind as u64);
            self.push_text(text);
        }
    }

    fn simple(&mut self, node: &Node)
        ensures
            final(self).state() == simple_step(old(self).state(), node@, old(self).at, old(self).syms()),
            final(self).at == old(self).at,
            final(self).symbols == old(self).symbols,
    {
        let kind = node.kind;
        if (1 <= kind && kind <= 12) || kind == node::COLON || kind == node::INTERSECTION {
            let op = if kind == node::ADDITION {
                '+'
            } else if kind == node::SUBTRACTION {
                '\u{2212}'
            } else if kind == node::MULTIPLICATION {
                '\u{d7}'
            } else if kind == node::DIVISION {
                '\u{f7}'
            } else if kind == node::POWER {
                '^'
            } else if kind == node::CONCATENATION {
                '&'
            } else if kind == node::GREATER_THAN {
                '>'
            } else if kind == node::GREATER_THAN_OR_EQUAL {
                '\u{2265}'
            } else if kind == node::LESS_THAN {
                '<'
            } else if kind == node::LESS_THAN_OR_EQUAL {
                '\u{2264}'
            } else if kind == node::EQUAL_TO {
                '='
            } else if kind == node::NOT_EQUAL_TO {
                '\u{2260}'
            } else if kind == node::COLON {
                ':'
            } else {
                ' '
            };
            self.binary(op);
        } else if kind == node::NUMBER || kind == node::BOOLEAN || kind == node::TOKEN || kind
            == node::STRING || kind == node::DATE || kind == node::DURATION || kind
            == node::EMPTY_ARGUMENT {
            let text = literal(node, &self.at.names.doubles);
            self.push_text(text);
        } else if kind == node::NEGATION || kind == node::PLUS_SIGN || kind == node::PERCENT || kind
            == node::FUNCTION || kind == node::ARRAY || kind == node::LIST || kind
            == node::UNKNOWN_FUNCTION || kind == node::APPEND_WHITESPACE || kind
            == node::PREPEND_WHITESPACE || kind == node::SPILL_RANGE {
            self.structure(node);
        } else if kind == node::LET_BIND || kind == node::VAR || kind == node::END_SCOPE || kind
            == node::LAMBDA {
            self.scoping(node);
        } else {
            self.marker(kind);
        }
    }

    /// One node applied to the printer.
    fn node(&mut self, node: &Node) -> (ok: bool)
        ensures
            ok == (print_node(old(self).state(), node@, old(self).at, old(self).syms()) is Some),
            ok ==> final(self).state() == print_node(
                old(self).state(),
                node@,
                old(self).at,
                old(self).syms(),
            ).unwrap(),
            final(self).at == old(self).at,
            final(self).symbols == old(self).symbols,
        decreases fields_bytes(node@.1).len(), 0nat,
    {
        let kind = node.kind;
        if kind == node::THUNK {
            match node.thunk() {
                Some(inner) => {
                    proof {
                        lemma_thunk_size(node@.1);
                    }
                    let mut nested = Printer {
                        at: self.at,
                        stack: Vec::new(),
                        scopes: Vec::new(),
                        pending: Vec::new(),
                        symbols: copy_symbols(&self.symbols),
                    };
                    assert(nested.state() == start_state()) by {
                        assert(texts_of(nested.stack@) =~= Seq::empty());
                        assert(scope_texts(nested.scopes@) =~= Seq::empty());
                        assert(pair_texts(nested.pending@) =~= Seq::empty());
                    }
                    if !nested.run(&inner) {
                        return false;
                    }
                    let body = pop_top(&mut nested.stack);
                    self.push_text(body);
                    true
                },
                None => {
                    self.push_text(Vec::new());
                    true
                },
            }
        } else if kind == node::CELL_REFERENCE || kind == node::COLON_TRACT || kind
            == node::UID_REFERENCE {
            let text = match node.reference() {
                Some(reference) => reference_chars(&reference, self.at),
                None => Some(chars_of("#REF!")),
            };
            match text {
                Some(t) => {
                    self.push_text(t);
                    true
                },
                None => false,
            }
        } else {
            self.simple(node);
            true
        }
    }

    /// The nodes of a stream, applied in order to an empty printer.
    fn run_nodes(&mut self, ast: &Ast) -> (ok: bool)
        requires
            old(self).state() == start_state(),
        ensures
            ok == (print_nodes(ast@, old(self).at, old(self).syms()) is Some),
            ok ==> final(self).state() == print_nodes(ast@, old(self).at, old(self).syms()).unwrap(),
            final(self).at == old(self).at,
            final(self).symbols == old(self).symbols,
        decreases nodes_size(ast@), 1nat,
    {
        let ghost at = self.at;
        let ghost syms = self.syms();
        let mut i: usize = 0;
        let mut ok = true;
        while ok && i < ast.nodes.len()
            invariant
                i <= ast.nodes@.len(),
                ast@.len() == ast.nodes@.len(),
                self.at == at,
                at == old(self).at,
                syms == old(self).syms(),
                self.syms() == syms,
                self.symbols == old(self).symbols,
                ok ==> print_nodes(ast@.take(i as int), at, syms) == Some(self.state()),
                !ok ==> print_nodes(ast@, at, syms) is None,
            decreases ast.nodes@.len() - i + (if ok {
                1int
            } else {
                0int
            }),
        {
            proof {
                lemma_node_within(ast@, i as int);
                assert(ast@.take(i + 1).drop_last() =~= ast@.take(i as int));
                assert(ast@.take(i + 1).last() == ast.nodes@[i as int]@);
            }
            if self.node(&ast.nodes[i]) {
                i = i + 1;
            } else {
                proof {
                    lemma_print_prefix_none(ast@, at, syms, i + 1);
                }
                ok = false;
            }
        }
        if ok {
            assert(ast@.take(ast.nodes@.len() as int) =~= ast@);
        }
        ok
    }

    /// A stream printed: its symbols first, then its nodes.
    fn run(&mut self, ast: &Ast) -> (ok: bool)
        requires
            old(self).state() == start_state(),
        ensures
            ok == (print_run(ast@, old(self).at, old(self).syms()) is Some),
            ok ==> final(self).state() == print_run(ast@, old(self).at, old(self).syms()).unwrap(),
            final(self).at == old(self).at,
        decreases nodes_size(ast@), 2nat,
    {
        if !collect_nodes(&mut self.symbols, ast) {
            return false;
        }
        self.run_nodes(ast)
    }
}

impl Ast {
    /// What printing the stream leaves on the stack, bottom first: one text
    /// per value a fragment leaves — a whole formula leaves one.
    pub fn texts(&self, at: Site) -> (r: Vec<String>)
        requires
            print_run(self@, at, Seq::empty()) is Some,
        ensures
            r@.len() == print_run(self@, at, Seq::empty()).unwrap().stack.len(),
            forall|i: int|
                0 <= i < r@.len() ==> #[trigger] r@[i]@ == print_run(
                    self@,
                    at,
                    Seq::empty(),
                ).unwrap().stack[i],
    {
        let mut printer = Printer {
            at,
            stack: Vec::new(),
            scopes: Vec::new(),
            pending: Vec::new(),
            symbols: Vec::new(),
        };
        assert(printer.state() == start_state()) by {
            assert(texts_of(printer.stack@) =~= Seq::empty());
            assert(scope_texts(printer.scopes@) =~= Seq::empty());
            assert(pair_texts(printer.pending@) =~= Seq::empty());
        }
        assert(printer.syms() =~= Seq::empty());
        let ok = printer.run(self);
        assert(ok);
        let ghost stack = texts_of(printer.stack@);
        let mut out: Vec<String> = Vec::new();
        let mut i: usize = 0;
        while i < printer.stack.len()
            invariant
                i <= printer.stack@.len(),
                stack == texts_of(printer.stack@),
                out@.len() == i,
                forall|k: int| 0 <= k < i ==> #[trigger] out@[k]@ == stack[k],
            decreases printer.stack@.len() - i,
        {
            out.push(to_string(&printer.stack[i]));
            i = i + 1;
        }
        out
    }
}

impl Formula {
    /// The formula as text, in the spelling Numbers uses, or `None` where it
    /// cannot be printed: a reference whose indices overflow, a lambda whose
    /// symbol slots do not fit, or a site naming a table the document does not
    /// have.
    pub fn try_text(&self, at: Site) -> (r: Option<String>)
        ensures
            match formula_text(self.ast@, at) {
                Some(t) => r matches Some(s) && s@ == t,
                None => r is None,
            },
    {
        let mut printer = Printer {
            at,
            stack: Vec::new(),
            scopes: Vec::new(),
            pending: Vec::new(),
            symbols: Vec::new(),
        };
        assert(printer.state() == start_state()) by {
            assert(texts_of(printer.stack@) =~= Seq::empty());
            assert(scope_texts(printer.scopes@) =~= Seq::empty());
            assert(pair_texts(printer.pending@) =~= Seq::empty());
        }
        assert(printer.syms() =~= Seq::empty());
        if !printer.run(&self.ast) {
            return None;
        }
        let body = pop_top(&mut printer.stack);
        let mut text: Vec<char> = one('=');
        push_chars(&mut text, &body);
        assert(text@ =~= seq!['='] + body@);
        Some(to_string(&text))
    }

    /// The formula as text, in the spelling Numbers uses.
    pub fn text(&self, at: Site) -> (r: String)
        requires
            formula_text(self.ast@, at) is Some,
        ensures
            r@ == formula_text(self.ast@, at).unwrap(),
    {
        match self.try_text(at) {
            Some(s) => s,
            None => String::new(),
        }
    }
}


// -- the doubles a formula shows -------------------------------------------------------

pub open spec fn opt_bytes(b: Option<Seq<u8>>) -> Seq<Seq<u8>> {
    match b {
        Some(x) => seq![x],
        None => Seq::empty(),
    }
}

/// The doubles one node may print — a number's (field 4), a date's (field
/// 7), a duration's magnitude (field 8) — and those of a thunk's stream.
pub open spec fn node_doubles(n: NodeView) -> Seq<Seq<u8>>
    decreases fields_bytes(n.1).len(), 0nat,
{
    let (kind, fs) = n;
    let own = opt_bytes(fixed64_field(fs, 4)) + opt_bytes(fixed64_field(fs, 7)) + opt_bytes(
        fixed64_field(fs, 8),
    );
    if kind == 26 {
        match spec_thunk(fs) {
            Some(inner) => {
                proof {
                    lemma_thunk_size(fs);
                }
                own + stream_doubles(inner)
            },
            None => own,
        }
    } else {
        own
    }
}

/// The doubles a stream may print, in order.
pub open spec fn stream_doubles(ns: Seq<NodeView>) -> Seq<Seq<u8>>
    decreases nodes_size(ns), 1nat,
{
    if ns.len() == 0 {
        Seq::empty()
    } else {
        proof {
            lemma_nodes_size_last(ns);
        }
        stream_doubles(ns.drop_last()) + node_doubles(ns.last())
    }
}

pub open spec fn arrays_of(v: Seq<[u8; 8]>) -> Seq<Seq<u8>> {
    v.map_values(|a: [u8; 8]| a@)
}

fn push_fixed64(out: &mut Vec<[u8; 8]>, node: &Node, number: u32)
    ensures
        arrays_of(final(out)@) == arrays_of(old(out)@) + opt_bytes(fixed64_field(node@.1, number)),
{
    match fixed64_at(&node.raw, number) {
        Some(b) => {
            out.push(b);
            assert(arrays_of(out@) =~= arrays_of(old(out)@) + seq![b@]);
        },
        None => {
            assert(arrays_of(out@) =~= arrays_of(old(out)@) + Seq::empty());
        },
    }
}

fn node_doubles_into(out: &mut Vec<[u8; 8]>, node: &Node)
    ensures
        arrays_of(final(out)@) == arrays_of(old(out)@) + node_doubles(node@),
    decreases fields_bytes(node@.1).len(), 0nat,
{
    push_fixed64(out, node, 4);
    push_fixed64(out, node, 7);
    push_fixed64(out, node, 8);
    let ghost own = opt_bytes(fixed64_field(node@.1, 4)) + opt_bytes(fixed64_field(node@.1, 7))
        + opt_bytes(fixed64_field(node@.1, 8));
    assert(arrays_of(out@) =~= arrays_of(old(out)@) + own);
    if node.kind == node::THUNK {
        match node.thunk() {
            Some(inner) => {
                proof {
                    lemma_thunk_size(node@.1);
                }
                let ghost mid = arrays_of(out@);
                stream_doubles_into(out, &inner);
                assert(arrays_of(out@) =~= arrays_of(old(out)@) + (own + stream_doubles(inner@)));
            },
            None => {},
        }
    }
}

fn stream_doubles_into(out: &mut Vec<[u8; 8]>, ast: &Ast)
    ensures
        arrays_of(final(out)@) == arrays_of(old(out)@) + stream_doubles(ast@),
    decreases nodes_size(ast@), 1nat,
{
    let mut i: usize = 0;
    while i < ast.nodes.len()
        invariant
            i <= ast.nodes@.len(),
            ast@.len() == ast.nodes@.len(),
            arrays_of(out@) == arrays_of(old(out)@) + stream_doubles(ast@.take(i as int)),
        decreases ast.nodes@.len() - i,
    {
        proof {
            lemma_node_within(ast@, i as int);
            assert(ast@.take(i + 1).drop_last() =~= ast@.take(i as int));
            assert(ast@.take(i + 1).last() == ast.nodes@[i as int]@);
        }
        node_doubles_into(out, &ast.nodes[i]);
        assert(arrays_of(out@) =~= arrays_of(old(out)@) + stream_doubles(ast@.take(i + 1)));
        i = i + 1;
    }
    assert(ast@.take(ast.nodes@.len() as int) =~= ast@);
}

impl Formula {
    /// The binary doubles this formula's text may show, as their eight
    /// little-endian bytes: what the caller renders and hands back in
    /// [`Names::doubles`](crate::formula::names::Names).
    pub fn doubles(&self) -> (r: Vec<[u8; 8]>)
        ensures
            arrays_of(r@) == stream_doubles(self.ast@),
    {
        let mut out: Vec<[u8; 8]> = Vec::new();
        assert(arrays_of(out@) =~= Seq::empty());
        stream_doubles_into(&mut out, &self.ast);
        assert(arrays_of(out@) =~= stream_doubles(self.ast@));
        out
    }
}

/// **Each operator prints as the app spells it.** Two literals and a binary
/// operator print as the first literal, the operator's own symbol — `+`, `−`,
/// `×`, `÷`, `^`, `&`, `>`, `≥`, `<`, `≤`, `=`, `≠` for node types 1 to 12 —
/// and the second literal, each literal reading as it does on its own.
pub proof fn law_operators_print_the_apps_symbols(a: NodeView, b: NodeView, op: NodeView, at: Site)
    requires
        is_literal(a.0),
        is_literal(b.0),
        1 <= op.0 <= 12,
    ensures
        formula_text(seq![a], at) is Some,
        formula_text(seq![b], at) is Some,
        formula_text(seq![a, b, op], at) == Some(
            formula_text(seq![a], at).unwrap() + seq![
                if op.0 == 1 {
                    '+'
                } else if op.0 == 2 {
                    '\u{2212}'
                } else if op.0 == 3 {
                    '\u{d7}'
                } else if op.0 == 4 {
                    '\u{f7}'
                } else if op.0 == 5 {
                    '^'
                } else if op.0 == 6 {
                    '&'
                } else if op.0 == 7 {
                    '>'
                } else if op.0 == 8 {
                    '\u{2265}'
                } else if op.0 == 9 {
                    '<'
                } else if op.0 == 10 {
                    '\u{2264}'
                } else if op.0 == 11 {
                    '='
                } else {
                    '\u{2260}'
                },
            ] + formula_text(seq![b], at).unwrap().skip(1),
        ),
{
    let e = Seq::<(u32, Seq<char>)>::empty();
    let one_a = seq![a];
    let one_b = seq![b];
    let all = seq![a, b, op];
    assert(one_a.drop_last() =~= Seq::<NodeView>::empty());
    assert(one_b.drop_last() =~= Seq::<NodeView>::empty());
    assert(all.drop_last() =~= seq![a, b]);
    assert(seq![a, b].drop_last() =~= one_a);
    assert(node_symbols(a) == Some(e));
    assert(node_symbols(b) == Some(e));
    assert(node_symbols(op) == Some(e));
    assert(collect(Seq::<NodeView>::empty()) == Some(e));
    assert(collect(one_a) == Some(e + e));
    assert(e + e =~= e);
    assert(collect(one_b) == Some(e));
    assert(collect(seq![a, b]) == Some(e));
    assert(collect(all) == Some(e));
    assert(e + e =~= e);
    let s0 = start_state();
    let ta = literal_text(a.0, a.1, at.names.doubles@);
    let tb = literal_text(b.0, b.1, at.names.doubles@);
    assert(print_nodes(Seq::<NodeView>::empty(), at, e) == Some(s0));
    assert(print_nodes(one_a, at, e) == Some(pushed(s0, ta)));
    assert(print_nodes(one_b, at, e) == Some(pushed(s0, tb)));
    assert(seq![a, b].last() == b);
    assert(all.last() == op);
    assert(print_node(pushed(s0, ta), b, at, e) == Some(pushed(pushed(s0, ta), tb)));
    assert(print_nodes(seq![a, b], at, e) == Some(pushed(pushed(s0, ta), tb)));
    let st = pushed(pushed(s0, ta), tb);
    assert(st.stack =~= seq![ta, tb]);
    let after = binary(st, operator_char(op.0));
    assert(print_nodes(all, at, e) == Some(after));
    assert(split_point(st.stack, 2) == 0);
    assert(st.stack.skip(0) =~= st.stack);
    assert(st.stack.take(0) =~= Seq::<Seq<char>>::empty());
    assert(after.stack =~= seq![ta + seq![operator_char(op.0)] + tb]);
    assert(pushed(s0, ta).stack =~= seq![ta]);
    assert(pushed(s0, tb).stack =~= seq![tb]);
    assert((seq!['='] + tb).skip(1) =~= tb);
    assert(seq!['='] + (ta + seq![operator_char(op.0)] + tb) =~= (seq!['='] + ta) + seq![operator_char(op.0)]
        + (seq!['='] + tb).skip(1));
}

} // verus!
