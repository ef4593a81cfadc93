//! Writing to the calculation engine — `TSCE`.
//!
//! Numbers does not recalculate a formula when a document opens: **the engine
//! recalculates what its dependency graph reaches, and a cell nothing
//! registered is not in it.** A formula written into a cell therefore has to
//! be registered with the cells it reads — its *precedents*, resolved against
//! the cell that holds it, which is why a relative reference is a different
//! edge in every row.

use std::collections::BTreeSet;

use vstd::prelude::*;
use vstd::std_specs::btree::spec_btree_keys_iter;
use vstd::std_specs::cmp::OrdSpec;
use vstd::std_specs::iter::IteratorSpec;

use crate::create::{fields_view, message, nested, spec_nested, spec_varint, varint};
use crate::document::ArchiveObject;
use crate::formula::{axis_fits, nested_field, spec_reference, spec_resolve, Axis, Formula, NodeView, Reference, Uuid};
use crate::pb::{fields_of, varint_field, Field, Message, SpecField};

verus! {

broadcast use vstd::std_specs::btree::group_btree_axioms, vstd::laws_cmp::group_laws_cmp;

/// `TSCE.CalculationEngineArchive`.
pub const TYPE_ENGINE: u32 = 4000;
/// `TSCE.FormulaOwnerDependenciesArchive`.
pub const TYPE_OWNER_DEPENDENCIES: u32 = 4008;
/// `TSCE.CellRecordTileArchive`.
pub const TYPE_CELL_RECORD_TILE: u32 = 4009;

/// Where a formula's cell and its precedents live, once resolved.
#[derive(Debug, Clone, PartialEq, Eq)]
pub struct Dependency {
    pub row: usize,
    pub column: usize,
    /// The cells the formula reads, as `(row, column)`, without duplicates.
    pub precedents: BTreeSet<(usize, usize)>,
}

/// What walking a formula's references comes to: the cells it reads; a
/// refusal, where a reference reaches somewhere no edge of this module can
/// name; or an index that does not fit, where the walk stops.
pub enum Collected {
    Cells(Set<(usize, usize)>),
    Refused,
    Overflow,
}

/// One axis resolved against the cell that holds the formula: `None` where
/// resolving overflows, `Some(None)` where the axis is unbounded or lands
/// outside the sheet.
pub open spec fn resolve_index(axis: Axis, host: usize) -> Option<Option<usize>> {
    match axis {
        Axis::Unbounded => Some(None),
        _ => if !axis_fits(axis, host as i64) {
            None
        } else {
            match spec_resolve(axis, host as i64) {
                Some(v) => if 0 <= v && v <= usize::MAX {
                    Some(Some(v as usize))
                } else {
                    Some(None)
                },
                None => Some(None),
            }
        },
    }
}

/// Every cell of a rectangle, both ends included.
pub open spec fn rectangle(first_row: int, last_row: int, first_column: int, last_column: int) -> Set<(usize, usize)> {
    Set::new(
        |p: (usize, usize)|
            first_row <= p.0 <= last_row && first_column <= p.1 <= last_column,
    )
}

/// One node's contribution: nothing for a node that makes no reference, and
/// every cell of the range for one that reaches a bounded range of its own
/// table. The axes are resolved in the order row, column, row end, column end,
/// and the first that cannot be stops the walk.
pub open spec fn collect_step(cells: Set<(usize, usize)>, n: NodeView, row: usize, column: usize) -> Collected {
    match spec_reference(n) {
        None => Collected::Cells(cells),
        Some(r) => if r.is_error || r.table is Some {
            Collected::Refused
        } else {
            match resolve_index(r.row, row) {
                None => Collected::Overflow,
                Some(None) => Collected::Refused,
                Some(Some(first_row)) => match resolve_index(r.column, column) {
                    None => Collected::Overflow,
                    Some(None) => Collected::Refused,
                    Some(Some(first_column)) => match resolve_index(r.row_end, row) {
                        None => Collected::Overflow,
                        Some(None) => Collected::Refused,
                        Some(Some(last_row)) => match resolve_index(r.column_end, column) {
                            None => Collected::Overflow,
                            Some(None) => Collected::Refused,
                            Some(Some(last_column)) => if last_row < first_row || last_column
                                < first_column {
                                Collected::Refused
                            } else {
                                Collected::Cells(
                                    cells.union(
                                        rectangle(
                                            first_row as int,
                                            last_row as int,
                                            first_column as int,
                                            last_column as int,
                                        ),
                                    ),
                                )
                            },
                        },
                    },
                },
            }
        },
    }
}

/// The whole stream, node by node, from no cells.
pub open spec fn collect_precedents(ns: Seq<NodeView>, row: usize, column: usize) -> Collected
    decreases ns.len(),
{
    if ns.len() == 0 {
        Collected::Cells(Set::empty())
    } else {
        match collect_precedents(ns.drop_last(), row, column) {
            Collected::Cells(cells) => collect_step(cells, ns.last(), row, column),
            other => other,
        }
    }
}

proof fn lemma_collect_prefix(ns: Seq<NodeView>, row: usize, column: usize, k: int)
    requires
        0 <= k <= ns.len(),
        !(collect_precedents(ns.take(k), row, column) is Cells),
    ensures
        collect_precedents(ns, row, column) == collect_precedents(ns.take(k), row, column),
    decreases ns.len(),
{
    if k == ns.len() {
        assert(ns.take(k) =~= ns);
    } else {
        assert(ns.drop_last().take(k) =~= ns.take(k));
        lemma_collect_prefix(ns.drop_last(), row, column, k);
    }
}

fn index_of(axis: Axis, host: usize) -> (r: Option<usize>)
    requires
        resolve_index(axis, host) is Some,
    ensures
        r == resolve_index(axis, host).unwrap(),
{
    match axis {
        Axis::Unbounded => None,
        _ => {
            let v = match axis.resolve(host as i64) {
                Some(v) => v,
                None => return None,
            };
            if v >= 0 && (v as u64) <= (usize::MAX as u64) {
                Some(v as usize)
            } else {
                None
            }
        },
    }
}

/// Adds every cell of a rectangle.
fn insert_rectangle(
    cells: &mut BTreeSet<(usize, usize)>,
    first_row: usize,
    last_row: usize,
    first_column: usize,
    last_column: usize,
)
    requires
        first_row <= last_row,
        first_column <= last_column,
    ensures
        final(cells)@ == old(cells)@.union(
            rectangle(first_row as int, last_row as int, first_column as int, last_column as int),
        ),
{
    let ghost base = cells@;
    let mut r = first_row;
    let mut more = true;
    while more
        invariant
            first_row <= r <= last_row,
            first_column <= last_column,
            more ==> cells@ == base.union(
                rectangle(first_row as int, r - 1, first_column as int, last_column as int),
            ),
            !more ==> cells@ == base.union(
                rectangle(first_row as int, last_row as int, first_column as int, last_column as int),
            ),
        decreases last_row - r + (if more {
            1int
        } else {
            0int
        }),
    {
        let ghost before = cells@;
        let mut c = first_column;
        let mut across = true;
        while across
            invariant
                first_column <= c <= last_column,
                across ==> cells@ == before.union(
                    rectangle(r as int, r as int, first_column as int, c - 1),
                ),
                !across ==> cells@ == before.union(
                    rectangle(r as int, r as int, first_column as int, last_column as int),
                ),
            decreases last_column - c + (if across {
                1int
            } else {
                0int
            }),
        {
            cells.insert((r, c));
            assert(cells@ =~= before.union(rectangle(r as int, r as int, first_column as int, c as int)));
            if c == last_column {
                across = false;
            } else {
                c = c + 1;
            }
        }
        assert(cells@ =~= base.union(
            rectangle(first_row as int, r as int, first_column as int, last_column as int),
        ));
        if r == last_row {
            more = false;
        } else {
            r = r + 1;
        }
    }
}

/// Whether collecting a formula's precedents against a cell can be done: no
/// relative reference overflows when resolved.
pub open spec fn precedents_fit(formula: Formula, row: usize, column: usize) -> bool {
    !(collect_precedents(formula.ast@, row, column) is Overflow)
}

/// The cells a formula reads, resolved against the cell that will hold it.
///
/// Only references that resolve to a cell **in the same table** are returned;
/// `None` says the formula reaches somewhere that would need an edge this
/// module does not write — another table, a whole row or column, a stored
/// `#REF!` — and the caller should refuse rather than register half a graph.
/// A range is every cell in it: the app writes one edge per cell.
pub fn precedents_of(formula: &Formula, row: usize, column: usize) -> (r: Option<BTreeSet<(usize, usize)>>)
    requires
        precedents_fit(*formula, row, column),
    ensures
        match collect_precedents(formula.ast@, row, column) {
            Collected::Cells(cells) => r matches Some(set) && set@ == cells,
            _ => r is None,
        },
{
    let ghost ns = formula.ast@;
    let mut cells: BTreeSet<(usize, usize)> = BTreeSet::new();
    let mut i: usize = 0;
    while i < formula.ast.nodes.len()
        invariant
            i <= formula.ast.nodes@.len(),
            ns == formula.ast@,
            ns.len() == formula.ast.nodes@.len(),
            !(collect_precedents(ns, row, column) is Overflow),
            collect_precedents(ns.take(i as int), row, column) == Collected::Cells(cells@),
        decreases formula.ast.nodes@.len() - i,
    {
        assert(ns.take(i + 1).drop_last() =~= ns.take(i as int));
        assert(ns.take(i + 1).last() == formula.ast.nodes@[i as int]@);
        let node = &formula.ast.nodes[i];
        let ghost next = collect_step(cells@, node@, row, column);
        assert(collect_precedents(ns.take(i + 1), row, column) == next);
        proof {
            if !(next is Cells) {
                lemma_collect_prefix(ns, row, column, i + 1);
            }
        }
        match node.reference() {
            None => {},
            Some(reference) => {
                if reference.is_error || reference.table.is_some() {
                    proof {
                        lemma_collect_prefix(ns, row, column, i + 1);
                    }
                    return None;
                }
                let first_row = match index_of(reference.row, row) {
                    Some(v) => v,
                    None => return None,
                };
                let first_column = match index_of(reference.column, column) {
                    Some(v) => v,
                    None => return None,
                };
                let last_row = match index_of(reference.row_end, row) {
                    Some(v) => v,
                    None => return None,
                };
                let last_column = match index_of(reference.column_end, column) {
                    Some(v) => v,
                    None => return None,
                };
                if last_row < first_row || last_column < first_column {
                    return None;
                }
                insert_rectangle(&mut cells, first_row, last_row, first_column, last_column);
            },
        }
        i = i + 1;
    }
    assert(ns.take(formula.ast.nodes@.len() as int) =~= ns);
    Some(cells)
}

// -- the record ------------------------------------------------------------------------

/// One cell before another: by row, then by column — the order a set of
/// cells holds them in.
pub open spec fn cell_before(a: (usize, usize), b: (usize, usize)) -> bool {
    a.0 < b.0 || (a.0 == b.0 && a.1 < b.1)
}

/// Cells listed in strictly increasing order.
pub open spec fn cells_increasing(q: Seq<(usize, usize)>) -> bool {
    forall|i: int, j: int| 0 <= i < j < q.len() ==> cell_before(#[trigger] q[i], #[trigger] q[j])
}

/// A set of cells listed by row, then by column, each once.
pub open spec fn cells_in_order_of(cells: Set<(usize, usize)>) -> Seq<(usize, usize)> {
    choose|q: Seq<(usize, usize)>| q.to_set() == cells && cells_increasing(q)
}

/// A dependency's precedents in the order its set holds them.
pub open spec fn precedents_in_order(dependency: Dependency) -> Seq<(usize, usize)> {
    cells_in_order_of(dependency.precedents@)
}

/// Two increasing listings of one set of cells are one listing.
proof fn lemma_listing_is_unique(q1: Seq<(usize, usize)>, q2: Seq<(usize, usize)>)
    requires
        q1.to_set() == q2.to_set(),
        cells_increasing(q1),
        cells_increasing(q2),
    ensures
        q1 == q2,
    decreases q1.len(),
{
    if q1.len() == 0 {
        if q2.len() > 0 {
            assert(q2.to_set().contains(q2[0]));
            assert(!q1.contains(q2[0]));
        }
        assert(q1 =~= q2);
    } else {
        assert(q1.to_set().contains(q1[0]));
        assert(q2.contains(q1[0]));
        let j = choose|j: int| 0 <= j < q2.len() && q2[j] == q1[0];
        assert(q2.to_set().contains(q2[0]));
        assert(q1.contains(q2[0]));
        let i = choose|i: int| 0 <= i < q1.len() && q1[i] == q2[0];
        if j > 0 && i > 0 {
            assert(cell_before(q2[0], q2[j]));
            assert(cell_before(q1[0], q1[i]));
        }
        assert(q1[0] == q2[0]);
        let r1 = q1.drop_first();
        let r2 = q2.drop_first();
        assert forall|x: (usize, usize)| r1.to_set().contains(x) <==> r2.to_set().contains(x) by {
            if r1.contains(x) {
                let k = choose|k: int| 0 <= k < r1.len() && r1[k] == x;
                assert(q1[k + 1] == x);
                assert(cell_before(q1[0], q1[k + 1]));
                assert(q1.to_set().contains(x));
                assert(q2.contains(x));
                let m = choose|m: int| 0 <= m < q2.len() && q2[m] == x;
                assert(m != 0);
                assert(r2[m - 1] == x);
            }
            if r2.contains(x) {
                let k = choose|k: int| 0 <= k < r2.len() && r2[k] == x;
                assert(q2[k + 1] == x);
                assert(cell_before(q2[0], q2[k + 1]));
                assert(q2.to_set().contains(x));
                assert(q1.contains(x));
                let m = choose|m: int| 0 <= m < q1.len() && q1[m] == x;
                assert(m != 0);
                assert(r1[m - 1] == x);
            }
        }
        assert(r1.to_set() =~= r2.to_set());
        assert(cells_increasing(r1)) by {
            assert forall|a: int, b: int| 0 <= a < b < r1.len() implies cell_before(
                #[trigger] r1[a],
                #[trigger] r1[b],
            ) by {
                assert(r1[a] == q1[a + 1] && r1[b] == q1[b + 1]);
            }
        }
        assert(cells_increasing(r2)) by {
            assert forall|a: int, b: int| 0 <= a < b < r2.len() implies cell_before(
                #[trigger] r2[a],
                #[trigger] r2[b],
            ) by {
                assert(r2[a] == q2[a + 1] && r2[b] == q2[b + 1]);
            }
        }
        lemma_listing_is_unique(r1, r2);
        assert(q1 =~= q2) by {
            assert forall|k: int| 0 <= k < q1.len() implies q1[k] == q2[k] by {
                if k > 0 {
                    assert(q1[k] == r1[k - 1]);
                    assert(q2[k] == r2[k - 1]);
                }
            }
        }
    }
}

/// The order a set of cells is held in is by row, then by column.
proof fn lemma_held_order(a: (usize, usize), b: (usize, usize))
    ensures
        (a.cmp_spec(&b) is Less) == cell_before(a, b),
{
}

/// The edges of a record: the row of every precedent, then the column of
/// every precedent, in the same order — so the `i`th row and the `i`th column
/// name one cell.
pub open spec fn edge_fields(cells: Seq<(usize, usize)>) -> Seq<SpecField> {
    Seq::new(cells.len(), |i: int| spec_varint(1, cells[i].0 as u64)) + Seq::new(
        cells.len(),
        |i: int| spec_varint(2, cells[i].1 as u64),
    )
}

/// `TSCE.CellRecordExpandedArchive` — the cell, and the cells it reads:
/// `{1: column, 2: row, 6: {1: rows…, 2: columns…}}`.
pub open spec fn spec_expanded_record(dependency: Dependency) -> Seq<SpecField> {
    seq![
        spec_varint(1, dependency.column as u64),
        spec_varint(2, dependency.row as u64),
        spec_nested(6, edge_fields(precedents_in_order(dependency))),
    ]
}

/// A set of cells is walked in the order `cells_in_order_of` lists it.
proof fn lemma_walk_order(cells: &BTreeSet<(usize, usize)>)
    ensures
        spec_btree_keys_iter(cells).remaining().map_values(|c: &(usize, usize)| *c) == cells_in_order_of(
            cells@,
        ),
        cells_in_order_of(cells@).to_set() == cells@,
        cells_increasing(cells_in_order_of(cells@)),
{
    let held = spec_btree_keys_iter(cells).remaining();
    let q = held.map_values(|c: &(usize, usize)| *c);
    assert forall|k: int| 0 <= k < held.len() implies q[k] == held.unref()[k] by {}
    assert(q =~= held.unref());
    assert(q.to_set() == cells@);
    assert(vstd::laws_cmp::obeys_cmp::<(usize, usize)>());
    assert(vstd::laws_cmp::obeys_cmp::<&(usize, usize)>());
    assert(vstd::std_specs::btree::increasing_seq(held));
    assert forall|i: int, j: int| 0 <= i < j < q.len() implies cell_before(#[trigger] q[i], #[trigger] q[j]) by {
        assert(OrdSpec::cmp_spec(&held[i], &held[j]) is Less);
        lemma_held_order(q[i], q[j]);
    }
    lemma_listing_is_unique(q, cells_in_order_of(cells@));
}

fn cells_in_order(dependency: &Dependency) -> (r: Vec<(usize, usize)>)
    ensures
        r@ == precedents_in_order(*dependency),
{
    let ghost order = precedents_in_order(*dependency);
    proof {
        lemma_walk_order(&dependency.precedents);
    }
    let mut cells: Vec<(usize, usize)> = Vec::new();
    for cell in it: dependency.precedents.iter()
        invariant
            cells@.len() == it.index(),
            it.seq().map_values(|c: &(usize, usize)| *c) == order,
            cells@ == order.take(it.index()),
    {
        cells.push(*cell);
        assert(cells@ =~= order.take(it.index() + 1));
    }
    assert(order.take(cells@.len() as int) =~= order);
    cells
}

pub fn expanded_record(dependency: &Dependency) -> (m: Message)
    ensures
        m@ == spec_expanded_record(*dependency),
{
    let cells = cells_in_order(dependency);
    let ghost order = cells@;
    let mut edges: Vec<Field> = Vec::new();
    let mut i: usize = 0;
    while i < cells.len()
        invariant
            i <= cells@.len(),
            fields_view(edges@) == Seq::new(i as nat, |k: int| spec_varint(1, cells@[k].0 as u64)),
        decreases cells@.len() - i,
    {
        let ghost before = edges@;
        let f = varint(1, cells[i].0 as u64);
        edges.push(f);
        proof {
            crate::create::lemma_fields_view_push(before, f);
        }
        assert(fields_view(edges@) =~= Seq::new((i + 1) as nat, |k: int| spec_varint(1, cells@[k].0 as u64)));
        i = i + 1;
    }
    let ghost rows = fields_view(edges@);
    let mut j: usize = 0;
    while j < cells.len()
        invariant
            j <= cells@.len(),
            fields_view(edges@) == rows + Seq::new(j as nat, |k: int| spec_varint(2, cells@[k].1 as u64)),
        decreases cells@.len() - j,
    {
        let ghost before = edges@;
        let f = varint(2, cells[j].1 as u64);
        edges.push(f);
        proof {
            crate::create::lemma_fields_view_push(before, f);
        }
        assert(fields_view(edges@) =~= rows + Seq::new(
            (j + 1) as nat,
            |k: int| spec_varint(2, cells@[k].1 as u64),
        ));
        j = j + 1;
    }
    assert(fields_view(edges@) =~= edge_fields(order));
    let mut fields: Vec<Field> = Vec::new();
    fields.push(varint(1, dependency.column as u64));
    fields.push(varint(2, dependency.row as u64));
    fields.push(nested(6, edges));
    assert(fields_view(fields@) =~= spec_expanded_record(*dependency));
    message(fields)
}

/// **A record names every precedent once, its row and its column side by
/// side.** The edges are the rows of all the precedents and then their
/// columns, in one order — by row, then by column — so that the `i`th row
/// and the `i`th column are one cell's, and every cell the formula reads is
/// one such pair.
pub proof fn law_record_edges_pair_up(dependency: Dependency)
    ensures
        precedents_in_order(dependency).to_set() == dependency.precedents@,
        precedents_in_order(dependency).no_duplicates(),
        cells_increasing(precedents_in_order(dependency)),
        edge_fields(precedents_in_order(dependency)).len() == 2 * precedents_in_order(dependency).len(),
        forall|i: int|
            #![trigger precedents_in_order(dependency)[i]]
            0 <= i < precedents_in_order(dependency).len() ==> {
                let cells = precedents_in_order(dependency);
                &&& edge_fields(cells)[i] == spec_varint(1, cells[i].0 as u64)
                &&& edge_fields(cells)[cells.len() + i] == spec_varint(2, cells[i].1 as u64)
            },
{
    lemma_walk_order(&dependency.precedents);
    let cells = precedents_in_order(dependency);
    assert forall|i: int, j: int| 0 <= i < cells.len() && 0 <= j < cells.len() && i != j implies cells[i]
        != cells[j] by {
        if i < j {
            assert(cell_before(cells[i], cells[j]));
        } else {
            assert(cell_before(cells[j], cells[i]));
        }
    }
}

// -- finding the engine and the owner ------------------------------------------------

/// The first object of a message type.
pub open spec fn spec_object_of_type(objects: Seq<(String, ArchiveObject)>, message_type: u32) -> Option<u64>
    decreases objects.len(),
{
    if objects.len() == 0 {
        None
    } else if objects[0].1.message_type == message_type {
        Some(objects[0].1.identifier)
    } else {
        spec_object_of_type(objects.drop_first(), message_type)
    }
}

pub fn object_of_type(objects: &Vec<(String, ArchiveObject)>, message_type: u32) -> (r: Option<u64>)
    ensures
        r == spec_object_of_type(objects@, message_type),
{
    let mut i: usize = 0;
    assert(objects@.skip(0) =~= objects@);
    while i < objects.len()
        invariant
            i <= objects@.len(),
            spec_object_of_type(objects@, message_type) == spec_object_of_type(objects@.skip(i as int), message_type),
        decreases objects@.len() - i,
    {
        assert(objects@.skip(i as int).drop_first() =~= objects@.skip(i + 1));
        assert(objects@.skip(i as int)[0] == objects@[i as int]);
        if objects[i].1.message_type == message_type {
            return Some(objects[i].1.identifier);
        }
        i = i + 1;
    }
    None
}

/// The owner id an object gives, when it is a `FormulaOwnerDependenciesArchive`
/// whose `formula_owner_uid` (1) is the table's base owner UID and which has an
/// `internal_formula_owner_id` (2).
pub open spec fn owner_id(object: ArchiveObject, base: Uuid) -> Option<u64> {
    if object.message_type != TYPE_OWNER_DEPENDENCIES {
        None
    } else {
        match fields_of(object.payload@) {
            Some(archive) => match nested_field(archive, 1) {
                Some(uid) => if varint_field(uid, 1) == Some(base.lower) && varint_field(uid, 2) == Some(
                    base.upper,
                ) {
                    varint_field(archive, 2)
                } else {
                    None
                },
                None => None,
            },
            None => None,
        }
    }
}

/// The first object that owns a table's cells, with the owner id it gives.
pub open spec fn spec_cell_owner(objects: Seq<(String, ArchiveObject)>, base: Uuid) -> Option<(u64, u64)>
    decreases objects.len(),
{
    if objects.len() == 0 {
        None
    } else {
        match owner_id(objects[0].1, base) {
            Some(id) => Some((objects[0].1.identifier, id)),
            None => spec_cell_owner(objects.drop_first(), base),
        }
    }
}

/// The `FormulaOwnerDependenciesArchive` that owns a table's cells, and its
/// owner id: of the several a table has, the one whose `formula_owner_uid` is
/// the table's base owner UID.
pub fn cell_owner(objects: &Vec<(String, ArchiveObject)>, base: &Uuid) -> (r: Option<(u64, u64)>)
    ensures
        r == spec_cell_owner(objects@, *base),
{
    let mut i: usize = 0;
    assert(objects@.skip(0) =~= objects@);
    while i < objects.len()
        invariant
            i <= objects@.len(),
            spec_cell_owner(objects@, *base) == spec_cell_owner(objects@.skip(i as int), *base),
        decreases objects@.len() - i,
    {
        assert(objects@.skip(i as int).drop_first() =~= objects@.skip(i + 1));
        assert(objects@.skip(i as int)[0] == objects@[i as int]);
        let object = &objects[i].1;
        if object.message_type == TYPE_OWNER_DEPENDENCIES {
            if let Ok(archive) = Message::decode(object.payload.as_slice()) {
                if let Some(uid) = crate::formula::nested(&archive, 1) {
                    if uid.varint(1) == Some(base.lower) && uid.varint(2) == Some(base.upper) {
                        if let Some(id) = archive.varint(2) {
                            return Some((object.identifier, id));
                        }
                    }
                }
            }
        }
        i = i + 1;
    }
    None
}

/// The cells collected from a prefix of a stream are among those collected
/// from the whole: a later node only ever adds cells or stops the walk.
proof fn lemma_collected_grows(ns: Seq<NodeView>, row: usize, column: usize, k: int)
    requires
        0 <= k <= ns.len(),
        collect_precedents(ns, row, column) is Cells,
    ensures
        match (collect_precedents(ns.take(k), row, column), collect_precedents(ns, row, column)) {
            (Collected::Cells(part), Collected::Cells(all)) => part.subset_of(all),
            _ => false,
        },
    decreases ns.len(),
{
    if k == ns.len() {
        assert(ns.take(k) =~= ns);
    } else {
        let rest = ns.drop_last();
        match collect_precedents(rest, row, column) {
            Collected::Cells(c) => {
                assert(ns.drop_last().take(k) =~= ns.take(k));
                lemma_collected_grows(rest, row, column, k);
            },
            _ => {},
        }
    }
}

/// A stream whose last node is a bounded reference of its own table collects,
/// when it collects at all, every cell of that reference's rectangle.
#[verifier::spinoff_prover]
proof fn lemma_last_step_adds(
    ns: Seq<NodeView>,
    row: usize,
    column: usize,
    reference: Reference,
    first_row: usize,
    last_row: usize,
    first_column: usize,
    last_column: usize,
)
    requires
        ns.len() > 0,
        spec_reference(ns.last()) == Some(reference),
        !reference.is_error,
        reference.table is None,
        resolve_index(reference.row, row) == Some(Some(first_row)),
        resolve_index(reference.column, column) == Some(Some(first_column)),
        resolve_index(reference.row_end, row) == Some(Some(last_row)),
        resolve_index(reference.column_end, column) == Some(Some(last_column)),
    ensures
        match collect_precedents(ns, row, column) {
            Collected::Cells(cells) => forall|r: usize, c: usize|
                first_row <= r <= last_row && first_column <= c <= last_column ==> #[trigger] cells.contains((r, c)),
            _ => true,
        },
{
    match collect_precedents(ns.drop_last(), row, column) {
        Collected::Cells(part) => {
            lemma_step_adds(part, ns.last(), row, column, reference, first_row, last_row, first_column, last_column);
        },
        _ => {},
    }
}

proof fn lemma_step_adds(
    cells: Set<(usize, usize)>,
    n: NodeView,
    row: usize,
    column: usize,
    reference: Reference,
    first_row: usize,
    last_row: usize,
    first_column: usize,
    last_column: usize,
)
    requires
        spec_reference(n) == Some(reference),
        !reference.is_error,
        reference.table is None,
        resolve_index(reference.row, row) == Some(Some(first_row)),
        resolve_index(reference.column, column) == Some(Some(first_column)),
        resolve_index(reference.row_end, row) == Some(Some(last_row)),
        resolve_index(reference.column_end, column) == Some(Some(last_column)),
    ensures
        match collect_step(cells, n, row, column) {
            Collected::Cells(after) => forall|r: usize, c: usize|
                first_row <= r <= last_row && first_column <= c <= last_column ==> #[trigger] after.contains((r, c)),
            _ => true,
        },
{
}

/// **A range is every cell in it.** When a formula's precedents can be
/// collected, a reference of its own table whose axes resolve against the
/// formula's cell to rows `first_row..=last_row` and columns
/// `first_column..=last_column` contributes every cell of that rectangle: each
/// `(r, c)` with `first_row <= r <= last_row` and `first_column <= c <=
/// last_column` is among the cells read.
#[verifier::spinoff_prover]
pub proof fn law_a_range_is_every_cell_in_it(
    ns: Seq<NodeView>,
    row: usize,
    column: usize,
    k: int,
    reference: Reference,
    first_row: usize,
    last_row: usize,
    first_column: usize,
    last_column: usize,
)
    requires
        0 <= k < ns.len(),
        spec_reference(ns[k]) == Some(reference),
        !reference.is_error,
        reference.table is None,
        resolve_index(reference.row, row) == Some(Some(first_row)),
        resolve_index(reference.column, column) == Some(Some(first_column)),
        resolve_index(reference.row_end, row) == Some(Some(last_row)),
        resolve_index(reference.column_end, column) == Some(Some(last_column)),
        collect_precedents(ns, row, column) is Cells,
    ensures
        match collect_precedents(ns, row, column) {
            Collected::Cells(cells) => forall|r: usize, c: usize|
                first_row <= r <= last_row && first_column <= c <= last_column ==> #[trigger] cells.contains((r, c)),
            _ => false,
        },
{
    lemma_collected_grows(ns, row, column, k + 1);
    let through = ns.take(k + 1);
    lemma_last_step_adds(through, row, column, reference, first_row, last_row, first_column, last_column);
}

/// **A formula that reaches another table, or a stored `#REF!`, is not
/// registered.** No edge of this module can name such a reference, so
/// collecting the precedents of a formula with one never gives cells.
pub proof fn law_other_tables_are_refused(
    ns: Seq<NodeView>,
    row: usize,
    column: usize,
    k: int,
    reference: Reference,
)
    requires
        0 <= k < ns.len(),
        spec_reference(ns[k]) == Some(reference),
        reference.is_error || reference.table is Some,
    ensures
        !(collect_precedents(ns, row, column) is Cells),
{
    let through = ns.take(k + 1);
    assert(through.drop_last() =~= ns.take(k));
    assert(through.last() == ns[k]);
    lemma_collect_prefix(ns, row, column, k + 1);
}

} // verus!
