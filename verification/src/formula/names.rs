//! How a formula names what it refers to: tables, header names, A1 notation.
//!
//! A reference is stored as coordinates and, across tables, a UUID. Printing
//! it the way Numbers does needs what the document knows about its tables —
//! their names, and the header cells that give rows and columns names — and
//! the rules the app follows when it picks a spelling: a name only when it
//! identifies one row or column, a table prefix only when the name is not the
//! first table's to use, quotes only around a name that would otherwise read
//! as part of the formula.

use vstd::prelude::*;
use vstd::string::StrSliceExecFns;

use crate::chars::{decimal, push_signed, push_str, signed_decimal, to_string};
use crate::formula::Uuid;

verus! {

// -- header names ----------------------------------------------------------------

/// The text of an optional name.
pub open spec fn opt_text(o: Option<String>) -> Option<Seq<char>> {
    match o {
        Some(s) => Some(s@),
        None => None,
    }
}

/// The texts of a list of optional names.
pub open spec fn texts(v: Seq<Option<String>>) -> Seq<Option<Seq<char>>> {
    v.map_values(|o: Option<String>| opt_text(o))
}

/// How many entries of `ns` are the name `t`.
pub open spec fn occurrences(ns: Seq<Option<Seq<char>>>, t: Seq<char>) -> nat
    decreases ns.len(),
{
    if ns.len() == 0 {
        0
    } else {
        occurrences(ns.drop_last(), t) + if ns.last() == Some(t) {
            1nat
        } else {
            0nat
        }
    }
}

/// `ns` with every name that more than one entry carries taken out.
pub open spec fn unambiguous(ns: Seq<Option<Seq<char>>>) -> Seq<Option<Seq<char>>> {
    Seq::new(
        ns.len(),
        |i: int|
            match ns[i] {
                Some(t) => if occurrences(ns, t) > 1 {
                    None
                } else {
                    Some(t)
                },
                None => None,
            },
    )
}

/// What a table looks like to a formula: its identity, its name, and the header
/// cells that give its rows and columns names.
#[derive(Debug, Clone)]
pub struct TableNames {
    /// `base_owner_uid` — the identity every cross-table reference is written
    /// with. Not the table's name and not its `table_id`.
    pub uid: Uuid,
    pub name: String,
    pub sheet: Option<String>,
    pub header_rows: usize,
    pub header_columns: usize,
    /// Text of the naming header cell of each column, where it has one.
    pub column_names: Vec<Option<String>>,
    /// Text of the naming header cell of each row.
    pub row_names: Vec<Option<String>>,
}

impl TableNames {
    pub open spec fn columns(&self) -> Seq<Option<Seq<char>>> {
        texts(self.column_names@)
    }

    pub open spec fn rows(&self) -> Seq<Option<Seq<char>>> {
        texts(self.row_names@)
    }

    /// `other` with its ambiguous names dropped, and otherwise the same.
    pub open spec fn is_unambiguous_of(&self, other: TableNames) -> bool {
        &&& self.uid == other.uid
        &&& self.name@ == other.name@
        &&& opt_text(self.sheet) == opt_text(other.sheet)
        &&& self.header_rows == other.header_rows
        &&& self.header_columns == other.header_columns
        &&& self.columns() == unambiguous(other.columns())
        &&& self.rows() == unambiguous(other.rows())
    }
}

impl Default for TableNames {
    fn default() -> (r: TableNames)
        ensures
            r.uid == (Uuid { lower: 0, upper: 0 }),
            r.name@ == Seq::<char>::empty(),
            r.sheet is None,
            r.header_rows == 0,
            r.header_columns == 0,
            r.column_names@.len() == 0,
            r.row_names@.len() == 0,
    {
        TableNames {
            uid: Uuid { lower: 0, upper: 0 },
            name: String::new(),
            sheet: None,
            header_rows: 0,
            header_columns: 0,
            column_names: Vec::new(),
            row_names: Vec::new(),
        }
    }
}

/// How many entries of `names` are `name`.
fn count_name(names: &Vec<Option<String>>, name: &String) -> (r: usize)
    ensures
        r == occurrences(texts(names@), name@),
{
    let mut count: usize = 0;
    let mut i: usize = 0;
    while i < names.len()
        invariant
            i <= names@.len(),
            count <= i,
            count == occurrences(texts(names@).take(i as int), name@),
        decreases names@.len() - i,
    {
        assert(texts(names@).take(i + 1).drop_last() =~= texts(names@).take(i as int));
        assert(texts(names@).take(i + 1).last() == opt_text(names@[i as int]));
        match &names[i] {
            Some(s) => {
                if *s == *name {
                    count = count + 1;
                }
            },
            None => {},
        }
        i = i + 1;
    }
    assert(texts(names@).take(names@.len() as int) =~= texts(names@));
    count
}

/// A copy of `names` without the names that occur more than once.
fn unambiguous_names(names: &Vec<Option<String>>) -> (r: Vec<Option<String>>)
    ensures
        texts(r@) == unambiguous(texts(names@)),
{
    let mut out: Vec<Option<String>> = Vec::new();
    let mut i: usize = 0;
    while i < names.len()
        invariant
            i <= names@.len(),
            out@.len() == i,
            forall|k: int| 0 <= k < i ==> opt_text(#[trigger] out@[k]) == unambiguous(texts(names@))[k],
        decreases names@.len() - i,
    {
        match &names[i] {
            Some(s) => {
                if count_name(names, s) > 1 {
                    out.push(None);
                } else {
                    out.push(Some(s.clone()));
                }
            },
            None => {
                out.push(None);
            },
        }
        i = i + 1;
    }
    assert(texts(out@) =~= unambiguous(texts(names@)));
    out
}

/// The name of column `column`: only body columns of a table with header rows
/// have one.
pub open spec fn spec_column_name(t: TableNames, column: i64) -> Option<Seq<char>> {
    if t.header_rows == 0 || column < (t.header_columns as i64) {
        None
    } else if 0 <= column < t.column_names@.len() {
        t.columns()[column as int]
    } else {
        None
    }
}

/// The name of row `row`: only body rows of a table with header columns have
/// one.
pub open spec fn spec_row_name(t: TableNames, row: i64) -> Option<Seq<char>> {
    if t.header_columns == 0 || row < (t.header_rows as i64) {
        None
    } else if 0 <= row < t.row_names@.len() {
        t.rows()[row as int]
    } else {
        None
    }
}

/// The entry at `index`, when there is one and it is a name.
fn name_at(names: &Vec<Option<String>>, index: i64) -> (r: Option<&str>)
    ensures
        match (if 0 <= index < names@.len() {
            texts(names@)[index as int]
        } else {
            None
        }) {
            Some(t) => r matches Some(s) && s@ == t,
            None => r is None,
        },
{
    if index < 0 || (index as u64) >= (names.len() as u64) {
        return None;
    }
    match &names[index as usize] {
        Some(s) => Some(s.as_str()),
        None => None,
    }
}

impl TableNames {
    /// Drop every name that more than one row or column of this table carries.
    ///
    /// **A name has to identify one row or column of its table or the app will
    /// not use it.** Eleven rows whose header cell all read `Item name` make
    /// Numbers print `=C2×D2` rather than a name that would stand for ten cells
    /// at once. Rows whose header is unique keep their name in the same table.
    pub fn drop_ambiguous(&mut self)
        ensures
            final(self).is_unambiguous_of(*old(self)),
    {
        let columns = unambiguous_names(&self.column_names);
        let rows = unambiguous_names(&self.row_names);
        self.column_names = columns;
        self.row_names = rows;
    }

    /// The name of a column, which only body columns of a table with header
    /// rows have.
    pub fn column_name(&self, column: i64) -> (r: Option<&str>)
        ensures
            match spec_column_name(*self, column) {
                Some(t) => r matches Some(s) && s@ == t,
                None => r is None,
            },
    {
        if self.header_rows == 0 || column < self.header_columns as i64 {
            return None;
        }
        name_at(&self.column_names, column)
    }

    /// The name of a row, which only body rows of a table with header columns
    /// have.
    pub fn row_name(&self, row: i64) -> (r: Option<&str>)
        ensures
            match spec_row_name(*self, row) {
                Some(t) => r matches Some(s) && s@ == t,
                None => r is None,
            },
    {
        if self.header_columns == 0 || row < self.header_rows as i64 {
            return None;
        }
        name_at(&self.row_names, row)
    }
}

// -- the document's tables ---------------------------------------------------------

/// Every table in the document, and what printing a formula needs besides.
#[derive(Debug, Clone)]
pub struct Names {
    /// In the order names are claimed in: where two tables carry the same
    /// header name, the first keeps it bare.
    pub tables: Vec<TableNames>,
    /// Function index → the name the app prints for it.
    pub functions: Vec<(u32, String)>,
    /// The printed text of each binary double a formula may show, keyed by its
    /// eight little-endian bytes. Rendering a double is the caller's to do.
    pub doubles: Vec<([u8; 8], String)>,
}

impl Default for Names {
    fn default() -> (r: Names)
        ensures
            r.tables@.len() == 0,
            r.functions@.len() == 0,
            r.doubles@.len() == 0,
    {
        Names { tables: Vec::new(), functions: Vec::new(), doubles: Vec::new() }
    }
}

/// Whether `i` is the first table with identity `uid`.
pub open spec fn is_first_uid(ts: Seq<TableNames>, uid: Uuid, i: int) -> bool {
    &&& 0 <= i < ts.len()
    &&& ts[i].uid == uid
    &&& forall|j: int| 0 <= j < i ==> ts[j].uid != uid
}

/// The first table with identity `uid`.
pub open spec fn spec_by_uid(ts: Seq<TableNames>, uid: Uuid) -> Option<int> {
    if exists|i: int| is_first_uid(ts, uid, i) {
        Some(choose|i: int| is_first_uid(ts, uid, i))
    } else {
        None
    }
}

/// Whether table `t` carries `name` on a column or a row.
pub open spec fn holds_name(t: TableNames, name: Seq<char>) -> bool {
    t.columns().contains(Some(name)) || t.rows().contains(Some(name))
}

/// Whether `table` is the first of `ts` to carry `name` — the one that gets to
/// use it without a prefix.
pub open spec fn spec_owns(ts: Seq<TableNames>, table: int, name: Seq<char>) -> bool {
    &&& 0 <= table < ts.len()
    &&& holds_name(ts[table], name)
    &&& forall|j: int| 0 <= j < table ==> !holds_name(ts[j], name)
}

/// Whether `s` holds the characters `t`.
fn text_is(s: &String, t: &Vec<char>) -> (r: bool)
    ensures
        r == (s@ == t@),
{
    let u = s.as_str();
    let n = u.unicode_len();
    if n != t.len() {
        return false;
    }
    let mut i: usize = 0;
    while i < n
        invariant
            n == u@.len(),
            u@ == s@,
            n == t@.len(),
            i <= n,
            forall|k: int| 0 <= k < i ==> u@[k] == t@[k],
        decreases n - i,
    {
        if u.get_char(i) != t[i] {
            return false;
        }
        i = i + 1;
    }
    assert(s@ =~= t@);
    true
}

/// Whether one of `names` is `name`.
fn carries(names: &Vec<Option<String>>, name: &Vec<char>) -> (r: bool)
    ensures
        r == texts(names@).contains(Some(name@)),
{
    let mut i: usize = 0;
    while i < names.len()
        invariant
            i <= names@.len(),
            forall|k: int| 0 <= k < i ==> texts(names@)[k] != Some(name@),
        decreases names@.len() - i,
    {
        match &names[i] {
            Some(s) => {
                if text_is(s, name) {
                    assert(texts(names@)[i as int] == Some(name@));
                    return true;
                }
            },
            None => {},
        }
        i = i + 1;
    }
    false
}

fn table_holds(t: &TableNames, name: &Vec<char>) -> (r: bool)
    ensures
        r == holds_name(*t, name@),
{
    carries(&t.column_names, name) || carries(&t.row_names, name)
}

impl Names {
    /// Build the index. The order of `tables` is the order names are claimed
    /// in: where two tables carry the same header name, the **first** keeps it
    /// bare and the others are prefixed with their table's name.
    pub fn new(tables: Vec<TableNames>) -> (r: Names)
        ensures
            r.tables@.len() == tables@.len(),
            forall|i: int| 0 <= i < tables@.len() ==> #[trigger] r.tables@[i].is_unambiguous_of(tables@[i]),
            r.functions@.len() == 0,
            r.doubles@.len() == 0,
    {
        let ghost given = tables@;
        let mut rest = tables;
        let mut out: Vec<TableNames> = Vec::new();
        while rest.len() > 0
            invariant
                out@.len() + rest@.len() == given.len(),
                rest@ == given.subrange(out@.len() as int, given.len() as int),
                forall|i: int| 0 <= i < out@.len() ==> #[trigger] out@[i].is_unambiguous_of(given[i]),
            decreases rest@.len(),
        {
            let mut table = rest.remove(0);
            table.drop_ambiguous();
            out.push(table);
        }
        Names { tables: out, functions: Vec::new(), doubles: Vec::new() }
    }

    /// The first table with identity `uid`.
    pub fn by_uid(&self, uid: Uuid) -> (r: Option<usize>)
        ensures
            match spec_by_uid(self.tables@, uid) {
                Some(i) => r matches Some(j) && j == i,
                None => r is None,
            },
    {
        let mut i: usize = 0;
        while i < self.tables.len()
            invariant
                i <= self.tables@.len(),
                forall|j: int| 0 <= j < i ==> self.tables@[j].uid != uid,
            decreases self.tables@.len() - i,
        {
            if self.tables[i].uid == uid {
                assert(is_first_uid(self.tables@, uid, i as int));
                return Some(i);
            }
            i = i + 1;
        }
        assert(!exists|j: int| is_first_uid(self.tables@, uid, j));
        None
    }

    /// Whether `table` is the first table to carry `name`.
    pub fn owns(&self, table: usize, name: &Vec<char>) -> (r: bool)
        ensures
            r == spec_owns(self.tables@, table as int, name@),
    {
        if table >= self.tables.len() {
            return false;
        }
        let mut j: usize = 0;
        while j < table
            invariant
                table < self.tables@.len(),
                j <= table,
                forall|k: int| 0 <= k < j ==> !holds_name(self.tables@[k], name@),
            decreases table - j,
        {
            if table_holds(&self.tables[j], name) {
                return false;
            }
            j = j + 1;
        }
        table_holds(&self.tables[table], name)
    }
}

/// Where a formula sits: the document's tables, which one holds this formula,
/// and the cell the relative references count from.
#[derive(Debug, Clone, Copy)]
pub struct Site<'a> {
    pub names: &'a Names,
    /// Index into `names.tables`, when the formula belongs to a table.
    pub table: Option<usize>,
    /// Host cell, zero-based. A formula in a data list has none of its own and
    /// takes the position of the cell that keys it.
    pub host: (i64, i64),
}

impl<'a> Site<'a> {
    pub fn new(names: &'a Names, table: Option<usize>, host: (i64, i64)) -> (r: Site<'a>)
        ensures
            r.names == names,
            r.table == table,
            r.host == host,
    {
        Site { names, table, host }
    }

    /// A site with no tables at all — enough to print a formula that makes no
    /// reference, and honest about the ones it cannot resolve.
    pub fn anonymous(names: &'a Names) -> (r: Site<'a>)
        ensures
            r.names == names,
            r.table is None,
            r.host == (0i64, 0i64),
    {
        Site { names, table: None, host: (0, 0) }
    }
}

// -- function names ----------------------------------------------------------------

/// Whether `i` is the first entry of `table` for function `index`.
pub open spec fn is_first_function(table: Seq<(u32, String)>, index: u32, i: int) -> bool {
    &&& 0 <= i < table.len()
    &&& table[i].0 == index
    &&& forall|j: int| 0 <= j < i ==> table[j].0 != index
}

/// The name `table` gives function `index`.
pub open spec fn spec_function_name(table: Seq<(u32, String)>, index: u32) -> Option<Seq<char>> {
    if exists|i: int| is_first_function(table, index, i) {
        Some(table[choose|i: int| is_first_function(table, index, i)].1@)
    } else {
        None
    }
}

/// The app's name for a function index.
///
/// **Function names are not localised.** A German-locale machine reports
/// `SUM`, `VLOOKUP` and `IFERROR`, and separates arguments with a comma; the
/// only spellings Numbers localises in a formula are its *operators*, and
/// those are the same in every locale too.
pub fn function_name(table: &Vec<(u32, String)>, index: u32) -> (r: Option<&str>)
    ensures
        match spec_function_name(table@, index) {
            Some(t) => r matches Some(s) && s@ == t,
            None => r is None,
        },
{
    let mut i: usize = 0;
    while i < table.len()
        invariant
            i <= table@.len(),
            forall|j: int| 0 <= j < i ==> table@[j].0 != index,
        decreases table@.len() - i,
    {
        if table[i].0 == index {
            assert(is_first_function(table@, index, i as int));
            return Some(table[i].1.as_str());
        }
        i = i + 1;
    }
    assert(!exists|j: int| is_first_function(table@, index, j));
    None
}

// -- quoting -----------------------------------------------------------------------

/// Characters that make Numbers wrap a header name in single quotes: the
/// formula grammar's operators and delimiters. A space does not, and neither
/// does a function's name.
pub open spec fn needs_quoting(c: char) -> bool {
    c == '+' || c == '-' || c == '*' || c == '/' || c == '^' || c == '&' || c == '%' || c == '='
        || c == '<' || c == '>' || c == '(' || c == ')' || c == ',' || c == ';' || c == ':' || c
        == '"' || c == '\'' || c == '$' || c == '#' || c == '{' || c == '}' || c == '\u{d7}' || c
        == '\u{f7}' || c == '\u{2212}' || c == '\u{2260}' || c == '\u{2265}' || c == '\u{2264}'
}

fn is_quoting_char(c: char) -> (r: bool)
    ensures
        r == needs_quoting(c),
{
    c == '+' || c == '-' || c == '*' || c == '/' || c == '^' || c == '&' || c == '%' || c == '='
        || c == '<' || c == '>' || c == '(' || c == ')' || c == ',' || c == ';' || c == ':' || c
        == '"' || c == '\'' || c == '$' || c == '#' || c == '{' || c == '}' || c == '\u{d7}' || c
        == '\u{f7}' || c == '\u{2212}' || c == '\u{2260}' || c == '\u{2265}' || c == '\u{2264}'
}

/// `s` with every `q` written twice.
pub open spec fn doubled(s: Seq<char>, q: char) -> Seq<char>
    decreases s.len(),
{
    if s.len() == 0 {
        Seq::empty()
    } else {
        doubled(s.drop_last(), q) + if s.last() == q {
            seq![q, q]
        } else {
            seq![s.last()]
        }
    }
}

/// A header name as a formula spells it: in single quotes, with an embedded
/// quote doubled, when one of its characters would otherwise read as part of
/// the formula; bare otherwise.
pub open spec fn spec_quote_name(s: Seq<char>) -> Seq<char> {
    if exists|i: int| 0 <= i < s.len() && needs_quoting(#[trigger] s[i]) {
        seq!['\''] + doubled(s, '\'') + seq!['\'']
    } else {
        s
    }
}

/// Appends `s` with every `q` doubled.
pub fn push_doubled(out: &mut Vec<char>, s: &str, q: char)
    ensures
        final(out)@ == old(out)@ + doubled(s@, q),
{
    let ghost start = out@;
    let n = s.unicode_len();
    let mut i: usize = 0;
    while i < n
        invariant
            n == s@.len(),
            i <= n,
            out@ == start + doubled(s@.take(i as int), q),
        decreases n - i,
    {
        let c = s.get_char(i);
        assert(s@.take(i + 1).drop_last() =~= s@.take(i as int));
        if c == q {
            out.push(q);
            out.push(q);
        } else {
            out.push(c);
        }
        assert(out@ =~= start + doubled(s@.take(i + 1), q));
        i = i + 1;
    }
    assert(s@.take(n as int) =~= s@);
}

/// Appends a header name as a formula spells it.
pub fn push_quoted(out: &mut Vec<char>, name: &str)
    ensures
        final(out)@ == old(out)@ + spec_quote_name(name@),
{
    let n = name.unicode_len();
    let mut i: usize = 0;
    let mut quote = false;
    while i < n && !quote
        invariant
            n == name@.len(),
            i <= n,
            quote ==> 0 < i && needs_quoting(name@[i - 1]),
            !quote ==> forall|k: int| 0 <= k < i ==> !needs_quoting(#[trigger] name@[k]),
        decreases n - i,
    {
        if is_quoting_char(name.get_char(i)) {
            quote = true;
        }
        i = i + 1;
    }
    if quote {
        out.push('\'');
        push_doubled(out, name, '\'');
        out.push('\'');
        assert(out@ =~= old(out)@ + spec_quote_name(name@));
    } else {
        push_str(out, name);
    }
}

/// A header name as a formula spells it.
pub fn quote_name(name: &str) -> (r: String)
    ensures
        r@ == spec_quote_name(name@),
{
    let mut out: Vec<char> = Vec::new();
    push_quoted(&mut out, name);
    assert(out@ =~= spec_quote_name(name@));
    to_string(&out)
}

// -- A1 notation ---------------------------------------------------------------------

/// The letter for `d`, which is below 26: 0 is `A`.
pub open spec fn letter(d: nat) -> char {
    (65 + d) as char
}

/// A column number counted from one, in the app's letters: 1 is `A`, 26 is
/// `Z`, 27 is `AA` — bijective base 26.
pub open spec fn letters(n: nat) -> Seq<char>
    decreases n,
{
    if n == 0 {
        Seq::empty()
    } else {
        letters(((n - 1) / 26) as nat) + seq![letter(((n - 1) % 26) as nat)]
    }
}

/// A zero-based column index as letters, and `#REF!` for a negative one.
pub open spec fn spec_column_letters(column: int) -> Seq<char> {
    if column < 0 {
        "#REF!"@
    } else {
        letters((column + 1) as nat)
    }
}

fn letter_char(d: u64) -> (c: char)
    requires
        d < 26,
    ensures
        c == letter(d as nat),
{
    let b: u8 = 65 + d as u8;
    b as char
}

pub fn push_letters(out: &mut Vec<char>, n: u64)
    ensures
        final(out)@ == old(out)@ + letters(n as nat),
    decreases n,
{
    if n == 0 {
        assert(old(out)@ + letters(0) =~= old(out)@);
        return;
    }
    push_letters(out, (n - 1) / 26);
    out.push(letter_char((n - 1) % 26));
    assert(out@ =~= old(out)@ + letters(n as nat));
}

/// Appends a zero-based column index as letters.
pub fn push_column_letters(out: &mut Vec<char>, column: i64)
    requires
        column < i64::MAX,
    ensures
        final(out)@ == old(out)@ + spec_column_letters(column as int),
{
    if column < 0 {
        push_str(out, "#REF!");
    } else {
        push_letters(out, (column + 1) as u64);
    }
}

/// Zero-based column index as letters: 0 is A, 25 is Z, 26 is AA.
pub fn column_letters(column: i64) -> (r: String)
    requires
        column < i64::MAX,
    ensures
        r@ == spec_column_letters(column as int),
{
    let mut out: Vec<char> = Vec::new();
    push_column_letters(&mut out, column);
    assert(out@ =~= spec_column_letters(column as int));
    to_string(&out)
}

/// `$` for an absolute axis, nothing for a relative one.
pub open spec fn dollar(absolute: bool) -> Seq<char> {
    if absolute {
        seq!['$']
    } else {
        Seq::empty()
    }
}

/// A1 notation from zero-based indices. An unbounded axis drops out, which is
/// how `B` (a whole column) and `2:2` (a whole row) are written.
pub open spec fn spec_a1(column: Option<i64>, row: Option<i64>, column_absolute: bool, row_absolute: bool) -> Seq<char> {
    let c = match column {
        Some(c) => dollar(column_absolute) + spec_column_letters(c as int),
        None => Seq::empty(),
    };
    let r = match row {
        Some(r) => dollar(row_absolute) + signed_decimal(r + 1),
        None => Seq::empty(),
    };
    if (c + r).len() == 0 {
        "#REF!"@
    } else {
        c + r
    }
}

/// Whether `a1` can print these indices: the row is printed counted from one
/// and the column is turned into letters counted from one.
pub open spec fn a1_fits(column: Option<i64>, row: Option<i64>) -> bool {
    &&& column != Some(i64::MAX)
    &&& row != Some(i64::MAX)
}

/// Appends A1 notation for zero-based indices.
pub fn push_a1(out: &mut Vec<char>, column: Option<i64>, row: Option<i64>, column_absolute: bool, row_absolute: bool)
    requires
        a1_fits(column, row),
    ensures
        final(out)@ == old(out)@ + spec_a1(column, row, column_absolute, row_absolute),
{
    let mut text: Vec<char> = Vec::new();
    match column {
        Some(c) => {
            if column_absolute {
                text.push('$');
            }
            push_column_letters(&mut text, c);
            assert(text@ =~= dollar(column_absolute) + spec_column_letters(c as int));
        },
        None => {},
    }
    let ghost after_column = text@;
    match row {
        Some(r) => {
            if row_absolute {
                text.push('$');
            }
            push_signed(&mut text, r + 1);
            assert(text@ =~= after_column + dollar(row_absolute) + signed_decimal(r + 1));
        },
        None => {},
    }
    let ghost c = match column {
        Some(c) => dollar(column_absolute) + spec_column_letters(c as int),
        None => Seq::<char>::empty(),
    };
    let ghost r = match row {
        Some(r) => dollar(row_absolute) + signed_decimal(r + 1),
        None => Seq::<char>::empty(),
    };
    assert(after_column =~= c);
    assert(text@ =~= c + r);
    if text.len() == 0 {
        push_str(out, "#REF!");
    } else {
        let mut i: usize = 0;
        let ghost start = out@;
        while i < text.len()
            invariant
                i <= text@.len(),
                out@ == start + text@.take(i as int),
            decreases text@.len() - i,
        {
            out.push(text[i]);
            assert(text@.take(i + 1) =~= text@.take(i as int).push(text@[i as int]));
            i = i + 1;
        }
        assert(text@.take(text@.len() as int) =~= text@);
    }
}

// -- reading A1 back ----------------------------------------------------------------

pub open spec fn is_ascii_letter(c: char) -> bool {
    ('a' <= c && c <= 'z') || ('A' <= c && c <= 'Z')
}

/// A letter's place in the alphabet, counted from one, in either case.
pub open spec fn letter_value(c: char) -> nat {
    if 'a' <= c && c <= 'z' {
        (c as int - 'a' as int + 1) as nat
    } else {
        (c as int - 'A' as int + 1) as nat
    }
}

/// Letters read back as the column number they spell, counted from one.
pub open spec fn letters_value(s: Seq<char>) -> nat
    decreases s.len(),
{
    if s.len() == 0 {
        0
    } else {
        letters_value(s.drop_last()) * 26 + letter_value(s.last())
    }
}

/// How many letters `s` starts with.
pub open spec fn letter_run(s: Seq<char>) -> nat
    decreases s.len(),
{
    if s.len() == 0 || !is_ascii_letter(s[0]) {
        0
    } else {
        1 + letter_run(s.drop_first())
    }
}

pub open spec fn is_digit(c: char) -> bool {
    '0' <= c && c <= '9'
}

pub open spec fn digits_value(s: Seq<char>) -> nat
    decreases s.len(),
{
    if s.len() == 0 {
        0
    } else {
        digits_value(s.drop_last()) * 10 + (s.last() as int - '0' as int) as nat
    }
}

/// `s` without the `+` it may start with.
pub open spec fn unsigned_body(s: Seq<char>) -> Seq<char> {
    if s.len() > 0 && s[0] == '+' {
        s.drop_first()
    } else {
        s
    }
}

pub open spec fn all_digits(s: Seq<char>) -> bool {
    forall|i: int| 0 <= i < s.len() ==> is_digit(#[trigger] s[i])
}

/// What `str::parse::<usize>` makes of `s`: an optional `+`, then at least
/// one ASCII digit and nothing else, with a value that fits.
pub open spec fn spec_parse_usize(s: Seq<char>) -> Option<nat> {
    let body = unsigned_body(s);
    if body.len() > 0 && all_digits(body) && digits_value(body) <= usize::MAX {
        Some(digits_value(body))
    } else {
        None
    }
}

/// An A1 reference as zero-based `(row, column)`: letters, then a row counted
/// from one.
pub open spec fn spec_parse_a1(s: Seq<char>) -> Option<(nat, nat)> {
    let k = letter_run(s) as int;
    if k == 0 || k == s.len() {
        None
    } else {
        match spec_parse_usize(s.skip(k)) {
            Some(row) => if row > 0 {
                Some(((row - 1) as nat, (letters_value(s.take(k)) - 1) as nat))
            } else {
                None
            },
            None => None,
        }
    }
}

/// Whether the letters `s` starts with spell a column number that fits.
pub open spec fn a1_column_fits(s: Seq<char>) -> bool {
    letters_value(s.take(letter_run(s) as int)) <= usize::MAX
}

proof fn lemma_letter_run(s: Seq<char>)
    ensures
        letter_run(s) <= s.len(),
        forall|i: int| 0 <= i < letter_run(s) ==> is_ascii_letter(#[trigger] s[i]),
        letter_run(s) < s.len() ==> !is_ascii_letter(s[letter_run(s) as int]),
    decreases s.len(),
{
    if s.len() > 0 && is_ascii_letter(s[0]) {
        lemma_letter_run(s.drop_first());
        assert forall|i: int| 0 <= i < letter_run(s) implies is_ascii_letter(#[trigger] s[i]) by {
            if i > 0 {
                assert(s[i] == s.drop_first()[i - 1]);
            }
        }
    }
}

pub proof fn lemma_letter_run_exact(s: Seq<char>, k: int)
    requires
        0 <= k <= s.len(),
        forall|i: int| 0 <= i < k ==> is_ascii_letter(#[trigger] s[i]),
        k < s.len() ==> !is_ascii_letter(s[k]),
    ensures
        letter_run(s) == k,
    decreases s.len(),
{
    if k > 0 {
        assert(is_ascii_letter(s[0]));
        assert forall|i: int| 0 <= i < k - 1 implies is_ascii_letter(#[trigger] s.drop_first()[i]) by {
            assert(s.drop_first()[i] == s[i + 1]);
        }
        if k - 1 < s.drop_first().len() {
            assert(s.drop_first()[k - 1] == s[k]);
        }
        lemma_letter_run_exact(s.drop_first(), k - 1);
    }
}

proof fn lemma_letters_value_grows(s: Seq<char>, i: int, j: int)
    requires
        0 <= i <= j <= s.len(),
        forall|k: int| 0 <= k < j ==> is_ascii_letter(#[trigger] s[k]),
    ensures
        letters_value(s.take(i)) <= letters_value(s.take(j)),
    decreases j - i,
{
    if i < j {
        lemma_letters_value_grows(s, i, j - 1);
        assert(s.take(j).drop_last() =~= s.take(j - 1));
    }
}

proof fn lemma_digits_value_grows(s: Seq<char>, i: int, j: int)
    requires
        0 <= i <= j <= s.len(),
    ensures
        digits_value(s.take(i)) <= digits_value(s.take(j)),
    decreases j - i,
{
    if i < j {
        lemma_digits_value_grows(s, i, j - 1);
        assert(s.take(j).drop_last() =~= s.take(j - 1));
    }
}

/// Whether the letters `text` starts with spell a column number that a
/// machine word holds: what reading them as a column needs.
pub fn column_fits(text: &str) -> (r: bool)
    ensures
        r == a1_column_fits(text@),
{
    let n = text.unicode_len();
    let mut k: usize = 0;
    while k < n && is_letter_char(text.get_char(k))
        invariant
            n == text@.len(),
            k <= n,
            forall|i: int| 0 <= i < k ==> is_ascii_letter(#[trigger] text@[i]),
        decreases n - k,
    {
        k = k + 1;
    }
    proof {
        lemma_letter_run_exact(text@, k as int);
    }
    let mut column: usize = 0;
    let mut i: usize = 0;
    assert(text@.take(0) =~= Seq::<char>::empty());
    while i < k
        invariant
            n == text@.len(),
            k <= n,
            k == letter_run(text@),
            forall|j: int| 0 <= j < k ==> is_ascii_letter(#[trigger] text@[j]),
            i <= k,
            column == letters_value(text@.take(i as int)),
        decreases k - i,
    {
        assert(text@.take(i + 1).drop_last() =~= text@.take(i as int));
        let d = letter_number(text.get_char(i));
        if column > (usize::MAX - d) / 26 {
            proof {
                assert(column * 26 + d > usize::MAX) by (nonlinear_arith)
                    requires
                        column > (usize::MAX - d) / 26,
                        1 <= d <= 26,
                ;
                lemma_letters_value_grows(text@, i + 1, k as int);
            }
            return false;
        }
        column = column * 26 + d;
        i = i + 1;
    }
    true
}

fn is_letter_char(c: char) -> (r: bool)
    ensures
        r == is_ascii_letter(c),
{
    ('a' <= c && c <= 'z') || ('A' <= c && c <= 'Z')
}

fn letter_number(c: char) -> (r: usize)
    requires
        is_ascii_letter(c),
    ensures
        r == letter_value(c),
        1 <= r <= 26,
{
    if 'a' <= c && c <= 'z' {
        (c as u32 - 'a' as u32 + 1) as usize
    } else {
        (c as u32 - 'A' as u32 + 1) as usize
    }
}

/// An A1 reference back to zero-based `(row, column)` — the inverse of
/// [`column_letters`] plus a row.
pub fn parse_a1(text: &str) -> (r: Option<(usize, usize)>)
    requires
        a1_column_fits(text@),
    ensures
        match spec_parse_a1(text@) {
            Some((row, column)) => r matches Some((a, b)) && a == row && b == column,
            None => r is None,
        },
{
    let n = text.unicode_len();
    let mut k: usize = 0;
    while k < n && is_letter_char(text.get_char(k))
        invariant
            n == text@.len(),
            k <= n,
            forall|i: int| 0 <= i < k ==> is_ascii_letter(#[trigger] text@[i]),
        decreases n - k,
    {
        k = k + 1;
    }
    proof {
        lemma_letter_run_exact(text@, k as int);
    }
    if k == 0 || k == n {
        return None;
    }
    let ghost letters = text@.take(k as int);
    let mut column: usize = 0;
    let mut i: usize = 0;
    while i < k
        invariant
            n == text@.len(),
            0 < k < n,
            k == letter_run(text@),
            letters == text@.take(k as int),
            letters_value(letters) <= usize::MAX,
            forall|j: int| 0 <= j < k ==> is_ascii_letter(#[trigger] text@[j]),
            i <= k,
            column == letters_value(text@.take(i as int)),
        decreases k - i,
    {
        proof {
            lemma_letters_value_grows(text@, i + 1, k as int);
            assert(text@.take(i + 1).drop_last() =~= text@.take(i as int));
            assert(letters =~= text@.take(k as int));
        }
        let c = text.get_char(i);
        let d = letter_number(c);
        column = column * 26 + d;
        i = i + 1;
    }
    let ghost rest = text@.skip(k as int);
    let ghost body = unsigned_body(rest);
    let mut start: usize = k;
    if text.get_char(k) == '+' {
        start = k + 1;
    }
    assert(body =~= text@.skip(start as int));
    if start == n {
        return None;
    }
    let mut row: usize = 0;
    let mut j: usize = start;
    while j < n
        invariant
            n == text@.len(),
            0 < k < n,
            k == letter_run(text@),
            rest == text@.skip(k as int),
            body == unsigned_body(rest),
            column == letters_value(text@.take(k as int)),
            start < n,
            start <= j <= n,
            body == text@.skip(start as int),
            forall|i: int| 0 <= i < j - start ==> is_digit(#[trigger] body[i]),
            row == digits_value(body.take(j - start)),
        decreases n - j,
    {
        let c = text.get_char(j);
        assert(body[j - start] == c);
        if !('0' <= c && c <= '9') {
            assert(!is_digit(body[j - start]));
            assert(!all_digits(body));
            return None;
        }
        assert(body.take(j - start + 1).drop_last() =~= body.take(j - start));
        let d = (c as u32 - '0' as u32) as usize;
        assert(body.take(j - start + 1).last() == c);
        assert(digits_value(body.take(j - start + 1)) == row * 10 + d);
        if row > (usize::MAX - d) / 10 {
            proof {
                assert(digits_value(body.take(j - start + 1)) > usize::MAX) by (nonlinear_arith)
                    requires
                        digits_value(body.take(j - start + 1)) == row * 10 + d,
                        row > (usize::MAX - d) / 10,
                        d <= 9,
                ;
                lemma_digits_value_grows(body, j - start + 1, body.len() as int);
                assert(body.take(body.len() as int) =~= body);
            }
            return None;
        }
        assert(row * 10 + d <= usize::MAX) by (nonlinear_arith)
            requires
                row <= (usize::MAX - d) / 10,
                d <= 9,
        ;
        row = row * 10 + d;
        j = j + 1;
    }
    assert(body.take(n - start) =~= body);
    if row == 0 {
        return None;
    }
    proof {
        lemma_letters_value_grows(text@, 1, k as int);
        assert(text@.take(1).drop_last() =~= text@.take(0));
    }
    Some((row - 1, column - 1))
}


// -- laws ------------------------------------------------------------------------------

proof fn lemma_occurrences_agree(a: Seq<Option<Seq<char>>>, b: Seq<Option<Seq<char>>>, t: Seq<char>)
    requires
        a.len() == b.len(),
        forall|j: int| 0 <= j < a.len() ==> (a[j] == Some(t)) == (b[j] == Some(t)),
    ensures
        occurrences(a, t) == occurrences(b, t),
    decreases a.len(),
{
    if a.len() > 0 {
        lemma_occurrences_agree(a.drop_last(), b.drop_last(), t);
    }
}

proof fn lemma_occurrences_positive(ns: Seq<Option<Seq<char>>>, t: Seq<char>, i: int)
    requires
        0 <= i < ns.len(),
        ns[i] == Some(t),
    ensures
        occurrences(ns, t) >= 1,
    decreases ns.len(),
{
    if i < ns.len() - 1 {
        lemma_occurrences_positive(ns.drop_last(), t, i);
    }
}

/// **A name has to identify one row or column of its table.** Every name that
/// survives `drop_ambiguous` is carried by exactly one entry.
pub proof fn law_kept_names_are_unique(ns: Seq<Option<Seq<char>>>, i: int)
    requires
        0 <= i < ns.len(),
        unambiguous(ns)[i] is Some,
    ensures
        occurrences(unambiguous(ns), unambiguous(ns)[i].unwrap()) == 1,
{
    let u = unambiguous(ns);
    let t = u[i].unwrap();
    assert(ns[i] == Some(t));
    lemma_occurrences_positive(ns, t, i);
    assert forall|j: int| 0 <= j < u.len() implies (u[j] == Some(t)) == (ns[j] == Some(t)) by {}
    lemma_occurrences_agree(u, ns, t);
}

/// A name that more than one entry carries is dropped from all of them.
pub proof fn law_repeated_names_are_dropped(ns: Seq<Option<Seq<char>>>, t: Seq<char>)
    requires
        occurrences(ns, t) > 1,
    ensures
        occurrences(unambiguous(ns), t) == 0,
{
    let u = unambiguous(ns);
    let none: Seq<Option<Seq<char>>> = Seq::new(ns.len(), |j: int| None);
    assert forall|j: int| 0 <= j < u.len() implies (u[j] == Some(t)) == (none[j] == Some(t)) by {}
    lemma_occurrences_agree(u, none, t);
    lemma_no_occurrences(none, t);
}

proof fn lemma_no_occurrences(ns: Seq<Option<Seq<char>>>, t: Seq<char>)
    requires
        forall|j: int| 0 <= j < ns.len() ==> ns[j] is None,
    ensures
        occurrences(ns, t) == 0,
    decreases ns.len(),
{
    if ns.len() > 0 {
        lemma_no_occurrences(ns.drop_last(), t);
    }
}

/// A header name is owned by one table at most.
pub proof fn law_one_owner(ts: Seq<TableNames>, a: int, b: int, name: Seq<char>)
    requires
        spec_owns(ts, a, name),
        spec_owns(ts, b, name),
    ensures
        a == b,
{
}

/// **Where two tables carry the same header name, the first keeps it.** Any
/// table that carries a name has that name owned by itself or by a table
/// before it.
pub proof fn law_first_holder_owns(ts: Seq<TableNames>, name: Seq<char>, i: int)
    requires
        0 <= i < ts.len(),
        holds_name(ts[i], name),
    ensures
        exists|j: int| 0 <= j <= i && spec_owns(ts, j, name),
    decreases i,
{
    if forall|j: int| 0 <= j < i ==> !holds_name(ts[j], name) {
        assert(spec_owns(ts, i, name));
    } else {
        let j = choose|j: int| 0 <= j < i && holds_name(ts[j], name);
        law_first_holder_owns(ts, name, j);
        let k = choose|k: int| 0 <= k <= j && spec_owns(ts, k, name);
        assert(spec_owns(ts, k, name));
    }
}

pub proof fn lemma_letters(n: nat)
    ensures
        forall|i: int| 0 <= i < letters(n).len() ==> is_ascii_letter(#[trigger] letters(n)[i]),
        letters_value(letters(n)) == n,
        n > 0 ==> letters(n).len() > 0,
    decreases n,
{
    if n > 0 {
        let q = ((n - 1) / 26) as nat;
        let r = ((n - 1) % 26) as nat;
        lemma_letters(q);
        let l = letters(n);
        assert(l == letters(q) + seq![letter(r)]);
        assert(l.drop_last() =~= letters(q));
        assert(letter_value(letter(r)) == r + 1);
        assert forall|i: int| 0 <= i < l.len() implies is_ascii_letter(#[trigger] l[i]) by {
            if i < l.len() - 1 {
                assert(l[i] == letters(q)[i]);
            }
        }
    }
}

proof fn lemma_digit(d: nat)
    requires
        d < 10,
    ensures
        is_digit(crate::chars::digit(d)),
        (crate::chars::digit(d) as int - '0' as int) == d,
{
}

pub proof fn lemma_decimal_digits(m: nat)
    ensures
        decimal(m).len() > 0,
        all_digits(decimal(m)),
        digits_value(decimal(m)) == m,
    decreases m,
{
    if m < 10 {
        lemma_digit(m);
        assert(decimal(m) == seq![crate::chars::digit(m)]);
        assert(decimal(m).drop_last() =~= Seq::<char>::empty());
        assert(decimal(m).last() == crate::chars::digit(m));
        assert(digits_value(decimal(m)) == digits_value(Seq::<char>::empty()) * 10 + m);
    } else {
        lemma_decimal_digits(m / 10);
        lemma_digit(m % 10);
        let s = decimal(m);
        assert(s == decimal(m / 10) + seq![crate::chars::digit(m % 10)]);
        assert(s.drop_last() =~= decimal(m / 10));
        assert(s.last() == crate::chars::digit(m % 10));
        assert(digits_value(s) == digits_value(decimal(m / 10)) * 10 + (m % 10));
        assert((m / 10) * 10 + m % 10 == m);
        assert forall|i: int| 0 <= i < s.len() implies is_digit(#[trigger] s[i]) by {
            if i < s.len() - 1 {
                assert(s[i] == decimal(m / 10)[i]);
            }
        }
    }
}

/// **A1 notation reads back.** `parse_a1` is the inverse of `column_letters`
/// plus a row: the letters of a column followed by a row counted from one
/// parse to that row and column, and their letters fit a machine word.
pub proof fn law_a1_parses_back(column: nat, row: nat)
    requires
        column < i64::MAX,
        column + 1 <= usize::MAX,
        row + 1 <= usize::MAX,
    ensures
        spec_parse_a1(spec_column_letters(column as int) + decimal(row + 1)) == Some((row, column)),
        a1_column_fits(spec_column_letters(column as int) + decimal(row + 1)),
{
    let l = letters(column + 1);
    let d = decimal(row + 1);
    let s = l + d;
    assert(spec_column_letters(column as int) == l);
    lemma_letters(column + 1);
    lemma_decimal_digits(row + 1);
    assert forall|i: int| 0 <= i < l.len() implies is_ascii_letter(#[trigger] s[i]) by {
        assert(s[i] == l[i]);
    }
    assert(is_digit(d[0]));
    assert(s[l.len() as int] == d[0]);
    lemma_letter_run_exact(s, l.len() as int);
    assert(s.take(l.len() as int) =~= l);
    assert(s.skip(l.len() as int) =~= d);
    assert(unsigned_body(d) == d);
}

} // verus!
