//! `ASTNodeArrayArchive.ASTNodeType`, the discriminator at field 1.
//!
//! The numbering has holes (37–44, 47, 49–51, 58–62) and three values were
//! renamed without changing meaning; the names here are 15.3.1's.

use vstd::prelude::*;

verus! {

pub const ADDITION: u32 = 1;
pub const SUBTRACTION: u32 = 2;
pub const MULTIPLICATION: u32 = 3;
pub const DIVISION: u32 = 4;
pub const POWER: u32 = 5;
pub const CONCATENATION: u32 = 6;
pub const GREATER_THAN: u32 = 7;
pub const GREATER_THAN_OR_EQUAL: u32 = 8;
pub const LESS_THAN: u32 = 9;
pub const LESS_THAN_OR_EQUAL: u32 = 10;
pub const EQUAL_TO: u32 = 11;
pub const NOT_EQUAL_TO: u32 = 12;
pub const NEGATION: u32 = 13;
pub const PLUS_SIGN: u32 = 14;
pub const PERCENT: u32 = 15;
pub const FUNCTION: u32 = 16;
pub const NUMBER: u32 = 17;
pub const BOOLEAN: u32 = 18;
pub const STRING: u32 = 19;
pub const DATE: u32 = 20;
pub const DURATION: u32 = 21;
pub const EMPTY_ARGUMENT: u32 = 22;
pub const TOKEN: u32 = 23;
pub const ARRAY: u32 = 24;
pub const LIST: u32 = 25;
pub const THUNK: u32 = 26;
pub const LOCAL_CELL_REFERENCE: u32 = 27;
pub const CROSS_TABLE_CELL_REFERENCE: u32 = 28;
pub const COLON: u32 = 29;
pub const REFERENCE_ERROR: u32 = 30;
pub const UNKNOWN_FUNCTION: u32 = 31;
pub const APPEND_WHITESPACE: u32 = 32;
pub const PREPEND_WHITESPACE: u32 = 33;
pub const BEGIN_THUNK: u32 = 34;
pub const END_THUNK: u32 = 35;
pub const CELL_REFERENCE: u32 = 36;
pub const COLON_WITH_UIDS: u32 = 45;
pub const REFERENCE_ERROR_WITH_UIDS: u32 = 46;
pub const UID_REFERENCE: u32 = 48;
pub const LET_BIND: u32 = 52;
pub const VAR: u32 = 53;
pub const END_SCOPE: u32 = 54;
pub const LAMBDA: u32 = 55;
pub const BEGIN_LAMBDA_THUNK: u32 = 56;
pub const END_LAMBDA_THUNK: u32 = 57;
pub const LINKED_CELL_REF: u32 = 63;
pub const LINKED_COLUMN_REF: u32 = 64;
pub const LINKED_ROW_REF: u32 = 65;
pub const CATEGORY_REF: u32 = 66;
pub const COLON_TRACT: u32 = 67;
pub const VIEW_TRACT_REF: u32 = 68;
pub const INTERSECTION: u32 = 69;
pub const SPILL_RANGE: u32 = 70;

/// The schema's name for a node type, or `?` for a number the schema does
/// not have.
pub open spec fn spec_name(kind: u32) -> Seq<char> {
    if kind == 1 {
        "ADDITION_NODE"@
    } else if kind == 2 {
        "SUBTRACTION_NODE"@
    } else if kind == 3 {
        "MULTIPLICATION_NODE"@
    } else if kind == 4 {
        "DIVISION_NODE"@
    } else if kind == 5 {
        "POWER_NODE"@
    } else if kind == 6 {
        "CONCATENATION_NODE"@
    } else if kind == 7 {
        "GREATER_THAN_NODE"@
    } else if kind == 8 {
        "GREATER_THAN_OR_EQUAL_TO_NODE"@
    } else if kind == 9 {
        "LESS_THAN_NODE"@
    } else if kind == 10 {
        "LESS_THAN_OR_EQUAL_TO_NODE"@
    } else if kind == 11 {
        "EQUAL_TO_NODE"@
    } else if kind == 12 {
        "NOT_EQUAL_TO_NODE"@
    } else if kind == 13 {
        "NEGATION_NODE"@
    } else if kind == 14 {
        "PLUS_SIGN_NODE"@
    } else if kind == 15 {
        "PERCENT_NODE"@
    } else if kind == 16 {
        "FUNCTION_NODE"@
    } else if kind == 17 {
        "NUMBER_NODE"@
    } else if kind == 18 {
        "BOOLEAN_NODE"@
    } else if kind == 19 {
        "STRING_NODE"@
    } else if kind == 20 {
        "DATE_NODE"@
    } else if kind == 21 {
        "DURATION_NODE"@
    } else if kind == 22 {
        "EMPTY_ARGUMENT_NODE"@
    } else if kind == 23 {
        "TOKEN_NODE"@
    } else if kind == 24 {
        "ARRAY_NODE"@
    } else if kind == 25 {
        "LIST_NODE"@
    } else if kind == 26 {
        "THUNK_NODE"@
    } else if kind == 27 {
        "LOCAL_CELL_REFERENCE_NODE"@
    } else if kind == 28 {
        "CROSS_TABLE_CELL_REFERENCE_NODE"@
    } else if kind == 29 {
        "COLON_NODE"@
    } else if kind == 30 {
        "REFERENCE_ERROR_NODE"@
    } else if kind == 31 {
        "UNKNOWN_FUNCTION_NODE"@
    } else if kind == 32 {
        "APPEND_WHITESPACE_NODE"@
    } else if kind == 33 {
        "PREPEND_WHITESPACE_NODE"@
    } else if kind == 34 {
        "BEGIN_THUNK_NODE"@
    } else if kind == 35 {
        "END_THUNK_NODE"@
    } else if kind == 36 {
        "CELL_REFERENCE_NODE"@
    } else if kind == 45 {
        "COLON_NODE_WITH_UIDS"@
    } else if kind == 46 {
        "REFERENCE_ERROR_WITH_UIDS"@
    } else if kind == 48 {
        "UID_REFERENCE_NODE"@
    } else if kind == 52 {
        "LET_BIND_NODE"@
    } else if kind == 53 {
        "VAR_NODE"@
    } else if kind == 54 {
        "END_SCOPE_NODE"@
    } else if kind == 55 {
        "LAMBDA_NODE"@
    } else if kind == 56 {
        "BEGIN_LAMBDA_THUNK_NODE"@
    } else if kind == 57 {
        "END_LAMBDA_THUNK_NODE"@
    } else if kind == 63 {
        "LINKED_CELL_REF_NODE"@
    } else if kind == 64 {
        "LINKED_COLUMN_REF_NODE"@
    } else if kind == 65 {
        "LINKED_ROW_REF_NODE"@
    } else if kind == 66 {
        "CATEGORY_REF_NODE"@
    } else if kind == 67 {
        "COLON_TRACT_NODE"@
    } else if kind == 68 {
        "VIEW_TRACT_REF_NODE"@
    } else if kind == 69 {
        "INTERSECTION_NODE"@
    } else if kind == 70 {
        "SPILL_RANGE_NODE"@
    } else {
        "?"@
    }
}

/// Whether the 15.3.1 schema has this node type.
pub open spec fn spec_is_known(kind: u32) -> bool {
    kind == 1 || kind == 2 || kind == 3 || kind == 4 || kind == 5 || kind == 6 || kind == 7 || kind == 8 || kind == 9 || kind == 10 || kind == 11 || kind == 12 || kind == 13 || kind == 14 || kind == 15 || kind == 16 || kind == 17 || kind == 18 || kind == 19 || kind == 20 || kind == 21 || kind == 22 || kind == 23 || kind == 24 || kind == 25 || kind == 26 || kind == 27 || kind == 28 || kind == 29 || kind == 30 || kind == 31 || kind == 32 || kind == 33 || kind == 34 || kind == 35 || kind == 36 || kind == 45 || kind == 46 || kind == 48 || kind == 52 || kind == 53 || kind == 54 || kind == 55 || kind == 56 || kind == 57 || kind == 63 || kind == 64 || kind == 65 || kind == 66 || kind == 67 || kind == 68 || kind == 69 || kind == 70
}

/// Whether the 15.3.1 schema has this node type.
///
/// The enum is closed and its numbering has holes (37–44, 47, 49–51,
/// 58–62), so an out-of-range discriminator means the message is not an AST
/// node — which is what tells a node array apart from the many other
/// repeated-field-1 messages a document holds. A genuinely newer node type
/// would land here too; `upgrade_node_type` (field 47) is the schema's own
/// answer to that and nothing in this corpus carries one.
pub fn is_known(kind: u32) -> (r: bool)
    ensures
        r == spec_is_known(kind),
{
    (1 <= kind && kind <= 36) || kind == 45 || kind == 46 || kind == 48 || (52 <= kind && kind <= 57)
        || (63 <= kind && kind <= 70)
}

/// The schema's name for a node type, for diagnostics.
pub fn name(kind: u32) -> (r: &'static str)
    ensures
        r@ == spec_name(kind),
{
    if kind == ADDITION {
        "ADDITION_NODE"
    } else if kind == SUBTRACTION {
        "SUBTRACTION_NODE"
    } else if kind == MULTIPLICATION {
        "MULTIPLICATION_NODE"
    } else if kind == DIVISION {
        "DIVISION_NODE"
    } else if kind == POWER {
        "POWER_NODE"
    } else if kind == CONCATENATION {
        "CONCATENATION_NODE"
    } else if kind == GREATER_THAN {
        "GREATER_THAN_NODE"
    } else if kind == GREATER_THAN_OR_EQUAL {
        "GREATER_THAN_OR_EQUAL_TO_NODE"
    } else if kind == LESS_THAN {
        "LESS_THAN_NODE"
    } else if kind == LESS_THAN_OR_EQUAL {
        "LESS_THAN_OR_EQUAL_TO_NODE"
    } else if kind == EQUAL_TO {
        "EQUAL_TO_NODE"
    } else if kind == NOT_EQUAL_TO {
        "NOT_EQUAL_TO_NODE"
    } else if kind == NEGATION {
        "NEGATION_NODE"
    } else if kind == PLUS_SIGN {
        "PLUS_SIGN_NODE"
    } else if kind == PERCENT {
        "PERCENT_NODE"
    } else if kind == FUNCTION {
        "FUNCTION_NODE"
    } else if kind == NUMBER {
        "NUMBER_NODE"
    } else if kind == BOOLEAN {
        "BOOLEAN_NODE"
    } else if kind == STRING {
        "STRING_NODE"
    } else if kind == DATE {
        "DATE_NODE"
    } else if kind == DURATION {
        "DURATION_NODE"
    } else if kind == EMPTY_ARGUMENT {
        "EMPTY_ARGUMENT_NODE"
    } else if kind == TOKEN {
        "TOKEN_NODE"
    } else if kind == ARRAY {
        "ARRAY_NODE"
    } else if kind == LIST {
        "LIST_NODE"
    } else if kind == THUNK {
        "THUNK_NODE"
    } else if kind == LOCAL_CELL_REFERENCE {
        "LOCAL_CELL_REFERENCE_NODE"
    } else if kind == CROSS_TABLE_CELL_REFERENCE {
        "CROSS_TABLE_CELL_REFERENCE_NODE"
    } else if kind == COLON {
        "COLON_NODE"
    } else if kind == REFERENCE_ERROR {
        "REFERENCE_ERROR_NODE"
    } else if kind == UNKNOWN_FUNCTION {
        "UNKNOWN_FUNCTION_NODE"
    } else if kind == APPEND_WHITESPACE {
        "APPEND_WHITESPACE_NODE"
    } else if kind == PREPEND_WHITESPACE {
        "PREPEND_WHITESPACE_NODE"
    } else if kind == BEGIN_THUNK {
        "BEGIN_THUNK_NODE"
    } else if kind == END_THUNK {
        "END_THUNK_NODE"
    } else if kind == CELL_REFERENCE {
        "CELL_REFERENCE_NODE"
    } else if kind == COLON_WITH_UIDS {
        "COLON_NODE_WITH_UIDS"
    } else if kind == REFERENCE_ERROR_WITH_UIDS {
        "REFERENCE_ERROR_WITH_UIDS"
    } else if kind == UID_REFERENCE {
        "UID_REFERENCE_NODE"
    } else if kind == LET_BIND {
        "LET_BIND_NODE"
    } else if kind == VAR {
        "VAR_NODE"
    } else if kind == END_SCOPE {
        "END_SCOPE_NODE"
    } else if kind == LAMBDA {
        "LAMBDA_NODE"
    } else if kind == BEGIN_LAMBDA_THUNK {
        "BEGIN_LAMBDA_THUNK_NODE"
    } else if kind == END_LAMBDA_THUNK {
        "END_LAMBDA_THUNK_NODE"
    } else if kind == LINKED_CELL_REF {
        "LINKED_CELL_REF_NODE"
    } else if kind == LINKED_COLUMN_REF {
        "LINKED_COLUMN_REF_NODE"
    } else if kind == LINKED_ROW_REF {
        "LINKED_ROW_REF_NODE"
    } else if kind == CATEGORY_REF {
        "CATEGORY_REF_NODE"
    } else if kind == COLON_TRACT {
        "COLON_TRACT_NODE"
    } else if kind == VIEW_TRACT_REF {
        "VIEW_TRACT_REF_NODE"
    } else if kind == INTERSECTION {
        "INTERSECTION_NODE"
    } else if kind == SPILL_RANGE {
        "SPILL_RANGE_NODE"
    } else {
        "?"
    }
}

/// **A known node type is exactly a named one.** `is_known` holds of a kind
/// just when `name` gives it a name of its own rather than `?`; the holes in
/// the numbering and every kind above the last are unknown.
pub proof fn law_known_kinds_are_named(kind: u32)
    ensures
        spec_is_known(kind) <==> spec_name(kind) != "?"@,
{
    reveal_strlit("?");
    if kind == 1 {
        reveal_strlit("ADDITION_NODE");
    }
    if kind == 2 {
        reveal_strlit("SUBTRACTION_NODE");
    }
    if kind == 3 {
        reveal_strlit("MULTIPLICATION_NODE");
    }
    if kind == 4 {
        reveal_strlit("DIVISION_NODE");
    }
    if kind == 5 {
        reveal_strlit("POWER_NODE");
    }
    if kind == 6 {
        reveal_strlit("CONCATENATION_NODE");
    }
    if kind == 7 {
        reveal_strlit("GREATER_THAN_NODE");
    }
    if kind == 8 {
        reveal_strlit("GREATER_THAN_OR_EQUAL_TO_NODE");
    }
    if kind == 9 {
        reveal_strlit("LESS_THAN_NODE");
    }
    if kind == 10 {
        reveal_strlit("LESS_THAN_OR_EQUAL_TO_NODE");
    }
    if kind == 11 {
        reveal_strlit("EQUAL_TO_NODE");
    }
    if kind == 12 {
        reveal_strlit("NOT_EQUAL_TO_NODE");
    }
    if kind == 13 {
        reveal_strlit("NEGATION_NODE");
    }
    if kind == 14 {
        reveal_strlit("PLUS_SIGN_NODE");
    }
    if kind == 15 {
        reveal_strlit("PERCENT_NODE");
    }
    if kind == 16 {
        reveal_strlit("FUNCTION_NODE");
    }
    if kind == 17 {
        reveal_strlit("NUMBER_NODE");
    }
    if kind == 18 {
        reveal_strlit("BOOLEAN_NODE");
    }
    if kind == 19 {
        reveal_strlit("STRING_NODE");
    }
    if kind == 20 {
        reveal_strlit("DATE_NODE");
    }
    if kind == 21 {
        reveal_strlit("DURATION_NODE");
    }
    if kind == 22 {
        reveal_strlit("EMPTY_ARGUMENT_NODE");
    }
    if kind == 23 {
        reveal_strlit("TOKEN_NODE");
    }
    if kind == 24 {
        reveal_strlit("ARRAY_NODE");
    }
    if kind == 25 {
        reveal_strlit("LIST_NODE");
    }
    if kind == 26 {
        reveal_strlit("THUNK_NODE");
    }
    if kind == 27 {
        reveal_strlit("LOCAL_CELL_REFERENCE_NODE");
    }
    if kind == 28 {
        reveal_strlit("CROSS_TABLE_CELL_REFERENCE_NODE");
    }
    if kind == 29 {
        reveal_strlit("COLON_NODE");
    }
    if kind == 30 {
        reveal_strlit("REFERENCE_ERROR_NODE");
    }
    if kind == 31 {
        reveal_strlit("UNKNOWN_FUNCTION_NODE");
    }
    if kind == 32 {
        reveal_strlit("APPEND_WHITESPACE_NODE");
    }
    if kind == 33 {
        reveal_strlit("PREPEND_WHITESPACE_NODE");
    }
    if kind == 34 {
        reveal_strlit("BEGIN_THUNK_NODE");
    }
    if kind == 35 {
        reveal_strlit("END_THUNK_NODE");
    }
    if kind == 36 {
        reveal_strlit("CELL_REFERENCE_NODE");
    }
    if kind == 45 {
        reveal_strlit("COLON_NODE_WITH_UIDS");
    }
    if kind == 46 {
        reveal_strlit("REFERENCE_ERROR_WITH_UIDS");
    }
    if kind == 48 {
        reveal_strlit("UID_REFERENCE_NODE");
    }
    if kind == 52 {
        reveal_strlit("LET_BIND_NODE");
    }
    if kind == 53 {
        reveal_strlit("VAR_NODE");
    }
    if kind == 54 {
        reveal_strlit("END_SCOPE_NODE");
    }
    if kind == 55 {
        reveal_strlit("LAMBDA_NODE");
    }
    if kind == 56 {
        reveal_strlit("BEGIN_LAMBDA_THUNK_NODE");
    }
    if kind == 57 {
        reveal_strlit("END_LAMBDA_THUNK_NODE");
    }
    if kind == 63 {
        reveal_strlit("LINKED_CELL_REF_NODE");
    }
    if kind == 64 {
        reveal_strlit("LINKED_COLUMN_REF_NODE");
    }
    if kind == 65 {
        reveal_strlit("LINKED_ROW_REF_NODE");
    }
    if kind == 66 {
        reveal_strlit("CATEGORY_REF_NODE");
    }
    if kind == 67 {
        reveal_strlit("COLON_TRACT_NODE");
    }
    if kind == 68 {
        reveal_strlit("VIEW_TRACT_REF_NODE");
    }
    if kind == 69 {
        reveal_strlit("INTERSECTION_NODE");
    }
    if kind == 70 {
        reveal_strlit("SPILL_RANGE_NODE");
    }
    if spec_is_known(kind) {
        assert(spec_name(kind).len() > 1);
    }
}

} // verus!
