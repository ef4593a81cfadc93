//! The protobuf wire format: varints, fields and messages.
//!
//! A message is kept as the list of fields it was written with, in the order it
//! was written, and every value keeps its wire form. That is what makes a
//! decode followed by an encode give back the message it started from, and
//! what lets every reader above this one ignore the fields it does not know.

use vstd::prelude::*;

verus! {

// -- varints -----------------------------------------------------------------

/// `128^n`.
pub open spec fn pow128(n: nat) -> nat
    decreases n,
{
    if n == 0 {
        1
    } else {
        128 * pow128((n - 1) as nat)
    }
}

/// The base-128 encoding of a non-negative integer, least significant group
/// first, with the high bit set on every byte but the last.
pub open spec fn varint_bytes(v: nat) -> Seq<u8>
    decreases v,
{
    if v < 128 {
        seq![v as u8]
    } else {
        seq![(v % 128 + 128) as u8] + varint_bytes(v / 128)
    }
}

/// Reads a base-128 integer from the front of `s`, looking at no more than
/// `budget` bytes: the value and how many bytes it took.
pub open spec fn read_varint(s: Seq<u8>, budget: nat) -> Option<(nat, nat)>
    decreases budget,
{
    if budget == 0 || s.len() == 0 {
        None
    } else if s[0] < 128 {
        Some((s[0] as nat, 1))
    } else {
        match read_varint(s.drop_first(), (budget - 1) as nat) {
            Some((v, n)) => Some((((s[0] - 128) + 128 * v) as nat, n + 1)),
            None => None,
        }
    }
}

/// A varint as the wire format allows it: at most ten bytes, and a value that
/// fits in 64 bits.
pub open spec fn varint_of(s: Seq<u8>) -> Option<(u64, nat)> {
    match read_varint(s, 10) {
        Some((v, n)) => if v <= u64::MAX {
            Some((v as u64, n))
        } else {
            None
        },
        None => None,
    }
}

pub proof fn lemma_pow128_monotonic(a: nat, b: nat)
    requires
        a <= b,
    ensures
        pow128(a) <= pow128(b),
        pow128(a) >= 1,
    decreases b,
{
    if a < b {
        lemma_pow128_monotonic(a, (b - 1) as nat);
    } else if b > 0 {
        lemma_pow128_monotonic((b - 1) as nat, (b - 1) as nat);
    }
}

pub proof fn lemma_pow128_ten()
    ensures
        pow128(9) == 0x8000_0000_0000_0000,
        pow128(10) == 0x40_0000_0000_0000_0000,
{
    reveal_with_fuel(pow128, 11);
}

/// What `read_varint` gives back is within the bytes it read, and smaller than
/// what that many groups can hold.
pub proof fn lemma_read_varint_bounds(s: Seq<u8>, budget: nat)
    ensures
        read_varint(s, budget) matches Some((v, n)) ==> {
            &&& 1 <= n <= budget
            &&& n <= s.len()
            &&& v < pow128(n)
        },
    decreases budget,
{
    reveal_with_fuel(pow128, 2);
    if budget > 0 && s.len() > 0 && s[0] >= 128 {
        lemma_read_varint_bounds(s.drop_first(), (budget - 1) as nat);
        if let Some((v, n)) = read_varint(s.drop_first(), (budget - 1) as nat) {
            assert(pow128(n + 1) == 128 * pow128(n));
        }
    }
}

/// A varint read back from its own encoding is the value it encoded, whatever
/// follows it.
pub proof fn lemma_varint_roundtrip(v: nat, rest: Seq<u8>, budget: nat)
    requires
        varint_bytes(v).len() <= budget,
    ensures
        read_varint(varint_bytes(v) + rest, budget) == Some((v, varint_bytes(v).len())),
    decreases v,
{
    let s = varint_bytes(v) + rest;
    if v >= 128 {
        lemma_varint_roundtrip(v / 128, rest, (budget - 1) as nat);
        assert(s.drop_first() =~= varint_bytes(v / 128) + rest);
    }
}

/// A value below `128^k` takes no more than `k` bytes.
pub proof fn lemma_varint_len(v: nat, k: nat)
    requires
        v < pow128(k),
        k >= 1,
    ensures
        1 <= varint_bytes(v).len() <= k,
    decreases v,
{
    reveal_with_fuel(pow128, 2);
    if v >= 128 {
        lemma_varint_len(v / 128, (k - 1) as nat);
    }
}

/// A 64-bit value encodes in at most ten bytes, and reads back.
pub proof fn lemma_u64_varint_roundtrip(v: u64, rest: Seq<u8>)
    ensures
        varint_bytes(v as nat).len() <= 10,
        varint_of(varint_bytes(v as nat) + rest) == Some((v, varint_bytes(v as nat).len())),
{
    lemma_pow128_ten();
    lemma_varint_len(v as nat, 10);
    lemma_varint_roundtrip(v as nat, rest, 10);
}

/// Appends the varint encoding of `value`.
pub fn encode_varint(value: u64, out: &mut Vec<u8>)
    ensures
        final(out)@ == old(out)@ + varint_bytes(value as nat),
{
    let ghost start = out@;
    let mut v = value;
    while v >= 128
        invariant
            out@ + varint_bytes(v as nat) == start + varint_bytes(value as nat),
        decreases v,
    {
        let ghost before = out@;
        out.push((v % 128 + 128) as u8);
        assert(varint_bytes(v as nat) == seq![(v % 128 + 128) as u8] + varint_bytes((v / 128) as nat));
        assert(out@ + varint_bytes((v / 128) as nat) =~= before + varint_bytes(v as nat));
        v = v / 128;
    }
    assert(out@.push(v as u8) =~= out@ + varint_bytes(v as nat));
    out.push(v as u8);
}

fn read_varint_from(s: &[u8], pos: usize, budget: usize) -> (r: Option<(u128, usize)>)
    requires
        pos <= s@.len(),
        budget <= 10,
    ensures
        match read_varint(s@.skip(pos as int), budget as nat) {
            Some((v, n)) => r == Some((v as u128, n as usize)),
            None => r is None,
        },
    decreases budget,
{
    proof {
        lemma_read_varint_bounds(s@.skip(pos as int), budget as nat);
    }
    if budget == 0 || pos >= s.len() {
        return None;
    }
    let b = s[pos];
    if b < 128 {
        return Some((b as u128, 1));
    }
    assert(s@.skip(pos as int).drop_first() =~= s@.skip(pos + 1));
    match read_varint_from(s, pos + 1, budget - 1) {
        Some((v, n)) => {
            proof {
                lemma_read_varint_bounds(s@.skip(pos + 1), (budget - 1) as nat);
                lemma_pow128_monotonic(n as nat, 9);
                lemma_pow128_ten();
            }
            Some(((b - 128) as u128 + 128 * v, n + 1))
        },
        None => None,
    }
}

/// Reads the varint that starts at `pos`: its value and its length in bytes.
pub fn read_varint_at(s: &[u8], pos: usize) -> (r: Option<(u64, usize)>)
    requires
        pos <= s@.len(),
    ensures
        match varint_of(s@.skip(pos as int)) {
            Some((v, n)) => r == Some((v, n as usize)),
            None => r is None,
        },
{
    proof {
        lemma_read_varint_bounds(s@.skip(pos as int), 10);
        if let Some((v, n)) = read_varint(s@.skip(pos as int), 10) {
            lemma_pow128_monotonic(n, 10);
            lemma_pow128_ten();
        }
    }
    match read_varint_from(s, pos, 10) {
        Some((v, n)) => {
            if v <= u64::MAX as u128 {
                Some((v as u64, n))
            } else {
                None
            }
        },
        None => None,
    }
}


// -- values and fields -------------------------------------------------------

/// A field's value, in the wire form it was read in.
#[derive(Debug, Clone, PartialEq)]
pub enum Value {
    /// Wire type 0.
    Varint(u64),
    /// Wire type 1: eight bytes, little-endian.
    Fixed64([u8; 8]),
    /// Wire type 2: a string, a byte string, a nested message or a packed list.
    Bytes(Vec<u8>),
    /// Wire type 5: four bytes, little-endian.
    Fixed32([u8; 4]),
}

/// A value as a mathematical object.
pub enum SpecValue {
    Varint(u64),
    Fixed64(Seq<u8>),
    Bytes(Seq<u8>),
    Fixed32(Seq<u8>),
}

impl View for Value {
    type V = SpecValue;

    open spec fn view(&self) -> SpecValue {
        match self {
            Value::Varint(v) => SpecValue::Varint(*v),
            Value::Fixed64(b) => SpecValue::Fixed64(b@),
            Value::Bytes(b) => SpecValue::Bytes(b@),
            Value::Fixed32(b) => SpecValue::Fixed32(b@),
        }
    }
}

/// One field: its number and its value.
#[derive(Debug, Clone, PartialEq)]
pub struct Field {
    pub number: u32,
    pub value: Value,
}

pub struct SpecField {
    pub number: u32,
    pub value: SpecValue,
}

impl View for Field {
    type V = SpecField;

    open spec fn view(&self) -> SpecField {
        SpecField { number: self.number, value: self.value@ }
    }
}

/// A message: its fields, in the order they were written.
#[derive(Debug, Clone, PartialEq)]
pub struct Message {
    pub fields: Vec<Field>,
}

impl View for Message {
    type V = Seq<SpecField>;

    open spec fn view(&self) -> Seq<SpecField> {
        self.fields@.map_values(|f: Field| f@)
    }
}

impl Default for Message {
    fn default() -> (m: Message)
        ensures
            m@ == Seq::<SpecField>::empty(),
    {
        let m = Message { fields: Vec::new() };
        assert(m@ =~= Seq::<SpecField>::empty());
        m
    }
}

/// Why a byte string is not a message.
#[derive(Debug, Clone, Copy, PartialEq, Eq)]
pub struct DecodeError;

// -- the encoding ------------------------------------------------------------

pub open spec fn wire_type(v: SpecValue) -> nat {
    match v {
        SpecValue::Varint(_) => 0,
        SpecValue::Fixed64(_) => 1,
        SpecValue::Bytes(_) => 2,
        SpecValue::Fixed32(_) => 5,
    }
}

pub open spec fn value_bytes(v: SpecValue) -> Seq<u8> {
    match v {
        SpecValue::Varint(x) => varint_bytes(x as nat),
        SpecValue::Fixed64(b) => b,
        SpecValue::Bytes(b) => varint_bytes(b.len()) + b,
        SpecValue::Fixed32(b) => b,
    }
}

/// A field on the wire: its tag, `number << 3 | wire type`, then its value.
pub open spec fn field_bytes(f: SpecField) -> Seq<u8> {
    varint_bytes(tag_of(f)) + value_bytes(f.value)
}

pub open spec fn tag_of(f: SpecField) -> nat {
    (f.number * 8 + wire_type(f.value)) as nat
}

/// A message on the wire: its fields, one after the other.
pub open spec fn fields_bytes(fs: Seq<SpecField>) -> Seq<u8>
    decreases fs.len(),
{
    if fs.len() == 0 {
        Seq::empty()
    } else {
        fields_bytes(fs.drop_last()) + field_bytes(fs.last())
    }
}

/// Reads one field from the front of `s`: the field, and how many bytes it
/// took. Field number 0 and the group wire types 3 and 4 are not fields.
pub open spec fn field_of(s: Seq<u8>) -> Option<(SpecField, nat)> {
    match varint_of(s) {
        None => None,
        Some((tag, tl)) => {
            let number = tag / 8;
            let wire = tag % 8;
            let rest = s.skip(tl as int);
            if number == 0 || number > u32::MAX {
                None
            } else if wire == 0 {
                match varint_of(rest) {
                    Some((v, vl)) => Some(
                        (SpecField { number: number as u32, value: SpecValue::Varint(v) }, tl + vl),
                    ),
                    None => None,
                }
            } else if wire == 1 {
                if rest.len() >= 8 {
                    Some(
                        (
                            SpecField {
                                number: number as u32,
                                value: SpecValue::Fixed64(rest.take(8)),
                            },
                            tl + 8,
                        ),
                    )
                } else {
                    None
                }
            } else if wire == 2 {
                match varint_of(rest) {
                    Some((len, ll)) => if rest.len() >= ll + len {
                        Some(
                            (
                                SpecField {
                                    number: number as u32,
                                    value: SpecValue::Bytes(rest.skip(ll as int).take(len as int)),
                                },
                                (tl + ll + len) as nat,
                            ),
                        )
                    } else {
                        None
                    },
                    None => None,
                }
            } else if wire == 5 {
                if rest.len() >= 4 {
                    Some(
                        (
                            SpecField {
                                number: number as u32,
                                value: SpecValue::Fixed32(rest.take(4)),
                            },
                            tl + 4,
                        ),
                    )
                } else {
                    None
                }
            } else {
                None
            }
        },
    }
}

/// Reads a whole message: every byte has to belong to a field.
pub open spec fn fields_of(s: Seq<u8>) -> Option<Seq<SpecField>>
    decreases s.len(),
{
    if s.len() == 0 {
        Some(Seq::empty())
    } else {
        match field_of(s) {
            Some((f, n)) => if 0 < n <= s.len() {
                match fields_of(s.skip(n as int)) {
                    Some(rest) => Some(seq![f] + rest),
                    None => None,
                }
            } else {
                None
            },
            None => None,
        }
    }
}

/// A field the encoding can carry: a number the tag has room for, and a value
/// of the size its wire type says.
pub open spec fn field_is_encodable(f: SpecField) -> bool {
    &&& f.number >= 1
    &&& match f.value {
        SpecValue::Fixed64(b) => b.len() == 8,
        SpecValue::Fixed32(b) => b.len() == 4,
        SpecValue::Bytes(b) => b.len() <= u64::MAX,
        SpecValue::Varint(_) => true,
    }
}

pub open spec fn fields_are_encodable(fs: Seq<SpecField>) -> bool {
    forall|i: int| 0 <= i < fs.len() ==> field_is_encodable(#[trigger] fs[i])
}

pub proof fn lemma_fields_bytes_front(fs: Seq<SpecField>)
    requires
        fs.len() > 0,
    ensures
        fields_bytes(fs) == field_bytes(fs[0]) + fields_bytes(fs.drop_first()),
    decreases fs.len(),
{
    if fs.len() == 1 {
        assert(fs.drop_last() =~= Seq::<SpecField>::empty());
        assert(fs.drop_first() =~= Seq::<SpecField>::empty());
        assert(fields_bytes(fs) =~= field_bytes(fs[0]) + fields_bytes(fs.drop_first()));
    } else {
        lemma_fields_bytes_front(fs.drop_last());
        assert(fs.drop_last().drop_first() =~= fs.drop_first().drop_last());
        assert(fs.drop_first().last() == fs.last());
        assert(fields_bytes(fs) =~= field_bytes(fs[0]) + fields_bytes(fs.drop_first()));
    }
}

/// A field read back from its own encoding is the field, whatever follows.
pub proof fn lemma_field_roundtrip(f: SpecField, rest: Seq<u8>)
    requires
        field_is_encodable(f),
    ensures
        field_of(field_bytes(f) + rest) == Some((f, field_bytes(f).len())),
{
    let tag = tag_of(f);
    assert(tag <= u64::MAX);
    let s = field_bytes(f) + rest;
    let tb = varint_bytes(tag as nat);
    lemma_u64_varint_roundtrip(tag as u64, value_bytes(f.value) + rest);
    assert(s =~= tb + (value_bytes(f.value) + rest));
    let after = s.skip(tb.len() as int);
    assert(after =~= value_bytes(f.value) + rest);
    assert(tag / 8 == f.number);
    assert(tag % 8 == wire_type(f.value));
    match f.value {
        SpecValue::Varint(x) => {
            lemma_u64_varint_roundtrip(x, rest);
        },
        SpecValue::Fixed64(b) => {
            assert(after.take(8) =~= b);
        },
        SpecValue::Fixed32(b) => {
            assert(after.take(4) =~= b);
        },
        SpecValue::Bytes(b) => {
            let lb = varint_bytes(b.len());
            lemma_u64_varint_roundtrip(b.len() as u64, b + rest);
            assert(after =~= lb + (b + rest));
            assert(after.skip(lb.len() as int).take(b.len() as int) =~= b);
        },
    }
}

/// Decoding an encoded message gives back the message, field for field.
pub proof fn lemma_message_roundtrip(fs: Seq<SpecField>)
    requires
        fields_are_encodable(fs),
    ensures
        fields_of(fields_bytes(fs)) == Some(fs),
    decreases fs.len(),
{
    if fs.len() == 0 {
        assert(fields_bytes(fs) =~= Seq::<u8>::empty());
        assert(fs =~= Seq::<SpecField>::empty());
    } else {
        lemma_fields_bytes_front(fs);
        let head = field_bytes(fs[0]);
        let tail = fields_bytes(fs.drop_first());
        assert(field_is_encodable(fs[0]));
        lemma_field_roundtrip(fs[0], tail);
        assert(head.len() > 0) by {
            lemma_u64_varint_roundtrip(tag_of(fs[0]) as u64, Seq::empty());
        }
        assert((head + tail).skip(head.len() as int) =~= tail);
        assert forall|i: int| 0 <= i < fs.drop_first().len() implies field_is_encodable(
            #[trigger] fs.drop_first()[i],
        ) by {
            assert(fs.drop_first()[i] == fs[i + 1]);
        }
        lemma_message_roundtrip(fs.drop_first());
        assert(seq![fs[0]] + fs.drop_first() =~= fs);
    }
}


// -- encoding and decoding ---------------------------------------------------

/// Appends every byte of `b`.
pub fn push_bytes(out: &mut Vec<u8>, b: &[u8])
    ensures
        final(out)@ == old(out)@ + b@,
{
    let ghost start = out@;
    let mut i: usize = 0;
    while i < b.len()
        invariant
            i <= b@.len(),
            out@ == start + b@.take(i as int),
        decreases b@.len() - i,
    {
        out.push(b[i]);
        assert(b@.take(i + 1) =~= b@.take(i as int).push(b@[i as int]));
        i = i + 1;
    }
    assert(b@.take(b@.len() as int) =~= b@);
}

/// The bytes `from..to` of `s`, as a vector of their own.
pub fn copy_range(s: &[u8], from: usize, to: usize) -> (r: Vec<u8>)
    requires
        from <= to <= s@.len(),
    ensures
        r@ == s@.subrange(from as int, to as int),
{
    let mut r = Vec::new();
    push_bytes(&mut r, &s[from..to]);
    assert(r@ =~= s@.subrange(from as int, to as int));
    r
}

impl Value {
    /// The wire type this value is written with.
    pub fn wire_type(&self) -> (w: u64)
        ensures
            w == wire_type(self@),
    {
        match self {
            Value::Varint(_) => 0,
            Value::Fixed64(_) => 1,
            Value::Bytes(_) => 2,
            Value::Fixed32(_) => 5,
        }
    }

    /// An exact copy.
    pub fn duplicate(&self) -> (r: Value)
        ensures
            r@ == self@,
    {
        match self {
            Value::Varint(v) => Value::Varint(*v),
            Value::Fixed64(b) => Value::Fixed64(*b),
            Value::Bytes(b) => {
                let c = copy_range(b.as_slice(), 0, b.len());
                assert(c@ =~= b@);
                Value::Bytes(c)
            },
            Value::Fixed32(b) => Value::Fixed32(*b),
        }
    }
}

impl Field {
    /// An exact copy.
    pub fn duplicate(&self) -> (r: Field)
        ensures
            r@ == self@,
    {
        Field { number: self.number, value: self.value.duplicate() }
    }
}

fn encode_field(f: &Field, out: &mut Vec<u8>)
    ensures
        final(out)@ == old(out)@ + field_bytes(f@),
{
    let ghost start = out@;
    let tag = f.number as u64 * 8 + f.value.wire_type();
    encode_varint(tag, out);
    match &f.value {
        Value::Varint(v) => {
            encode_varint(*v, out);
        },
        Value::Fixed64(b) => {
            push_bytes(out, vstd::array::array_as_slice(b));
        },
        Value::Bytes(b) => {
            encode_varint(b.len() as u64, out);
            push_bytes(out, b.as_slice());
        },
        Value::Fixed32(b) => {
            push_bytes(out, vstd::array::array_as_slice(b));
        },
    }
    assert(out@ =~= start + field_bytes(f@));
}

/// `o` with `p` in front of it, when it is there.
pub open spec fn prepend(p: Seq<SpecField>, o: Option<Seq<SpecField>>) -> Option<Seq<SpecField>> {
    match o {
        Some(r) => Some(p + r),
        None => None,
    }
}

/// The consumed length of a field stays within the bytes it was read from.
pub proof fn lemma_field_of_bounds(s: Seq<u8>)
    ensures
        field_of(s) matches Some((f, n)) ==> 0 < n <= s.len(),
{
    lemma_read_varint_bounds(s, 10);
    if let Some((tag, tl)) = varint_of(s) {
        lemma_read_varint_bounds(s.skip(tl as int), 10);
    }
}

fn read_field_at(s: &[u8], pos: usize) -> (r: Option<(Field, usize)>)
    requires
        pos <= s@.len(),
    ensures
        match field_of(s@.skip(pos as int)) {
            Some((f, n)) => r matches Some((g, m)) && g@ == f && m == n,
            None => r is None,
        },
{
    let ghost t = s@.skip(pos as int);
    let _ = s.len();
    proof {
        lemma_field_of_bounds(t);
        lemma_read_varint_bounds(t, 10);
    }
    let (tag, tl) = match read_varint_at(s, pos) {
        Some(x) => x,
        None => return None,
    };
    assert(varint_of(t) == Some((tag, tl as nat)));
    assert(tl <= s@.len() - pos);
    let number = tag / 8;
    let wire = tag % 8;
    if number == 0 || number > u32::MAX as u64 {
        return None;
    }
    let p = pos + tl;
    assert(t.skip(tl as int) =~= s@.skip(p as int));
    proof {
        lemma_read_varint_bounds(s@.skip(p as int), 10);
    }
    if wire == 0 {
        match read_varint_at(s, p) {
            Some((v, vl)) => Some((Field { number: number as u32, value: Value::Varint(v) }, tl + vl)),
            None => None,
        }
    } else if wire == 1 {
        if s.len() - p >= 8 {
            let b: [u8; 8] = [s[p], s[p + 1], s[p + 2], s[p + 3], s[p + 4], s[p + 5], s[p + 6], s[p + 7]];
            assert(b@ =~= s@.skip(p as int).take(8));
            Some((Field { number: number as u32, value: Value::Fixed64(b) }, tl + 8))
        } else {
            None
        }
    } else if wire == 2 {
        match read_varint_at(s, p) {
            Some((len, ll)) => {
                assert(varint_of(s@.skip(p as int)) == Some((len, ll as nat)));
                let q = p + ll;
                if ((s.len() - q) as u64) < len {
                    return None;
                }
                let end = q + len as usize;
                let b = copy_range(s, q, end);
                assert(b@ =~= s@.skip(p as int).skip(ll as int).take(len as int));
                Some((Field { number: number as u32, value: Value::Bytes(b) }, tl + ll + len as usize))
            },
            None => None,
        }
    } else if wire == 5 {
        if s.len() - p >= 4 {
            let b: [u8; 4] = [s[p], s[p + 1], s[p + 2], s[p + 3]];
            assert(b@ =~= s@.skip(p as int).take(4));
            Some((Field { number: number as u32, value: Value::Fixed32(b) }, tl + 4))
        } else {
            None
        }
    } else {
        None
    }
}

impl Message {
    /// The wire form.
    pub fn encode(&self) -> (bytes: Vec<u8>)
        ensures
            bytes@ == fields_bytes(self@),
    {
        let mut out = Vec::new();
        let mut i: usize = 0;
        while i < self.fields.len()
            invariant
                i <= self.fields@.len(),
                out@ == fields_bytes(self@.take(i as int)),
            decreases self.fields@.len() - i,
        {
            encode_field(&self.fields[i], &mut out);
            assert(self@.take(i + 1).drop_last() =~= self@.take(i as int));
            i = i + 1;
        }
        assert(self@.take(self.fields@.len() as int) =~= self@);
        out
    }

    /// Parse a whole message. Every byte has to belong to a field, and a
    /// field has a number above zero and one of the four wire types this
    /// format still uses.
    pub fn decode(bytes: &[u8]) -> (r: Result<Message, DecodeError>)
        ensures
            match fields_of(bytes@) {
                Some(fs) => r matches Ok(m) && m@ == fs,
                None => r is Err,
            },
    {
        let mut fields: Vec<Field> = Vec::new();
        let mut pos: usize = 0;
        assert(bytes@.skip(0) =~= bytes@);
        proof {
            let e = Seq::<SpecField>::empty();
            assert(fields@.map_values(|f: Field| f@) =~= e);
            if let Some(r) = fields_of(bytes@) {
                assert(e + r =~= r);
            }
        }
        while pos < bytes.len()
            invariant
                pos <= bytes@.len(),
                fields_of(bytes@) == prepend(
                    fields@.map_values(|f: Field| f@),
                    fields_of(bytes@.skip(pos as int)),
                ),
            decreases bytes@.len() - pos,
        {
            let ghost t = bytes@.skip(pos as int);
            let ghost before = fields@.map_values(|f: Field| f@);
            proof {
                lemma_field_of_bounds(t);
            }
            match read_field_at(bytes, pos) {
                Some((f, n)) => {
                    assert(t.skip(n as int) =~= bytes@.skip(pos + n));
                    let ghost fv = f@;
                    fields.push(f);
                    assert(fields@.map_values(|f: Field| f@) =~= before.push(fv));
                    proof {
                        match fields_of(t.skip(n as int)) {
                            Some(r) => {
                                assert(before + (seq![fv] + r) =~= before.push(fv) + r);
                            },
                            None => {},
                        }
                    }
                    pos = pos + n;
                },
                None => {
                    return Err(DecodeError);
                },
            }
        }
        let m = Message { fields };
        proof {
            assert(bytes@.skip(pos as int) =~= Seq::<u8>::empty());
            assert(m@ + Seq::<SpecField>::empty() =~= m@);
        }
        Ok(m)
    }
}

/// A nested message, when the bytes are one. An empty byte string is not a
/// message here: a zero-length field is an empty string or an empty cell far
/// more often than it is a message with nothing in it.
pub open spec fn nested_of(bytes: Seq<u8>) -> Option<Seq<SpecField>> {
    if bytes.len() == 0 {
        None
    } else {
        fields_of(bytes)
    }
}

pub fn decode_nested(bytes: &[u8]) -> (r: Option<Message>)
    ensures
        match nested_of(bytes@) {
            Some(fs) => r matches Some(m) && m@ == fs,
            None => r is None,
        },
{
    if bytes.len() == 0 {
        return None;
    }
    match Message::decode(bytes) {
        Ok(m) => Some(m),
        Err(_) => None,
    }
}


// -- reading and writing fields ----------------------------------------------

/// Where the first field with this number is.
pub open spec fn index_of_first(fs: Seq<SpecField>, number: u32) -> Option<int>
    decreases fs.len(),
{
    if fs.len() == 0 {
        None
    } else if fs[0].number == number {
        Some(0)
    } else {
        match index_of_first(fs.drop_first(), number) {
            Some(i) => Some(i + 1),
            None => None,
        }
    }
}

/// The value of the first field with this number.
pub open spec fn first_with(fs: Seq<SpecField>, number: u32) -> Option<SpecValue> {
    match index_of_first(fs, number) {
        Some(i) => Some(fs[i].value),
        None => None,
    }
}

/// The first field with this number, when it is a varint.
pub open spec fn varint_field(fs: Seq<SpecField>, number: u32) -> Option<u64> {
    match first_with(fs, number) {
        Some(SpecValue::Varint(v)) => Some(v),
        _ => None,
    }
}

/// The first field with this number, when it is length-delimited.
pub open spec fn bytes_field(fs: Seq<SpecField>, number: u32) -> Option<Seq<u8>> {
    match first_with(fs, number) {
        Some(SpecValue::Bytes(b)) => Some(b),
        _ => None,
    }
}

/// The values of every field with this number, in order.
pub open spec fn values_with(fs: Seq<SpecField>, number: u32) -> Seq<SpecValue>
    decreases fs.len(),
{
    if fs.len() == 0 {
        Seq::empty()
    } else if fs.last().number == number {
        values_with(fs.drop_last(), number).push(fs.last().value)
    } else {
        values_with(fs.drop_last(), number)
    }
}

/// Where a field with this number goes to keep the fields in order: before
/// the first field with a higher number.
pub open spec fn insertion_point(fs: Seq<SpecField>, number: u32) -> nat
    decreases fs.len(),
{
    if fs.len() == 0 {
        0
    } else if fs[0].number > number {
        0
    } else {
        1 + insertion_point(fs.drop_first(), number)
    }
}

/// `set`: the first field with the number takes the value, or a field is
/// added at the end.
pub open spec fn set_spec(fs: Seq<SpecField>, number: u32, v: SpecValue) -> Seq<SpecField> {
    match index_of_first(fs, number) {
        Some(i) => fs.update(i, SpecField { number, value: v }),
        None => fs.push(SpecField { number, value: v }),
    }
}

/// `set_in_order`: the first field with the number takes the value, or a field
/// is added where the number order puts it.
pub open spec fn set_in_order_spec(fs: Seq<SpecField>, number: u32, v: SpecValue) -> Seq<SpecField> {
    match index_of_first(fs, number) {
        Some(i) => fs.update(i, SpecField { number, value: v }),
        None => fs.insert(insertion_point(fs, number) as int, SpecField { number, value: v }),
    }
}

/// `append_in_order`: a new field, after every field with the same or a lower
/// number that comes before the first higher one.
pub open spec fn append_in_order_spec(fs: Seq<SpecField>, number: u32, v: SpecValue) -> Seq<SpecField> {
    fs.insert(insertion_point(fs, number) as int, SpecField { number, value: v })
}

pub proof fn lemma_index_of_first(fs: Seq<SpecField>, number: u32)
    ensures
        match index_of_first(fs, number) {
            Some(i) => {
                &&& 0 <= i < fs.len()
                &&& fs[i].number == number
                &&& forall|j: int| 0 <= j < i ==> fs[j].number != number
            },
            None => forall|j: int| 0 <= j < fs.len() ==> fs[j].number != number,
        },
    decreases fs.len(),
{
    if fs.len() > 0 && fs[0].number != number {
        lemma_index_of_first(fs.drop_first(), number);
        assert forall|j: int| 1 <= j < fs.len() implies fs[j] == fs.drop_first()[j - 1] by {}
    }
}

pub proof fn lemma_insertion_point(fs: Seq<SpecField>, number: u32)
    ensures
        insertion_point(fs, number) <= fs.len(),
        forall|j: int| 0 <= j < insertion_point(fs, number) ==> fs[j].number <= number,
        insertion_point(fs, number) < fs.len() ==> fs[insertion_point(fs, number) as int].number
            > number,
    decreases fs.len(),
{
    if fs.len() > 0 && fs[0].number <= number {
        lemma_insertion_point(fs.drop_first(), number);
        assert forall|j: int| 1 <= j < fs.len() implies fs[j] == fs.drop_first()[j - 1] by {}
    }
}

proof fn lemma_values_with_push(fs: Seq<SpecField>, f: SpecField, number: u32)
    ensures
        values_with(fs.push(f), number) == if f.number == number {
            values_with(fs, number).push(f.value)
        } else {
            values_with(fs, number)
        },
{
    assert(fs.push(f).drop_last() =~= fs);
}

impl Message {
    fn index_of(&self, number: u32) -> (r: Option<usize>)
        ensures
            match index_of_first(self@, number) {
                Some(i) => r matches Some(j) && j == i,
                None => r is None,
            },
            r matches Some(i) ==> i < self@.len() && self@[i as int].number == number,
    {
        let mut i: usize = 0;
        while i < self.fields.len()
            invariant
                i <= self.fields@.len(),
                self@.len() == self.fields@.len(),
                forall|j: int| 0 <= j < i ==> self@[j].number != number,
            decreases self.fields@.len() - i,
        {
            assert(self@[i as int].number == self.fields@[i as int].number);
            if self.fields[i].number == number {
                proof {
                    lemma_index_of_first(self@, number);
                    match index_of_first(self@, number) {
                        Some(k) => {
                            if k < i {
                                assert(self@[k].number != number);
                            } else if k > i {
                                assert(self@[i as int].number != number);
                            }
                        },
                        None => {
                            assert(self@[i as int].number != number);
                        },
                    }
                }
                return Some(i);
            }
            i = i + 1;
        }
        proof {
            lemma_index_of_first(self@, number);
        }
        None
    }

    fn insertion_index(&self, number: u32) -> (r: usize)
        ensures
            r == insertion_point(self@, number),
    {
        proof {
            lemma_insertion_point(self@, number);
        }
        let _ = self.fields.len();
        let mut i: usize = 0;
        while i < self.fields.len()
            invariant
                i <= self.fields@.len(),
                self@.len() == self.fields@.len(),
                forall|j: int| 0 <= j < i ==> self@[j].number <= number,
                i <= insertion_point(self@, number),
                insertion_point(self@, number) <= self@.len(),
                insertion_point(self@, number) < self@.len() ==> self@[insertion_point(
                    self@,
                    number,
                ) as int].number > number,
            decreases self.fields@.len() - i,
        {
            assert(self@[i as int].number == self.fields@[i as int].number);
            if self.fields[i].number > number {
                proof {
                    lemma_insertion_point(self@, number);
                    let p = insertion_point(self@, number);
                    if i < p {
                        assert(self@[i as int].number <= number);
                    }
                }
                return i;
            }
            i = i + 1;
        }
        i
    }

    /// The first field with this number.
    pub fn get(&self, number: u32) -> (r: Option<&Value>)
        ensures
            match first_with(self@, number) {
                Some(v) => r matches Some(x) && x@ == v,
                None => r is None,
            },
    {
        match self.index_of(number) {
            Some(i) => {
                assert(self@[i as int] == self.fields@[i as int]@);
                Some(&self.fields[i].value)
            },
            None => None,
        }
    }

    /// The first field with this number, when it is a varint.
    pub fn varint(&self, number: u32) -> (r: Option<u64>)
        ensures
            r == varint_field(self@, number),
    {
        match self.get(number) {
            Some(Value::Varint(v)) => Some(*v),
            _ => None,
        }
    }

    /// The first field with this number, when it is length-delimited.
    pub fn bytes(&self, number: u32) -> (r: Option<&[u8]>)
        ensures
            match bytes_field(self@, number) {
                Some(b) => r matches Some(x) && x@ == b,
                None => r is None,
            },
    {
        match self.get(number) {
            Some(Value::Bytes(b)) => Some(b.as_slice()),
            _ => None,
        }
    }

    /// Every value with this number, in order.
    pub fn all(&self, number: u32) -> (r: Vec<&Value>)
        ensures
            r@.len() == values_with(self@, number).len(),
            forall|i: int| 0 <= i < r@.len() ==> r@[i]@ == values_with(self@, number)[i],
    {
        let mut out: Vec<&Value> = Vec::new();
        let mut i: usize = 0;
        while i < self.fields.len()
            invariant
                i <= self.fields@.len(),
                out@.len() == values_with(self@.take(i as int), number).len(),
                forall|k: int|
                    0 <= k < out@.len() ==> out@[k]@ == values_with(self@.take(i as int), number)[k],
            decreases self.fields@.len() - i,
        {
            proof {
                assert(self@.take(i + 1) =~= self@.take(i as int).push(self@[i as int]));
                lemma_values_with_push(self@.take(i as int), self@[i as int], number);
            }
            if self.fields[i].number == number {
                out.push(&self.fields[i].value);
            }
            i = i + 1;
        }
        assert(self@.take(self.fields@.len() as int) =~= self@);
        out
    }

    /// Give the first field with this number a new value, or add the field at
    /// the end.
    pub fn set(&mut self, number: u32, value: Value)
        ensures
            final(self)@ == set_spec(old(self)@, number, value@),
    {
        let ghost v = value@;
        match self.index_of(number) {
            Some(i) => {
                assert(index_of_first(old(self)@, number) == Some(i as int));
                self.fields.set(i, Field { number, value });
                assert(self@ =~= old(self)@.update(i as int, SpecField { number, value: v }));
            },
            None => {
                assert(index_of_first(old(self)@, number) is None);
                self.fields.push(Field { number, value });
                assert(self@ =~= old(self)@.push(SpecField { number, value: v }));
            },
        }
    }

    /// Give the first field with this number a new value, or add the field
    /// where the number order puts it.
    pub fn set_in_order(&mut self, number: u32, value: Value)
        ensures
            final(self)@ == set_in_order_spec(old(self)@, number, value@),
    {
        let ghost v = value@;
        match self.index_of(number) {
            Some(i) => {
                assert(index_of_first(old(self)@, number) == Some(i as int));
                self.fields.set(i, Field { number, value });
                assert(self@ =~= old(self)@.update(i as int, SpecField { number, value: v }));
            },
            None => {
                assert(index_of_first(old(self)@, number) is None);
                let at = self.insertion_index(number);
                proof {
                    lemma_insertion_point(old(self)@, number);
                }
                self.fields.insert(at, Field { number, value });
                assert(self@ =~= old(self)@.insert(at as int, SpecField { number, value: v }));
            },
        }
    }

    /// Add a field after the last one that does not have a higher number.
    pub fn append_in_order(&mut self, number: u32, value: Value)
        ensures
            final(self)@ == append_in_order_spec(old(self)@, number, value@),
    {
        let ghost v = value@;
        let at = self.insertion_index(number);
        proof {
            lemma_insertion_point(old(self)@, number);
        }
        self.fields.insert(at, Field { number, value });
        assert(self@ =~= old(self)@.insert(at as int, SpecField { number, value: v }));
    }
}

// -- sizes ---------------------------------------------------------------------

pub proof fn lemma_varint_nonempty(v: nat)
    ensures
        varint_bytes(v).len() >= 1,
{
}

/// An encoded field is longer than any byte string it carries.
pub proof fn lemma_field_bytes_size(f: SpecField)
    ensures
        field_bytes(f).len() >= 1,
        f.value matches SpecValue::Bytes(b) ==> b.len() < field_bytes(f).len(),
{
    lemma_varint_nonempty(tag_of(f));
    if let SpecValue::Bytes(b) = f.value {
        lemma_varint_nonempty(b.len());
    }
}

/// The fields before the last take up fewer bytes than all of them.
pub proof fn lemma_fields_bytes_last(fs: Seq<SpecField>)
    requires
        fs.len() > 0,
    ensures
        fields_bytes(fs).len() == fields_bytes(fs.drop_last()).len() + field_bytes(fs.last()).len(),
        fields_bytes(fs.drop_last()).len() < fields_bytes(fs).len(),
        field_bytes(fs.last()).len() <= fields_bytes(fs).len(),
{
    lemma_field_bytes_size(fs.last());
}

/// The minimal encoding of what a field read is never longer than what was
/// read.
pub proof fn lemma_field_of_size(s: Seq<u8>)
    ensures
        field_of(s) matches Some((f, n)) ==> field_bytes(f).len() <= n,
{
    lemma_read_varint_bounds(s, 10);
    if let Some((tag, tl)) = varint_of(s) {
        lemma_varint_len(tag as nat, tl);
        let rest = s.skip(tl as int);
        lemma_read_varint_bounds(rest, 10);
        if let Some((v, vl)) = varint_of(rest) {
            lemma_varint_len(v as nat, vl);
        }
        if let Some((f, n)) = field_of(s) {
            assert(tag_of(f) == tag);
        }
    }
}

/// A message re-encodes in no more bytes than it was read from.
pub proof fn lemma_fields_of_size(s: Seq<u8>)
    ensures
        fields_of(s) matches Some(fs) ==> fields_bytes(fs).len() <= s.len(),
    decreases s.len(),
{
    if s.len() > 0 {
        if let Some((f, n)) = field_of(s) {
            if 0 < n <= s.len() {
                lemma_fields_of_size(s.skip(n as int));
                if let Some(rest) = fields_of(s.skip(n as int)) {
                    let fs = seq![f] + rest;
                    lemma_fields_bytes_front(fs);
                    assert(fs.drop_first() =~= rest);
                    lemma_field_of_size(s);
                }
            }
        }
    }
}

impl Message {
    /// An exact copy.
    pub fn duplicate(&self) -> (r: Message)
        ensures
            r@ == self@,
    {
        let mut fields: Vec<Field> = Vec::new();
        let mut i: usize = 0;
        while i < self.fields.len()
            invariant
                i <= self.fields@.len(),
                fields@.map_values(|f: Field| f@) == self@.take(i as int),
            decreases self.fields@.len() - i,
        {
            let ghost before = fields@.map_values(|f: Field| f@);
            fields.push(self.fields[i].duplicate());
            assert(fields@.map_values(|f: Field| f@) =~= before.push(self.fields@[i as int]@));
            assert(self@.take(i + 1) =~= self@.take(i as int).push(self.fields@[i as int]@));
            i = i + 1;
        }
        assert(self@.take(self.fields@.len() as int) =~= self@);
        Message { fields }
    }
}

/// A `TSP.Reference` — `{1: identifier}` — and the object it names.
pub open spec fn spec_reference_target(fs: Seq<SpecField>) -> Option<u64> {
    varint_field(fs, 1)
}

/// The object a `TSP.Reference` or `TSP.DataReference` names.
pub fn reference_target(message: &Message) -> (r: Option<u64>)
    ensures
        r == spec_reference_target(message@),
{
    message.varint(1)
}


// -- laws ----------------------------------------------------------------------------

/// Every field a read produces is one the encoding can carry.
proof fn lemma_field_of_encodable(s: Seq<u8>)
    ensures
        field_of(s) matches Some((f, n)) ==> field_is_encodable(f),
{
}

/// Every message a read produces is one the encoding can carry.
pub proof fn lemma_fields_of_encodable(s: Seq<u8>)
    ensures
        fields_of(s) matches Some(fs) ==> fields_are_encodable(fs),
    decreases s.len(),
{
    if s.len() > 0 {
        if let Some((f, n)) = field_of(s) {
            if 0 < n <= s.len() {
                lemma_fields_of_encodable(s.skip(n as int));
                lemma_field_of_encodable(s);
                if let Some(rest) = fields_of(s.skip(n as int)) {
                    let fs = seq![f] + rest;
                    assert forall|i: int| 0 <= i < fs.len() implies field_is_encodable(
                        #[trigger] fs[i],
                    ) by {
                        if i > 0 {
                            assert(fs[i] == rest[i - 1]);
                        }
                    }
                }
            }
        }
    }
}

/// A message read from bytes and written out again reads back as the same
/// message, field for field: re-encoding a decoded message loses nothing,
/// whatever this crate does or does not understand about its fields.
pub proof fn law_decoded_message_reencodes(bytes: Seq<u8>)
    ensures
        fields_of(bytes) matches Some(fs) ==> fields_of(fields_bytes(fs)) == Some(fs),
{
    lemma_fields_of_encodable(bytes);
    if let Some(fs) = fields_of(bytes) {
        lemma_message_roundtrip(fs);
    }
}

/// After `set`, the field reads back as the value set, and every other field
/// number reads as before.
pub proof fn law_set_then_get(fs: Seq<SpecField>, number: u32, v: SpecValue, other: u32)
    requires
        other != number,
    ensures
        first_with(set_spec(fs, number, v), number) == Some(v),
        first_with(set_spec(fs, number, v), other) == first_with(fs, other),
{
    let after = set_spec(fs, number, v);
    lemma_index_of_first(fs, number);
    lemma_index_of_first(fs, other);
    lemma_index_of_first(after, number);
    lemma_index_of_first(after, other);
    match index_of_first(fs, number) {
        Some(i) => {
            assert(after[i].number == number);
            match index_of_first(after, number) {
                Some(j) => {
                    if j < i {
                        assert(after[j] == fs[j]);
                    }
                    if i < j {
                        assert(after[i].number == number);
                    }
                },
                None => {
                    assert(after[i].number == number);
                },
            }
            match (index_of_first(after, other), index_of_first(fs, other)) {
                (Some(a), Some(b)) => {
                    if a < b {
                        assert(after[a] == fs[a]);
                    }
                    if b < a {
                        assert(after[b] == fs[b]);
                    }
                },
                (Some(a), None) => {
                    assert(after[a] == fs[a]);
                },
                (None, Some(b)) => {
                    assert(after[b] == fs[b]);
                },
                (None, None) => {},
            }
        },
        None => {
            let last = fs.len() as int;
            assert(after[last].number == number);
            match index_of_first(after, number) {
                Some(j) => {
                    if j < last {
                        assert(after[j] == fs[j]);
                    }
                },
                None => {},
            }
            match (index_of_first(after, other), index_of_first(fs, other)) {
                (Some(a), Some(b)) => {
                    if a < b {
                        assert(after[a] == fs[a]);
                    }
                    if b < a {
                        assert(after[b] == fs[b]);
                    }
                },
                (Some(a), None) => {
                    if a < last {
                        assert(after[a] == fs[a]);
                    }
                },
                (None, Some(b)) => {
                    assert(after[b] == fs[b]);
                },
                (None, None) => {},
            }
        },
    }
}

/// After `set_in_order`, the field reads back as the value set, and every
/// other field number reads as before.
pub proof fn law_set_in_order_then_get(fs: Seq<SpecField>, number: u32, v: SpecValue, other: u32)
    requires
        other != number,
    ensures
        first_with(set_in_order_spec(fs, number, v), number) == Some(v),
        first_with(set_in_order_spec(fs, number, v), other) == first_with(fs, other),
{
    let after = set_in_order_spec(fs, number, v);
    lemma_index_of_first(fs, number);
    lemma_index_of_first(fs, other);
    lemma_index_of_first(after, number);
    lemma_index_of_first(after, other);
    match index_of_first(fs, number) {
        Some(i) => {
            assert(after[i].number == number);
            match index_of_first(after, number) {
                Some(j) => {
                    if j < i {
                        assert(after[j] == fs[j]);
                    }
                },
                None => {},
            }
            match (index_of_first(after, other), index_of_first(fs, other)) {
                (Some(a), Some(b)) => {
                    if a < b {
                        assert(after[a] == fs[a]);
                    }
                    if b < a {
                        assert(after[b] == fs[b]);
                    }
                },
                (Some(a), None) => {
                    assert(after[a] == fs[a]);
                },
                (None, Some(b)) => {
                    assert(after[b] == fs[b]);
                },
                (None, None) => {},
            }
        },
        None => {
            lemma_insertion_point(fs, number);
            let at = insertion_point(fs, number) as int;
            assert(after[at].number == number);
            match index_of_first(after, number) {
                Some(j) => {
                    if j < at {
                        assert(after[j] == fs[j]);
                    }
                },
                None => {},
            }
            match (index_of_first(after, other), index_of_first(fs, other)) {
                (Some(a), Some(b)) => {
                    if a < at {
                        assert(after[a] == fs[a]);
                    } else if a > at {
                        assert(after[a] == fs[a - 1]);
                    }
                    if b < at {
                        assert(after[b] == fs[b]);
                    } else {
                        assert(after[b + 1] == fs[b]);
                    }
                },
                (Some(a), None) => {
                    if a < at {
                        assert(after[a] == fs[a]);
                    } else if a > at {
                        assert(after[a] == fs[a - 1]);
                    }
                },
                (None, Some(b)) => {
                    if b < at {
                        assert(after[b] == fs[b]);
                    } else {
                        assert(after[b + 1] == fs[b]);
                    }
                },
                (None, None) => {},
            }
        },
    }
}

/// **Bytes in the form this crate writes come back byte for byte.** Bytes
/// that encode some fields decode to those fields, and encoding what was
/// decoded gives the very same bytes. Bytes in another form, such as a varint
/// with a redundant continuation byte (`08 81 00` for `08 01`), decode to the
/// same fields but are written back in the shorter form.
pub proof fn law_written_bytes_roundtrip(fs: Seq<SpecField>)
    requires
        fields_are_encodable(fs),
    ensures
        fields_of(fields_bytes(fs)) == Some(fs),
        fields_bytes(fields_of(fields_bytes(fs)).unwrap()) == fields_bytes(fs),
{
    lemma_message_roundtrip(fs);
}

} // verus!
