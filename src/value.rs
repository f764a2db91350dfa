//! Decoded field values, output cells, and the coercion between them.
use vstd::prelude::*;
use vstd::string::*;

verus! {

/// One decoded field value. Floats are held as their IEEE-754 bit patterns.
#[derive(Debug, Clone, PartialEq, Eq)]
pub enum Value {
    U8(u8),
    I8(i8),
    U16(u16),
    I16(i16),
    U32(u32),
    I32(i32),
    /// A symbolic value, held as its display form.
    Enum(String),
    Text(String),
    F32(u32),
    F64(u64),
    I64(i64),
    U64(u64),
    /// A time quantity, held as its raw count.
    Time(u32),
    ArrU8(Vec<u8>),
    ArrU16(Vec<u16>),
    ArrU32(Vec<u32>),
}

/// One cell of the output table. `Null` is the absent marker.
#[derive(Debug, Clone, PartialEq, Eq)]
pub enum Cell {
    Null,
    UInt32(u32),
    UInt64(u64),
    Int32(i32),
    Int64(i64),
    /// A 32-bit float, held as its bit pattern.
    Float32(u32),
    /// A 64-bit float, held as its bit pattern.
    Float64(u64),
    Text(String),
}

/// The mathematical view of a cell.
pub enum CellV {
    Null,
    UInt32(u32),
    UInt64(u64),
    Int32(i32),
    Int64(i64),
    Float32(u32),
    Float64(u64),
    Text(Seq<char>),
}

impl View for Cell {
    type V = CellV;

    open spec fn view(&self) -> CellV {
        match self {
            Cell::Null => CellV::Null,
            Cell::UInt32(v) => CellV::UInt32(*v),
            Cell::UInt64(v) => CellV::UInt64(*v),
            Cell::Int32(v) => CellV::Int32(*v),
            Cell::Int64(v) => CellV::Int64(*v),
            Cell::Float32(v) => CellV::Float32(*v),
            Cell::Float64(v) => CellV::Float64(*v),
            Cell::Text(s) => CellV::Text(s@),
        }
    }
}

/// The character of a decimal digit.
pub open spec fn digit_char(d: nat) -> char {
    seq!['0', '1', '2', '3', '4', '5', '6', '7', '8', '9'][d as int]
}

/// The decimal rendering of `n`, without leading zeros.
pub open spec fn decimal(n: nat) -> Seq<char>
    decreases n,
{
    if n < 10 {
        seq![digit_char(n)]
    } else {
        decimal(n / 10) + seq![digit_char(n % 10)]
    }
}

/// The decimal renderings of `s`, separated by commas.
pub open spec fn comma_joined(s: Seq<nat>) -> Seq<char>
    decreases s.len(),
{
    if s.len() == 0 {
        Seq::empty()
    } else if s.len() == 1 {
        decimal(s[0])
    } else {
        comma_joined(s.drop_last()) + seq![','] + decimal(s.last())
    }
}

/// An array rendered as text: `[1,2,3]`.
pub open spec fn bracketed(s: Seq<nat>) -> Seq<char> {
    seq!['['] + comma_joined(s) + seq![']']
}

pub open spec fn nats_of_u8(s: Seq<u8>) -> Seq<nat> {
    s.map_values(|x: u8| x as nat)
}

pub open spec fn nats_of_u16(s: Seq<u16>) -> Seq<nat> {
    s.map_values(|x: u16| x as nat)
}

pub open spec fn nats_of_u32(s: Seq<u32>) -> Seq<nat> {
    s.map_values(|x: u32| x as nat)
}

/// The cell that a field value becomes.
pub open spec fn coerced(v: Value) -> CellV {
    match v {
        Value::U8(x) => CellV::UInt32(x as u32),
        Value::U16(x) => CellV::UInt32(x as u32),
        Value::U32(x) => CellV::UInt32(x),
        Value::U64(x) => CellV::UInt64(x),
        Value::I8(x) => CellV::Int32(x as i32),
        Value::I16(x) => CellV::Int32(x as i32),
        Value::I32(x) => CellV::Int32(x),
        Value::I64(x) => CellV::Int64(x),
        Value::F32(x) => CellV::Float32(x),
        Value::F64(x) => CellV::Float64(x),
        Value::Text(s) => CellV::Text(s@),
        Value::Enum(s) => CellV::Text(s@),
        Value::Time(x) => CellV::UInt32(x),
        Value::ArrU8(a) => CellV::Text(bracketed(nats_of_u8(a@))),
        Value::ArrU16(a) => CellV::Text(bracketed(nats_of_u16(a@))),
        Value::ArrU32(a) => CellV::Text(bracketed(nats_of_u32(a@))),
    }
}

fn digit_str(d: u64) -> (r: &'static str)
    requires
        d < 10,
    ensures
        r@ == seq![digit_char(d as nat)],
{
    proof {
        reveal_strlit("0");
        reveal_strlit("1");
        reveal_strlit("2");
        reveal_strlit("3");
        reveal_strlit("4");
        reveal_strlit("5");
        reveal_strlit("6");
        reveal_strlit("7");
        reveal_strlit("8");
        reveal_strlit("9");
    }
    if d == 0 {
        "0"
    } else if d == 1 {
        "1"
    } else if d == 2 {
        "2"
    } else if d == 3 {
        "3"
    } else if d == 4 {
        "4"
    } else if d == 5 {
        "5"
    } else if d == 6 {
        "6"
    } else if d == 7 {
        "7"
    } else if d == 8 {
        "8"
    } else {
        "9"
    }
}

/// Appends the decimal rendering of `n` to `out`.
pub fn push_decimal(out: &mut String, n: u64)
    ensures
        final(out)@ == old(out)@ + decimal(n as nat),
    decreases n,
{
    if n >= 10 {
        push_decimal(out, n / 10);
    }
    out.append(digit_str(n % 10));
}

pub open spec fn nats_of_u64(s: Seq<u64>) -> Seq<nat> {
    s.map_values(|x: u64| x as nat)
}

/// Renders numbers as decimal text, comma-joined and wrapped in brackets.
fn render_array(a: &Vec<u64>) -> (r: String)
    ensures
        r@ == bracketed(nats_of_u64(a@)),
{
    proof {
        reveal_strlit("[");
        reveal_strlit("]");
    }
    let mut out = String::from_str("[");
    let mut i: usize = 0;
    while i < a.len()
        invariant
            i <= a.len(),
            out@ == seq!['['] + comma_joined(nats_of_u64(a@.take(i as int))),
        decreases a.len() - i,
    {
        let ghost before = out@;
        proof {
            reveal_strlit(",");
        }
        if i > 0 {
            out.append(",");
        }
        assert(out@ =~= before + (if i > 0 { seq![','] } else { Seq::empty() }));
        push_decimal(&mut out, a[i]);
        proof {
            let t = nats_of_u64(a@.take(i + 1));
            assert(t.drop_last() =~= nats_of_u64(a@.take(i as int)));
            assert(t.len() == i + 1);
            assert(t.last() == a@[i as int] as nat);
            if i == 0 {
                assert(comma_joined(nats_of_u64(a@.take(0))) =~= Seq::empty());
                assert(out@ =~= seq!['['] + comma_joined(t));
            } else {
                assert(comma_joined(t) == comma_joined(t.drop_last()) + seq![','] + decimal(
                    t.last(),
                ));
                assert(out@ =~= seq!['['] + comma_joined(t));
            }
        }
        i = i + 1;
    }
    assert(a@.take(a.len() as int) =~= a@);
    out.append("]");
    out
}

fn widen_u8(a: &Vec<u8>) -> (r: Vec<u64>)
    ensures
        nats_of_u64(r@) == nats_of_u8(a@),
{
    let mut r: Vec<u64> = Vec::new();
    let mut i: usize = 0;
    while i < a.len()
        invariant
            i <= a.len(),
            r@.len() == i,
            forall|j: int| 0 <= j < i ==> r@[j] as nat == a@[j] as nat,
        decreases a.len() - i,
    {
        r.push(a[i] as u64);
        i = i + 1;
    }
    assert(nats_of_u64(r@) =~= nats_of_u8(a@));
    r
}

fn widen_u16(a: &Vec<u16>) -> (r: Vec<u64>)
    ensures
        nats_of_u64(r@) == nats_of_u16(a@),
{
    let mut r: Vec<u64> = Vec::new();
    let mut i: usize = 0;
    while i < a.len()
        invariant
            i <= a.len(),
            r@.len() == i,
            forall|j: int| 0 <= j < i ==> r@[j] as nat == a@[j] as nat,
        decreases a.len() - i,
    {
        r.push(a[i] as u64);
        i = i + 1;
    }
    assert(nats_of_u64(r@) =~= nats_of_u16(a@));
    r
}

fn widen_u32(a: &Vec<u32>) -> (r: Vec<u64>)
    ensures
        nats_of_u64(r@) == nats_of_u32(a@),
{
    let mut r: Vec<u64> = Vec::new();
    let mut i: usize = 0;
    while i < a.len()
        invariant
            i <= a.len(),
            r@.len() == i,
            forall|j: int| 0 <= j < i ==> r@[j] as nat == a@[j] as nat,
        decreases a.len() - i,
    {
        r.push(a[i] as u64);
        i = i + 1;
    }
    assert(nats_of_u64(r@) =~= nats_of_u32(a@));
    r
}

/// Coerces one field value into one output cell. Never fails.
pub fn coerce(v: &Value) -> (r: Cell)
    ensures
        r@ == coerced(*v),
{
    match v {
        Value::U8(x) => Cell::UInt32(*x as u32),
        Value::U16(x) => Cell::UInt32(*x as u32),
        Value::U32(x) => Cell::UInt32(*x),
        Value::U64(x) => Cell::UInt64(*x),
        Value::I8(x) => Cell::Int32(*x as i32),
        Value::I16(x) => Cell::Int32(*x as i32),
        Value::I32(x) => Cell::Int32(*x),
        Value::I64(x) => Cell::Int64(*x),
        Value::F32(x) => Cell::Float32(*x),
        Value::F64(x) => Cell::Float64(*x),
        Value::Text(s) => Cell::Text(s.clone()),
        Value::Enum(s) => Cell::Text(s.clone()),
        Value::Time(x) => Cell::UInt32(*x),
        Value::ArrU8(a) => Cell::Text(render_array(&widen_u8(a))),
        Value::ArrU16(a) => Cell::Text(render_array(&widen_u16(a))),
        Value::ArrU32(a) => Cell::Text(render_array(&widen_u32(a))),
    }
}

} // verus!
