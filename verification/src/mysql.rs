//! The MySQL API's value conversions: the one-letter type specs, and how each
//! column value of a result row becomes a script value under its spec.

use vstd::prelude::*;
use crate::timestamp::{date_time_millis, epoch_millis, valid_date, valid_time, DateTimeError};

verus! {

/// The type a script asks for in a query parameter or a result column.
#[derive(Debug, Clone, Copy, PartialEq, Eq, Structural)]
pub enum ValueSpec {
    /// `i`: a 32-bit integer, as a number.
    Int,
    /// `I`: a 64-bit integer, as a BigInt.
    BigInt,
    /// `f`: a floating-point number.
    Float,
    /// `s`: text.
    String,
    /// `b`: bytes.
    Binary,
    /// `d`: a date and time.
    Date,
}

/// The letter of each spec.
pub open spec fn spec_code(s: ValueSpec) -> u8 {
    match s {
        ValueSpec::Int => 0x69,
        ValueSpec::BigInt => 0x49,
        ValueSpec::Float => 0x66,
        ValueSpec::String => 0x73,
        ValueSpec::Binary => 0x62,
        ValueSpec::Date => 0x64,
    }
}

/// The spec a letter stands for, if any.
pub open spec fn spec_from_code(b: u8) -> Option<ValueSpec> {
    if b == 0x69 {
        Some(ValueSpec::Int)
    } else if b == 0x49 {
        Some(ValueSpec::BigInt)
    } else if b == 0x66 {
        Some(ValueSpec::Float)
    } else if b == 0x73 {
        Some(ValueSpec::String)
    } else if b == 0x62 {
        Some(ValueSpec::Binary)
    } else if b == 0x64 {
        Some(ValueSpec::Date)
    } else {
        None
    }
}

impl ValueSpec {
    /// The spec a letter stands for: `i`, `I`, `f`, `s`, `b` or `d`.
    pub fn from_u8(b: u8) -> (res: Option<ValueSpec>)
        ensures
            res == spec_from_code(b),
    {
        if b == 0x69 {
            Some(ValueSpec::Int)
        } else if b == 0x49 {
            Some(ValueSpec::BigInt)
        } else if b == 0x66 {
            Some(ValueSpec::Float)
        } else if b == 0x73 {
            Some(ValueSpec::String)
        } else if b == 0x62 {
            Some(ValueSpec::Binary)
        } else if b == 0x64 {
            Some(ValueSpec::Date)
        } else {
            None
        }
    }

    /// The letter of the spec.
    pub fn code(&self) -> (res: u8)
        ensures
            res == spec_code(*self),
    {
        match self {
            ValueSpec::Int => 0x69,
            ValueSpec::BigInt => 0x49,
            ValueSpec::Float => 0x66,
            ValueSpec::String => 0x73,
            ValueSpec::Binary => 0x62,
            ValueSpec::Date => 0x64,
        }
    }
}

/// Each letter read as a spec; none when one of them is no spec.
pub open spec fn spec_parse_specs(codes: Seq<u8>) -> Option<Seq<ValueSpec>>
    decreases codes.len(),
{
    if codes.len() == 0 {
        Some(Seq::empty())
    } else {
        match (spec_parse_specs(codes.drop_last()), spec_from_code(codes.last())) {
            (Some(v), Some(s)) => Some(v.push(s)),
            _ => None,
        }
    }
}

/// Reads the column specs of a query, one letter per column.
pub fn parse_value_specs(codes: &[u8]) -> (res: Option<Vec<ValueSpec>>)
    ensures
        match spec_parse_specs(codes@) {
            Some(v) => res matches Some(r) && r@ == v,
            None => res is None,
        },
{
    let mut out: Vec<ValueSpec> = Vec::new();
    let mut i: usize = 0;
    while i < codes.len()
        invariant
            i <= codes.len(),
            spec_parse_specs(codes@.take(i as int)) == Some(out@),
        decreases codes.len() - i,
    {
        proof {
            assert(codes@.take(i + 1).drop_last() =~= codes@.take(i as int));
        }
        match ValueSpec::from_u8(codes[i]) {
            Some(s) => out.push(s),
            None => {
                proof {
                    lemma_parse_specs_none_sticks(codes@, i + 1);
                }
                return None;
            },
        }
        i += 1;
    }
    proof {
        assert(codes@.take(codes@.len() as int) =~= codes@);
    }
    Some(out)
}

proof fn lemma_parse_specs_none_sticks(codes: Seq<u8>, n: int)
    requires
        0 <= n <= codes.len(),
        spec_parse_specs(codes.take(n)) is None,
    ensures
        spec_parse_specs(codes) is None,
    decreases codes.len(),
{
    if n == codes.len() {
        assert(codes.take(n) =~= codes);
    } else {
        assert(codes.drop_last().take(n) =~= codes.take(n));
        lemma_parse_specs_none_sticks(codes.drop_last(), n);
    }
}

/// A column value of a result row, as the MySQL driver gives it. A
/// floating-point value is known here by its kind only: nothing is decided on
/// its number, which the caller keeps.
#[derive(Debug, Clone, PartialEq, Eq)]
pub enum MysqlValue {
    Null,
    Bytes(Vec<u8>),
    Int(i64),
    UInt(u64),
    Float,
    Double,
    /// Year, month, day, hour, minutes, seconds, microseconds.
    Date(u16, u8, u8, u8, u8, u8, u32),
    /// Negative, days, hours, minutes, seconds, microseconds.
    Time(bool, u32, u8, u8, u8, u32),
}

/// The script value a column value becomes.
#[derive(Debug, Clone, PartialEq, Eq)]
pub enum JsValuePlan {
    /// `null`.
    Null,
    /// A `Uint8Array` of the bytes.
    Bytes(Vec<u8>),
    /// A number holding this integer exactly.
    Number(i64),
    /// A number holding the column's floating-point value.
    FloatNumber,
    /// A BigInt of a signed value.
    BigIntSigned(i64),
    /// A BigInt of an unsigned value.
    BigIntUnsigned(u64),
    /// A string of the UTF-8 bytes.
    Utf8String(Vec<u8>),
    /// A date at this many milliseconds after the Unix epoch.
    Date(u64),
}

/// The script value a column value becomes, with bytes taken by their view.
pub enum JsValueView {
    Null,
    Bytes(Seq<u8>),
    Number(i64),
    FloatNumber,
    BigIntSigned(i64),
    BigIntUnsigned(u64),
    Utf8String(Seq<u8>),
    Date(int),
}

/// The view of a script value plan.
pub open spec fn plan_view(p: JsValuePlan) -> JsValueView {
    match p {
        JsValuePlan::Null => JsValueView::Null,
        JsValuePlan::Bytes(x) => JsValueView::Bytes(x@),
        JsValuePlan::Number(x) => JsValueView::Number(x),
        JsValuePlan::FloatNumber => JsValueView::FloatNumber,
        JsValuePlan::BigIntSigned(x) => JsValueView::BigIntSigned(x),
        JsValuePlan::BigIntUnsigned(x) => JsValueView::BigIntUnsigned(x),
        JsValuePlan::Utf8String(x) => JsValueView::Utf8String(x@),
        JsValuePlan::Date(t) => JsValueView::Date(t as int),
    }
}

/// Why a column value cannot become a script value.
#[derive(Debug, Clone, Copy, PartialEq, Eq, Structural)]
pub enum CastError {
    /// The value's type does not match the spec.
    SpecMismatch(ValueSpec),
    /// An integer does not fit in 32 bits.
    OutOfRange,
    /// A date's month or day is out of range.
    InvalidDate,
    /// A date's time of day is out of range.
    InvalidTime,
}

/// The script value for a column value under a spec: `NULL` is always `null`;
/// `b` takes bytes; `i` takes integers that fit in 32 bits (signed or
/// unsigned); `I` takes any integer; `f` takes floating-point values; `s`
/// takes bytes as UTF-8 text; `d` takes valid dates, read in UTC, as their
/// whole milliseconds since the Unix epoch (0 for earlier dates).
pub open spec fn spec_cast_to_js(v: MysqlValue, spec: ValueSpec) -> Result<JsValueView, CastError> {
    if v is Null {
        Ok(JsValueView::Null)
    } else {
        match spec {
            ValueSpec::Binary => match v {
                MysqlValue::Bytes(x) => Ok(JsValueView::Bytes(x@)),
                _ => Err(CastError::SpecMismatch(spec)),
            },
            ValueSpec::Int => match v {
                MysqlValue::Int(x) => if i32::MIN <= x <= i32::MAX {
                    Ok(JsValueView::Number(x))
                } else {
                    Err(CastError::OutOfRange)
                },
                MysqlValue::UInt(x) => if x <= u32::MAX {
                    Ok(JsValueView::Number(x as i64))
                } else {
                    Err(CastError::OutOfRange)
                },
                _ => Err(CastError::SpecMismatch(spec)),
            },
            ValueSpec::Float => match v {
                MysqlValue::Float => Ok(JsValueView::FloatNumber),
                MysqlValue::Double => Ok(JsValueView::FloatNumber),
                _ => Err(CastError::SpecMismatch(spec)),
            },
            ValueSpec::BigInt => match v {
                MysqlValue::Int(x) => Ok(JsValueView::BigIntSigned(x)),
                MysqlValue::UInt(x) => Ok(JsValueView::BigIntUnsigned(x)),
                _ => Err(CastError::SpecMismatch(spec)),
            },
            ValueSpec::String => match v {
                MysqlValue::Bytes(x) => Ok(JsValueView::Utf8String(x@)),
                _ => Err(CastError::SpecMismatch(spec)),
            },
            ValueSpec::Date => match v {
                MysqlValue::Date(y, mo, d, h, mi, s, us) => if !valid_date(y as int, mo as int, d as int) {
                    Err(CastError::InvalidDate)
                } else if !valid_time(h as int, mi as int, s as int, us as int) {
                    Err(CastError::InvalidTime)
                } else {
                    Ok(
                        JsValueView::Date(
                            epoch_millis(y as nat, mo as int, d as int, h as int, mi as int, s as int, us as int),
                        ),
                    )
                },
                _ => Err(CastError::SpecMismatch(spec)),
            },
        }
    }
}

/// Converts a column value under its spec into the script value to build.
pub fn cast_value_to_js(v: &MysqlValue, spec: ValueSpec) -> (res: Result<JsValuePlan, CastError>)
    ensures
        match spec_cast_to_js(*v, spec) {
            Ok(p) => (res matches Ok(r) && plan_view(r) == p),
            Err(e) => res == Err::<JsValuePlan, CastError>(e),
        },
{
    if let MysqlValue::Null = v {
        return Ok(JsValuePlan::Null);
    }
    match spec {
        ValueSpec::Binary => match v {
            MysqlValue::Bytes(x) => Ok(JsValuePlan::Bytes(clone_bytes(x))),
            _ => Err(CastError::SpecMismatch(spec)),
        },
        ValueSpec::Int => match v {
            MysqlValue::Int(x) => {
                if -2147483648i64 <= *x && *x <= 2147483647i64 {
                    Ok(JsValuePlan::Number(*x))
                } else {
                    Err(CastError::OutOfRange)
                }
            },
            MysqlValue::UInt(x) => {
                if *x <= 4294967295u64 {
                    Ok(JsValuePlan::Number(*x as i64))
                } else {
                    Err(CastError::OutOfRange)
                }
            },
            _ => Err(CastError::SpecMismatch(spec)),
        },
        ValueSpec::Float => match v {
            MysqlValue::Float => Ok(JsValuePlan::FloatNumber),
            MysqlValue::Double => Ok(JsValuePlan::FloatNumber),
            _ => Err(CastError::SpecMismatch(spec)),
        },
        ValueSpec::BigInt => match v {
            MysqlValue::Int(x) => Ok(JsValuePlan::BigIntSigned(*x)),
            MysqlValue::UInt(x) => Ok(JsValuePlan::BigIntUnsigned(*x)),
            _ => Err(CastError::SpecMismatch(spec)),
        },
        ValueSpec::String => match v {
            MysqlValue::Bytes(x) => Ok(JsValuePlan::Utf8String(clone_bytes(x))),
            _ => Err(CastError::SpecMismatch(spec)),
        },
        ValueSpec::Date => match v {
            MysqlValue::Date(y, mo, d, h, mi, s, us) => match date_time_millis(*y, *mo, *d, *h, *mi, *s, *us) {
                Ok(t) => Ok(JsValuePlan::Date(t)),
                Err(DateTimeError::InvalidDate) => Err(CastError::InvalidDate),
                Err(DateTimeError::InvalidTime) => Err(CastError::InvalidTime),
            },
            _ => Err(CastError::SpecMismatch(spec)),
        },
    }
}

/// A copy of a byte vector.
fn clone_bytes(x: &Vec<u8>) -> (res: Vec<u8>)
    ensures
        res@ == x@,
{
    let mut out: Vec<u8> = Vec::new();
    let mut i: usize = 0;
    while i < x.len()
        invariant
            i <= x.len(),
            out@ == x@.take(i as int),
        decreases x.len() - i,
    {
        out.push(x[i]);
        proof {
            assert(x@.take(i + 1) =~= x@.take(i as int).push(x@[i as int]));
        }
        i += 1;
    }
    proof {
        assert(x@.take(x@.len() as int) =~= x@);
    }
    out
}

/// Why a query result cannot be decoded.
#[derive(Debug, Clone, Copy, PartialEq, Eq, Structural)]
pub enum DecodeError {
    /// A row has another number of columns than there are specs: the spec
    /// count and the row's length.
    SpecLengthMismatch(usize, usize),
    /// A column value cannot be converted: its row, its column and why.
    Cast(usize, usize, CastError),
}

/// The first column of a row, from `from` on, that cannot be converted.
pub open spec fn first_cast_error(row: Seq<MysqlValue>, spec: Seq<ValueSpec>, from: int) -> Option<(int, CastError)>
    decreases row.len() - from,
{
    if from < 0 || from >= row.len() {
        None
    } else {
        match spec_cast_to_js(row[from], spec[from]) {
            Err(e) => Some((from, e)),
            Ok(_) => first_cast_error(row, spec, from + 1),
        }
    }
}

/// The first problem among the rows, from `from` on: a row of the wrong
/// length, or a column that cannot be converted.
pub open spec fn first_decode_error(rows: Seq<Seq<MysqlValue>>, spec: Seq<ValueSpec>, from: int) -> Option<DecodeError>
    decreases rows.len() - from,
{
    if from < 0 || from >= rows.len() {
        None
    } else if rows[from].len() != spec.len() {
        Some(DecodeError::SpecLengthMismatch(spec.len() as usize, rows[from].len() as usize))
    } else {
        match first_cast_error(rows[from], spec, 0) {
            Some((j, e)) => Some(DecodeError::Cast(from as usize, j as usize, e)),
            None => first_decode_error(rows, spec, from + 1),
        }
    }
}

/// The view of rows of column values.
pub open spec fn rows_view(rows: Seq<Vec<MysqlValue>>) -> Seq<Seq<MysqlValue>> {
    rows.map_values(|r: Vec<MysqlValue>| r@)
}

/// Converts every column of a row, or reports the first column that fails.
fn decode_row(row: &Vec<MysqlValue>, spec: &Vec<ValueSpec>) -> (res: Result<Vec<JsValuePlan>, (usize, CastError)>)
    requires
        row@.len() == spec@.len(),
    ensures
        match first_cast_error(row@, spec@, 0) {
            Some((j, e)) => res == Err::<Vec<JsValuePlan>, (usize, CastError)>((j as usize, e)),
            None => res matches Ok(out) && out@.len() == row@.len() && forall|j: int|
                0 <= j < row@.len() ==> spec_cast_to_js(row@[j], spec@[j]) == Ok::<JsValueView, CastError>(
                    plan_view(#[trigger] out@[j]),
                ),
        },
{
    let mut out: Vec<JsValuePlan> = Vec::new();
    let mut j: usize = 0;
    while j < row.len()
        invariant
            j <= row@.len(),
            row@.len() == spec@.len(),
            out@.len() == j,
            forall|k: int| 0 <= k < j ==> spec_cast_to_js(row@[k], spec@[k]) == Ok::<JsValueView, CastError>(
                plan_view(#[trigger] out@[k]),
            ),
            first_cast_error(row@, spec@, 0) == first_cast_error(row@, spec@, j as int),
        decreases row@.len() - j,
    {
        match cast_value_to_js(&row[j], spec[j]) {
            Ok(p) => {
                out.push(p);
            },
            Err(e) => {
                return Err((j, e));
            },
        }
        j += 1;
    }
    Ok(out)
}

/// Converts the rows of a query result under the column specs. Rows are read
/// in order: a row whose length differs from the number of specs is refused,
/// and so is the first column, in order, that cannot be converted.
pub fn decode_rows(rows: &Vec<Vec<MysqlValue>>, spec: &Vec<ValueSpec>) -> (res: Result<Vec<Vec<JsValuePlan>>, DecodeError>)
    ensures
        match first_decode_error(rows_view(rows@), spec@, 0) {
            Some(e) => res == Err::<Vec<Vec<JsValuePlan>>, DecodeError>(e),
            None => res matches Ok(out) && out@.len() == rows@.len() && (forall|i: int|
                0 <= i < rows@.len() ==> #[trigger] out@[i]@.len() == spec@.len()) && (forall|i: int, j: int|
                0 <= i < rows@.len() && 0 <= j < spec@.len() ==> spec_cast_to_js(rows@[i]@[j], spec@[j]) == Ok::<
                    JsValueView,
                    CastError,
                >(plan_view(#[trigger] out@[i]@[j]))),
        },
{
    let ghost rv = rows_view(rows@);
    let mut out: Vec<Vec<JsValuePlan>> = Vec::new();
    let mut i: usize = 0;
    while i < rows.len()
        invariant
            i <= rows@.len(),
            rv == rows_view(rows@),
            out@.len() == i,
            forall|a: int| 0 <= a < i ==> #[trigger] out@[a]@.len() == spec@.len(),
            forall|a: int, j: int|
                0 <= a < i && 0 <= j < spec@.len() ==> spec_cast_to_js(rows@[a]@[j], spec@[j]) == Ok::<
                    JsValueView,
                    CastError,
                >(plan_view(#[trigger] out@[a]@[j])),
            first_decode_error(rv, spec@, 0) == first_decode_error(rv, spec@, i as int),
        decreases rows@.len() - i,
    {
        let row = &rows[i];
        proof {
            assert(rv[i as int] == row@);
        }
        if row.len() != spec.len() {
            return Err(DecodeError::SpecLengthMismatch(spec.len(), row.len()));
        }
        match decode_row(row, spec) {
            Ok(r) => {
                out.push(r);
            },
            Err((j, e)) => {
                return Err(DecodeError::Cast(i, j, e));
            },
        }
        i += 1;
    }
    Ok(out)
}

/// The column value for a script BigInt, given its value as a signed and as
/// an unsigned 64-bit integer and whether each is exact: signed when exact,
/// else unsigned when exact, else out of range.
pub fn bigint_from_js(signed: i64, signed_exact: bool, unsigned: u64, unsigned_exact: bool) -> (res: Result<
    MysqlValue,
    CastError,
>)
    ensures
        signed_exact ==> res == Ok::<MysqlValue, CastError>(MysqlValue::Int(signed)),
        !signed_exact && unsigned_exact ==> res == Ok::<MysqlValue, CastError>(MysqlValue::UInt(unsigned)),
        !signed_exact && !unsigned_exact ==> res == Err::<MysqlValue, CastError>(CastError::OutOfRange),
{
    if signed_exact {
        Ok(MysqlValue::Int(signed))
    } else if unsigned_exact {
        Ok(MysqlValue::UInt(unsigned))
    } else {
        Err(CastError::OutOfRange)
    }
}

/// Why a query parameter's type spec is refused.
#[derive(Debug, Clone, Copy, PartialEq, Eq, Structural)]
pub enum ParamSpecError {
    /// The spec text is empty.
    BadQueryParam,
    /// Its first letter is no spec.
    BadSpec,
}

/// The type of a query parameter, from the first byte of its spec text.
pub fn param_spec(text: &str) -> (res: Result<ValueSpec, ParamSpecError>)
    ensures
        vstd::utf8::encode_utf8(text@).len() == 0 ==> res == Err::<ValueSpec, ParamSpecError>(
            ParamSpecError::BadQueryParam,
        ),
        vstd::utf8::encode_utf8(text@).len() > 0 ==> match spec_from_code(vstd::utf8::encode_utf8(text@)[0]) {
            Some(s) => res == Ok::<ValueSpec, ParamSpecError>(s),
            None => res == Err::<ValueSpec, ParamSpecError>(ParamSpecError::BadSpec),
        },
{
    let b = text.as_bytes();
    if b.len() == 0 {
        return Err(ParamSpecError::BadQueryParam);
    }
    match ValueSpec::from_u8(b[0]) {
        Some(s) => Ok(s),
        None => Err(ParamSpecError::BadSpec),
    }
}

/// The integer a column value holds, if it is an integer.
pub open spec fn column_integer(v: MysqlValue) -> Option<int> {
    match v {
        MysqlValue::Int(x) => Some(x as int),
        MysqlValue::UInt(x) => Some(x as int),
        _ => None,
    }
}

/// The integer a script value holds, if it is a number or a BigInt made from
/// an integer.
pub open spec fn script_integer(v: JsValueView) -> Option<int> {
    match v {
        JsValueView::Number(x) => Some(x as int),
        JsValueView::BigIntSigned(x) => Some(x as int),
        JsValueView::BigIntUnsigned(x) => Some(x as int),
        _ => None,
    }
}

/// Integer columns keep their value: under `I` every integer column becomes
/// a BigInt equal to it (a negative one stays negative); under `i` an integer
/// column becomes a number equal to it exactly when it lies in the 32-bit
/// range of its signedness (`i32` for signed, `u32` for unsigned), and is
/// refused as out of range otherwise.
pub proof fn law_integer_columns_keep_their_value(v: MysqlValue)
    requires
        column_integer(v) is Some,
    ensures
        spec_cast_to_js(v, ValueSpec::BigInt) matches Ok(j) && script_integer(j) == column_integer(v) && (
        j is BigIntSigned || j is BigIntUnsigned),
        (v is Int ==> (spec_cast_to_js(v, ValueSpec::Int) is Ok <==> i32::MIN <= column_integer(v)->0 <= i32::MAX)),
        (v is UInt ==> (spec_cast_to_js(v, ValueSpec::Int) is Ok <==> column_integer(v)->0 <= u32::MAX)),
        spec_cast_to_js(v, ValueSpec::Int) matches Ok(j) ==> (j is Number && script_integer(j) == column_integer(v)),
        spec_cast_to_js(v, ValueSpec::Int) is Err ==> spec_cast_to_js(v, ValueSpec::Int) == Err::<
            JsValueView,
            CastError,
        >(CastError::OutOfRange),
{
}

} // verus!
