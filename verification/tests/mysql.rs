use blueboat::timestamp::{date_time_millis, DateTimeError};
use blueboat::mysql::{
    param_spec, ParamSpecError,
    bigint_from_js, cast_value_to_js, decode_rows, parse_value_specs, CastError, DecodeError, JsValuePlan,
    MysqlValue, ValueSpec,
};

#[test]
fn value_spec_letters() {
    assert_eq!(ValueSpec::from_u8(b'i'), Some(ValueSpec::Int));
    assert_eq!(ValueSpec::from_u8(b'I'), Some(ValueSpec::BigInt));
    assert_eq!(ValueSpec::from_u8(b'f'), Some(ValueSpec::Float));
    assert_eq!(ValueSpec::from_u8(b's'), Some(ValueSpec::String));
    assert_eq!(ValueSpec::from_u8(b'b'), Some(ValueSpec::Binary));
    assert_eq!(ValueSpec::from_u8(b'd'), Some(ValueSpec::Date));
    assert_eq!(ValueSpec::from_u8(b'x'), None);
    assert_eq!(ValueSpec::Date.code(), b'd');
    assert_eq!(parse_value_specs(b"isI"), Some(vec![ValueSpec::Int, ValueSpec::String, ValueSpec::BigInt]));
    assert_eq!(parse_value_specs(b"iq"), None);
    assert_eq!(parse_value_specs(b""), Some(vec![]));
}

#[test]
fn column_casts() {
    assert_eq!(cast_value_to_js(&MysqlValue::Null, ValueSpec::Int), Ok(JsValuePlan::Null));
    assert_eq!(cast_value_to_js(&MysqlValue::Int(-5), ValueSpec::Int), Ok(JsValuePlan::Number(-5)));
    assert_eq!(cast_value_to_js(&MysqlValue::Int(1 << 31), ValueSpec::Int), Err(CastError::OutOfRange));
    assert_eq!(cast_value_to_js(&MysqlValue::UInt(4294967295), ValueSpec::Int), Ok(JsValuePlan::Number(4294967295)));
    assert_eq!(cast_value_to_js(&MysqlValue::UInt(1 << 32), ValueSpec::Int), Err(CastError::OutOfRange));
    assert_eq!(cast_value_to_js(&MysqlValue::UInt(1 << 40), ValueSpec::BigInt), Ok(JsValuePlan::BigIntUnsigned(1 << 40)));
    assert_eq!(cast_value_to_js(&MysqlValue::Double, ValueSpec::Float), Ok(JsValuePlan::FloatNumber));
    assert_eq!(
        cast_value_to_js(&MysqlValue::Bytes(b"hi".to_vec()), ValueSpec::String),
        Ok(JsValuePlan::Utf8String(b"hi".to_vec()))
    );
    assert_eq!(
        cast_value_to_js(&MysqlValue::Bytes(b"hi".to_vec()), ValueSpec::Int),
        Err(CastError::SpecMismatch(ValueSpec::Int))
    );
    assert_eq!(
        cast_value_to_js(&MysqlValue::Date(2021, 1, 2, 3, 4, 5, 6), ValueSpec::Date),
        Ok(JsValuePlan::Date(1609556645000))
    );
}

#[test]
fn date_values() {
    let d = |v: MysqlValue| cast_value_to_js(&v, ValueSpec::Date);
    assert_eq!(d(MysqlValue::Date(1970, 1, 1, 0, 0, 0, 0)), Ok(JsValuePlan::Date(0)));
    assert_eq!(d(MysqlValue::Date(2000, 2, 29, 23, 59, 59, 999999)), Ok(JsValuePlan::Date(951868799999)));
    assert_eq!(d(MysqlValue::Date(9999, 12, 31, 0, 0, 0, 0)), Ok(JsValuePlan::Date(253402214400000)));
    assert_eq!(d(MysqlValue::Date(1969, 12, 31, 23, 59, 59, 0)), Ok(JsValuePlan::Date(0)));
    assert_eq!(d(MysqlValue::Date(1900, 2, 29, 0, 0, 0, 0)), Err(CastError::InvalidDate));
    assert_eq!(d(MysqlValue::Date(0, 0, 0, 0, 0, 0, 0)), Err(CastError::InvalidDate));
    assert_eq!(d(MysqlValue::Date(2021, 4, 31, 0, 0, 0, 0)), Err(CastError::InvalidDate));
    assert_eq!(d(MysqlValue::Date(2021, 4, 30, 24, 0, 0, 0)), Err(CastError::InvalidTime));
    assert_eq!(d(MysqlValue::Date(2021, 4, 30, 0, 0, 0, 1000000)), Err(CastError::InvalidTime));
    assert_eq!(date_time_millis(1970, 1, 1, 0, 0, 1, 1999), Ok(1001));
    assert_eq!(date_time_millis(2021, 13, 1, 0, 0, 0, 0), Err(DateTimeError::InvalidDate));
}

#[test]
fn result_rows() {
    let spec = vec![ValueSpec::Int, ValueSpec::Binary];
    let rows = vec![
        vec![MysqlValue::Int(1), MysqlValue::Bytes(vec![1])],
        vec![MysqlValue::Null, MysqlValue::Null],
    ];
    assert_eq!(
        decode_rows(&rows, &spec),
        Ok(vec![vec![JsValuePlan::Number(1), JsValuePlan::Bytes(vec![1])], vec![JsValuePlan::Null, JsValuePlan::Null]])
    );
    let short = vec![vec![MysqlValue::Int(1)]];
    assert_eq!(decode_rows(&short, &spec), Err(DecodeError::SpecLengthMismatch(2, 1)));
    let bad = vec![vec![MysqlValue::Int(1), MysqlValue::Bytes(vec![])], vec![MysqlValue::Int(2), MysqlValue::Int(3)]];
    assert_eq!(decode_rows(&bad, &spec), Err(DecodeError::Cast(1, 1, CastError::SpecMismatch(ValueSpec::Binary))));
}

#[test]
fn bigint_arguments() {
    assert_eq!(bigint_from_js(-3, true, 0, false), Ok(MysqlValue::Int(-3)));
    assert_eq!(bigint_from_js(0, false, u64::MAX, true), Ok(MysqlValue::UInt(u64::MAX)));
    assert_eq!(bigint_from_js(0, false, 0, false), Err(CastError::OutOfRange));
}

#[test]
fn query_parameter_specs() {

    assert_eq!(param_spec("s"), Ok(ValueSpec::String));
    assert_eq!(param_spec("Ixyz"), Ok(ValueSpec::BigInt));
    assert_eq!(param_spec(""), Err(ParamSpecError::BadQueryParam));
    assert_eq!(param_spec("z"), Err(ParamSpecError::BadSpec));
}
