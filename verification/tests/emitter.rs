//! Values, columns, plans and encoders of the insert side.
use walshadow::columns::{literal_column, ColumnBuf};
use walshadow::conn::{Codec, CodecSupport, CompressionChoice};
use walshadow::decimal::{
    decimal_text_to_scaled_le, decimal_type_error, DecimalWidth, DecimalWire,
};
use walshadow::encoder::{
    Append, OracleLimits, TableEncoder, OP_DELETE, OP_INSERT, OP_UPDATE,
};
use walshadow::errors::{is_retryable, DecoderSinkError, EmitterError};
use walshadow::mapping::{ColumnMapping, SystemColumns, TableMapping, TableTarget};
use walshadow::oracle::{OracleCell, OracleColumnBuf};
use walshadow::plan::{find_attr, ColumnEncoding, ColumnTypes, TablePlan};
use walshadow::retry::{AfterError, RetryConfig};
use walshadow::schema::{HeapOp, RelAttr, RelDescriptor, RelFileNode, RelName, ReplIdent};
use walshadow::text::{dec_string, quote_ident, quote_target, starts_with, str_eq, to_lower, trim};
use walshadow::tuples::{CommittedTuple, DecodedHeap, DecodedTuple};
use walshadow::types::{composite_target, decimal_wire_of, override_wire, LeafType, TypeAst, TypeKind};
use walshadow::values::{encode_value, oracle_cell, ColumnValue, NumericKind, ToastPointer};
use walshadow::wire::{push_u32, push_u64, read_le, read_u32};

const SEAL: usize = 1 << 20;

fn limits() -> OracleLimits {
    OracleLimits { seal_bytes: SEAL, max_request_bytes: SEAL << 4, cell_header: 5, request_frame: 64 }
}

/// Parsed form of the types that these tests name.
fn ast(name: &str) -> TypeAst {
    let (nullable, inner) = match name.strip_prefix("Nullable(") {
        Some(rest) => (true, rest.strip_suffix(')').expect("closed")),
        None => (false, name),
    };
    let (kind, elem_size, decimal_scale) = match inner {
        "UInt8" => (TypeKind::Other, 1, 0),
        "Int32" => (TypeKind::Int32, 4, 0),
        "UInt32" | "Float32" => (TypeKind::Other, 4, 0),
        "Int64" => (TypeKind::Int64, 8, 0),
        "UInt64" | "Time64(6)" | "DateTime64(6, 'UTC')" => (TypeKind::Other, 8, 0),
        "Int128" => (TypeKind::Int128, 16, 0),
        "UInt128" => (TypeKind::Other, 16, 0),
        "FixedString(7)" => (TypeKind::Other, 7, 0),
        "Decimal32(2)" => (TypeKind::Decimal32, 4, 2),
        "Decimal(10, 2)" => (TypeKind::Decimal64, 8, 2),
        "Decimal(38, 0)" => (TypeKind::Decimal128, 16, 0),
        "Decimal(38, 2)" => (TypeKind::Decimal128, 16, 2),
        "Decimal(50, 2)" => (TypeKind::Decimal256, 32, 2),
        "String" => (TypeKind::Other, 0, 0),
        "JSON" => (TypeKind::Json, 0, 0),
        "Array(Nullable(String))" => (TypeKind::Array, 0, 0),
        other => panic!("no fixture for {other}"),
    };
    TypeAst {
        nullable,
        leaf: Some(LeafType { kind, elem_size, decimal_scale }),
        name: Some(name.to_string()),
    }
}

fn fixed(b: &ColumnBuf) -> (usize, &[u8]) {
    match b {
        ColumnBuf::Fixed { width, bytes } => (*width, bytes.as_slice()),
        _ => panic!("expected fixed-shape buffer"),
    }
}

fn text(b: &ColumnBuf) -> (&[u64], &[u8]) {
    match b {
        ColumnBuf::String { offsets, data, .. }
        | ColumnBuf::NullableString { offsets, data, .. } => (offsets, data),
        _ => panic!("expected string-shape buffer"),
    }
}

fn null_map(b: &ColumnBuf) -> &[u8] {
    match b {
        ColumnBuf::NullableFixed { null_map, .. } | ColumnBuf::NullableString { null_map, .. } => {
            null_map
        }
        _ => panic!("expected a nullable buffer"),
    }
}

fn mk_mapping() -> TableMapping {
    TableMapping {
        target: TableTarget::new("default", "foo"),
        columns: vec![
            ColumnMapping { src_attnum: 1, target_name: "id".into(), target_type: "Int32".into() },
            ColumnMapping {
                src_attnum: 2,
                target_name: "name".into(),
                target_type: "Nullable(String)".into(),
            },
        ],
    }
}

fn mk_rel() -> RelDescriptor {
    let attr = |attnum: i16, name: &str, type_oid: u32, not_null: bool, type_len: i16| RelAttr {
        attnum,
        name: name.into(),
        type_oid,
        typmod: -1,
        not_null,
        dropped: false,
        type_len,
        missing_default: None,
    };
    RelDescriptor {
        rfn: rfn(),
        oid: 16385,
        toast_oid: 0,
        rel_name: RelName::new("public", "foo"),
        kind: 'r',
        replident: ReplIdent::Default { pk_attnums: None },
        attributes: vec![attr(1, "id", 23, true, 4), attr(2, "name", 25, false, -1)],
    }
}

fn rfn() -> RelFileNode {
    RelFileNode { spc_node: 1663, db_node: 5, rel_node: 16385 }
}

/// Types of the mapped columns; `overrides` key on the source attribute. The
/// daemon covers every source type but the foreign one.
fn types_for(rel: &RelDescriptor, m: &TableMapping, overrides: &[(&str, &str)]) -> Vec<ColumnTypes> {
    m.columns
        .iter()
        .map(|c| {
            let att = find_attr(&rel.attributes, c.src_attnum);
            ColumnTypes {
                declared: Ok(ast(&c.target_type)),
                over: overrides
                    .iter()
                    .find(|(n, _)| att.is_some_and(|a| a.name == *n))
                    .map(|(_, t)| (t.to_string(), Ok(ast(t)))),
                covered: att.is_none_or(|a| a.type_oid != 17_000),
                request_bytes: 30 + c.target_name.len() + c.target_type.len(),
                over_request_bytes: 0,
            }
        })
        .collect()
}

fn plan(rel: &RelDescriptor, m: &TableMapping, overrides: &[(&str, &str)]) -> TablePlan {
    TablePlan::build(rel, m, &types_for(rel, m, overrides), &SystemColumns::default())
        .expect("plan builds")
}

fn encoder(rel: &RelDescriptor, m: &TableMapping) -> TableEncoder {
    TableEncoder::new(plan(rel, m, &[]), limits()).expect("encoder")
}

fn committed(id: i32, name: Option<&str>) -> CommittedTuple {
    let name_col = Some(
        name.map(|s| ColumnValue::Text(s.to_string()))
            .unwrap_or(ColumnValue::Null),
    );
    CommittedTuple {
        decoded: DecodedHeap {
            rfn: rfn(),
            xid: 42,
            source_lsn: 0xCAFE,
            op: HeapOp::Insert,
            new: Some(DecodedTuple {
                columns: vec![Some(ColumnValue::Int4(id)), name_col],
                partial: false,
            }),
            old: None,
        },
        commit_ts: 1_000_000,
        commit_lsn: 0xD00D,
    }
}

/// Key-only old image, the shape a delete logs under a non-full replica
/// identity.
fn committed_delete(id: i32) -> CommittedTuple {
    CommittedTuple {
        decoded: DecodedHeap {
            rfn: rfn(),
            xid: 42,
            source_lsn: 0xCAFE,
            op: HeapOp::Delete,
            new: None,
            old: Some(DecodedTuple {
                columns: vec![Some(ColumnValue::Int4(id)), None],
                partial: false,
            }),
        },
        commit_ts: 1_000_000,
        commit_lsn: 0xD00D,
    }
}

#[test]
fn retry_backoff_preserves_delay_policy() {
    for (initial, cap, expected) in [
        (1u64, 3u64, [1u128, 2, 3, 3]),
        (4, 3, [4, 3, 3, 3]),
        (1, 0, [1, 0, 0, 0]),
        (0, 3, [0, 0, 0, 0]),
    ] {
        let retry = RetryConfig {
            max_attempts: 4,
            initial_backoff: initial * 1000,
            max_backoff: cap * 1000,
        };
        let mut backoff = retry.backoff();
        let mut delays = Vec::new();
        while let Some(d) = backoff.next() {
            delays.push(d);
        }
        assert_eq!(delays, expected.map(|s| s * 1_000_000_000));
    }
}

#[test]
fn retries_follow_the_delays_and_stop_on_terminal_errors() {
    let retry = RetryConfig { max_attempts: 2, initial_backoff: 1000, max_backoff: 3000 };
    let mut r = retry.backoff();
    let reset = EmitterError::Io("reset".into());
    assert!(matches!(r.on_error(&reset), AfterError::Retry(1_000_000_000)));
    assert!(matches!(r.on_error(&reset), AfterError::Retry(2_000_000_000)));
    assert!(matches!(r.on_error(&reset), AfterError::Fail));
    assert!(r.next().is_none());
    let mut r = retry.backoff();
    assert!(matches!(r.on_failure(false), AfterError::Fail));
    assert!(matches!(r.on_failure(true), AfterError::Retry(1_000_000_000)));
    let mut r = retry.backoff();
    assert!(matches!(
        r.on_error(&EmitterError::Config("missing host".into())),
        AfterError::Fail
    ));
}

#[test]
fn decimal_type_error_wraps_message_in_type_variant() {
    match decimal_type_error("scale out of range") {
        EmitterError::Type(msg) => assert_eq!(msg, "scale out of range"),
        other => panic!("expected Type, got {other:?}"),
    }
}

#[test]
fn is_retryable_only_for_transport_and_server_faults() {
    assert!(is_retryable(&EmitterError::Io("reset".into())));
    assert!(is_retryable(&EmitterError::ServerException {
        code: 241,
        message: "MEMORY_LIMIT_EXCEEDED".into(),
    }));
    // Semantic and configuration faults are terminal
    assert!(!is_retryable(&EmitterError::Type("bad decimal".into())));
    assert!(!is_retryable(&EmitterError::Config("missing host".into())));
    assert!(!is_retryable(&EmitterError::NoTableMapping("public.t".into())));
    assert!(!is_retryable(&EmitterError::CompressionUnsupported("zstd")));
}

#[test]
fn emitter_error_converts_into_decoder_observer_error() {
    let d = DecoderSinkError::from_emitter(&EmitterError::Type("nope".into()));
    match d {
        DecoderSinkError::Observer(msg) => assert!(msg.contains("nope"), "{msg}"),
    }
}

#[test]
fn compression_choice_parses_case_insensitively() {
    assert_eq!(CompressionChoice::parse("LZ4").unwrap(), CompressionChoice::Lz4);
    assert_eq!(CompressionChoice::parse("Zstd").unwrap(), CompressionChoice::Zstd);
    assert_eq!(CompressionChoice::parse("none").unwrap(), CompressionChoice::Off);
    assert_eq!(CompressionChoice::parse("").unwrap(), CompressionChoice::Off);
    CompressionChoice::parse("snappy").expect_err("unknown codec");
}

#[test]
fn compression_choice_build_codec_respects_features() {
    // With compression off a decoder is still installed: the server answers
    // in whatever method it is configured for
    for lz4 in [false, true] {
        for zstd in [false, true] {
            let built = CodecSupport { lz4, zstd };
            let none = CompressionChoice::Off.build_codec(built).unwrap();
            assert_eq!(none.is_some(), lz4 || zstd);
            let r = CompressionChoice::Lz4.build_codec(built);
            if lz4 {
                assert_eq!(r.unwrap(), Some(Codec::Lz4));
            } else {
                assert!(matches!(r, Err(EmitterError::CompressionUnsupported("lz4"))));
            }
            let r = CompressionChoice::Zstd.build_codec(built);
            if zstd {
                assert_eq!(r.unwrap(), Some(Codec::Zstd));
            } else {
                assert!(matches!(r, Err(EmitterError::CompressionUnsupported("zstd"))));
            }
        }
    }
}

#[test]
fn literal_column_requires_string_target_and_rendered_cells() {
    let mut buf = OracleColumnBuf::new(0, -1, "String", 5);
    buf.push(OracleCell::Literal(b"a".to_vec()));
    buf.push(OracleCell::Default);
    match literal_column(&buf, "String", 2) {
        Some(ColumnBuf::String { offsets, data, .. }) => {
            assert_eq!(data, b"a");
            assert_eq!(offsets, [1, 1]);
        }
        _ => panic!("a string column"),
    }
    for reject in ["Array(String)", "LowCardinality(String)", "JSON", "Int32"] {
        let mut buf = OracleColumnBuf::new(0, -1, reject, 5);
        buf.push(OracleCell::Literal(b"a".to_vec()));
        buf.push(OracleCell::Default);
        assert!(literal_column(&buf, reject, 2).is_none(), "{reject} needs the worker");
    }
    // Cell count must match the batch, else offsets would not
    assert!(literal_column(&buf, "String", 3).is_none());
    for cell in [OracleCell::DiskRaw(b"a".to_vec()), OracleCell::TextInput(b"a".to_vec())] {
        let mut buf = OracleColumnBuf::new(0, -1, "String", 5);
        buf.push(OracleCell::Literal(b"a".to_vec()));
        buf.push(cell);
        for target in ["String", "Nullable(String)"] {
            assert!(literal_column(&buf, target, 2).is_none());
        }
    }
}

#[test]
fn literal_string_cells_stay_off_the_oracle_batch_estimate() {
    let mut rel = mk_rel();
    // A source type that the daemon does not cover, so `name` plans as an
    // oracle column while its String target still renders literals here
    rel.attributes[1].type_oid = 17_000;
    let m = mk_mapping();
    let mut enc = encoder(&rel, &m);
    assert!(matches!(enc.plan.columns[1].encoding, ColumnEncoding::Oracle { .. }));
    assert!(enc.plan.needs_oracle());
    let overhead = enc.oracle_bytes;
    // The frame, and the one column that is rendered elsewhere
    assert_eq!(overhead, 64 + 30 + "name".len() + "Nullable(String)".len());
    assert_eq!(enc.plan.request_overhead(7), overhead - 57);
    assert_eq!(encoder(&mk_rel(), &m).oracle_bytes, 64);
    let big = "x".repeat(SEAL * 3 / 5);
    for id in 1..=2 {
        assert_eq!(
            enc.append_row(&committed(id, Some(&big)), &m, OP_INSERT).unwrap(),
            Append::Done,
            "literal rows do not seal",
        );
    }
    assert_eq!(enc.oracle_bytes, overhead, "literals owe the request nothing");
    // A cell needing conversion sends the column whole, so the literals it
    // strands seal the batch rather than overrun the frame cap
    let mut json_row = committed(3, None);
    json_row.decoded.new.as_mut().expect("insert tuple").columns[1] =
        Some(ColumnValue::Json("{}".into()));
    assert_eq!(enc.append_row(&json_row, &m, OP_INSERT).unwrap(), Append::Full);
    let (buffers, rows) = enc.take_block().unwrap();
    assert_eq!(rows, 2);
    let ColumnBuf::Oracle(o) = &buffers[1] else { panic!("oracle column") };
    assert!(literal_column(o, "Nullable(String)", rows).is_some());
}

#[test]
fn new_for_ast_picks_shape_from_chc_type_kind() {
    let cases = [
        ("Int32", "Fixed"),
        ("String", "String"),
        ("Nullable(Int64)", "NullableFixed"),
        ("Nullable(String)", "NullableString"),
        ("FixedString(7)", "Fixed"),
        ("Nullable(FixedString(7))", "NullableFixed"),
    ];
    for (name, tag) in cases {
        let buf = ColumnBuf::new_for_ast(&ast(name)).expect("shape");
        let actual = match buf {
            ColumnBuf::Fixed { .. } => "Fixed",
            ColumnBuf::String { .. } => "String",
            ColumnBuf::NullableFixed { .. } => "NullableFixed",
            ColumnBuf::NullableString { .. } => "NullableString",
            ColumnBuf::Oracle(_) => "Oracle",
        };
        assert_eq!(actual, tag, "{name}");
    }
    let childless = TypeAst { nullable: true, leaf: None, name: None };
    match ColumnBuf::new_for_ast(&childless) {
        Err(EmitterError::Type(m)) => assert_eq!(m, "Nullable type with no child"),
        _ => panic!("refused"),
    }
}

#[test]
fn decimal_text_scales_to_integer() {
    let le_i64 = |text: &str, scale: i32| -> [u8; 8] {
        let le = decimal_text_to_scaled_le(text, scale, DecimalWidth::D64).unwrap();
        le[..8].try_into().unwrap()
    };
    assert_eq!(le_i64("0", 2), 0i64.to_le_bytes());
    assert_eq!(le_i64("12", 2), 1200i64.to_le_bytes());
    assert_eq!(le_i64("1.50", 2), 150i64.to_le_bytes());
    assert_eq!(le_i64("-12.34", 2), (-1234i64).to_le_bytes());
    assert_eq!(le_i64("0.001", 3), 1i64.to_le_bytes());
    assert_eq!(le_i64("123.456", 2), 12345i64.to_le_bytes());
    assert!(decimal_text_to_scaled_le("--5", 0, DecimalWidth::D64).is_err());
    assert!(decimal_text_to_scaled_le("", 0, DecimalWidth::D64).is_err());
    assert!(decimal_text_to_scaled_le("1.2.3", 0, DecimalWidth::D64).is_err());
    match decimal_text_to_scaled_le("1", -1, DecimalWidth::D64) {
        Err(EmitterError::Type(m)) => assert_eq!(m, "Decimal column has negative scale"),
        other => panic!("{other:?}"),
    }
}

#[test]
fn decimal_text_rejects_signed_width_overflow() {
    let max = i128::MAX.to_string();
    let le = decimal_text_to_scaled_le(&max, 0, DecimalWidth::D128).unwrap();
    assert_eq!(&le[..16], &i128::MAX.to_le_bytes());

    let min_mag = "170141183460469231731687303715884105728";
    assert!(decimal_text_to_scaled_le(min_mag, 0, DecimalWidth::D128).is_err());

    let le = decimal_text_to_scaled_le(&format!("-{min_mag}"), 0, DecimalWidth::D128).unwrap();
    assert_eq!(&le[..16], &i128::MIN.to_le_bytes());
}

#[test]
fn decimal_text_encodes_decimal256_width() {
    let le = decimal_text_to_scaled_le("-1", 0, DecimalWidth::D256).unwrap();
    assert_eq!(&le[..32], &[0xff; 32]);

    let wide39 = "9".repeat(39);
    assert!(decimal_text_to_scaled_le(&wide39, 0, DecimalWidth::D128).is_err());
    let le = decimal_text_to_scaled_le(&wide39, 0, DecimalWidth::D256).unwrap();
    assert!(le[16..32].iter().any(|b| *b != 0));

    let wide76 = "9".repeat(76);
    assert!(decimal_text_to_scaled_le(&wide76, 0, DecimalWidth::D256).is_ok());
}

#[test]
fn encode_numeric_into_decimal_and_string() {
    let t = ast("Decimal(10, 2)");
    let decimal = decimal_wire_of(&t);
    assert_eq!(decimal, Some(DecimalWire { scale: 2, width: DecimalWidth::D64 }));
    let mut buf = ColumnBuf::new_for_ast(&t).unwrap();
    encode_value(
        &mut buf,
        &ColumnValue::Numeric(NumericKind::Finite("1.50".into())),
        decimal,
    )
    .unwrap();
    assert_eq!(fixed(&buf), (8, &150i64.to_le_bytes()[..]));
    let mut buf_nan = ColumnBuf::new_for_ast(&t).unwrap();
    assert!(encode_value(&mut buf_nan, &ColumnValue::Numeric(NumericKind::NaN), decimal).is_err());

    let wide_t = ast("Decimal(50, 2)");
    let wide_decimal = decimal_wire_of(&wide_t);
    assert_eq!(wide_decimal, Some(DecimalWire { scale: 2, width: DecimalWidth::D256 }));
    let mut wide_buf = ColumnBuf::new_for_ast(&wide_t).unwrap();
    encode_value(
        &mut wide_buf,
        &ColumnValue::Numeric(NumericKind::Finite(
            "123456789012345678901234567890123456789012345678.12".into(),
        )),
        wide_decimal,
    )
    .unwrap();
    let (width, bytes) = fixed(&wide_buf);
    assert_eq!(width, 32);
    assert_eq!(bytes.len(), 32);
    assert!(bytes[16..32].iter().any(|b| *b != 0));

    let mut sbuf = ColumnBuf::new_for_ast(&ast("String")).unwrap();
    encode_value(&mut sbuf, &ColumnValue::Numeric(NumericKind::NaN), None).unwrap();
    assert_eq!(text(&sbuf).1, b"NaN");
}

#[test]
fn encode_time_native_and_timetz_text() {
    let micros = 45_296_000_000i64; // 12:34:56
    let mut buf = ColumnBuf::new_for_ast(&ast("Time64(6)")).unwrap();
    encode_value(&mut buf, &ColumnValue::Time(micros), None).unwrap();
    assert_eq!(fixed(&buf), (8, &micros.to_le_bytes()[..]));
    // A time with a zone reaches the encoder as text
    let mut sbuf = ColumnBuf::new_for_ast(&ast("String")).unwrap();
    encode_value(&mut sbuf, &ColumnValue::TimeTz("12:34:56+02".into()), None).unwrap();
    assert_eq!(text(&sbuf).1, b"12:34:56+02");
}

#[test]
fn every_kind_of_value_has_its_wire_form() {
    let one = |t: &str, v: ColumnValue| -> Vec<u8> {
        let mut buf = ColumnBuf::new_for_ast(&ast(t)).unwrap();
        encode_value(&mut buf, &v, None).unwrap();
        match &buf {
            ColumnBuf::Fixed { bytes, .. } => bytes.clone(),
            other => text(other).1.to_vec(),
        }
    };
    assert_eq!(one("UInt8", ColumnValue::Bool(true)), [1]);
    assert_eq!(one("UInt8", ColumnValue::Char(b'c')), b"c");
    assert_eq!(one("Int32", ColumnValue::Int4(-2)), (-2i32).to_le_bytes());
    assert_eq!(one("Int64", ColumnValue::Int8(-3)), (-3i64).to_le_bytes());
    assert_eq!(one("Float32", ColumnValue::Float4(1.5f32.to_bits())), 1.5f32.to_le_bytes());
    assert_eq!(one("UInt64", ColumnValue::Float8(2.5f64.to_bits())), 2.5f64.to_le_bytes());
    assert_eq!(one("UInt32", ColumnValue::Oid(7)), 7u32.to_le_bytes());
    // Days and microseconds count from 2000-01-01 in the source
    assert_eq!(one("Int32", ColumnValue::Date(1)), 10_958i32.to_le_bytes());
    assert_eq!(
        one("DateTime64(6, 'UTC')", ColumnValue::TimestampTz(1)),
        946_684_800_000_001i64.to_le_bytes()
    );
    assert_eq!(one("String", ColumnValue::Bytea(vec![0, 255])), [0, 255]);
    assert_eq!(one("String", ColumnValue::Name("n".into())), b"n");
    assert_eq!(one("String", ColumnValue::Numeric(NumericKind::PInf)), b"Infinity");
    assert_eq!(one("String", ColumnValue::Numeric(NumericKind::NInf)), b"-Infinity");
}

#[test]
fn values_that_no_column_takes_are_refused() {
    let refuse = |t: &str, v: ColumnValue| -> &'static str {
        let mut buf = ColumnBuf::new_for_ast(&ast(t)).unwrap();
        match encode_value(&mut buf, &v, None) {
            Err(EmitterError::UnsupportedValue { kind, .. }) => kind,
            other => panic!("{other:?}"),
        }
    };
    let toast = ToastPointer { va_rawsize: 1, va_extinfo: 1, va_valueid: 1, va_toastrelid: 1 };
    assert_ne!(refuse("String", ColumnValue::ExternalToast(toast)), "");
    assert_ne!(
        refuse("String", ColumnValue::PgPending { type_oid: 1, raw: vec![] }),
        ""
    );
    assert_ne!(refuse("Int32", ColumnValue::Text("x".into())), "");
    // Absent values reach the request as defaults, rendered ones as literals
    assert!(matches!(oracle_cell(None, 25), Ok(OracleCell::Default)));
    assert!(matches!(
        oracle_cell(Some(&ColumnValue::Text("x".into())), 25),
        Ok(OracleCell::Literal(b)) if b == b"x"
    ));
    assert!(matches!(
        oracle_cell(Some(&ColumnValue::PgPending { type_oid: 600, raw: vec![1] }), 600),
        Ok(OracleCell::DiskRaw(b)) if b == [1]
    ));
}

#[test]
fn quote_ident_escapes_backticks() {
    assert_eq!(quote_ident("foo"), "`foo`");
    assert_eq!(quote_ident("a`b"), "`a``b`");
}

#[test]
fn text_helpers_cut_and_compare() {
    assert_eq!(quote_target("d", "t"), "`d`.`t`");
    assert_eq!(to_lower("ZsTd"), "zstd");
    assert_eq!(trim(" \t a b\n"), "a b");
    assert_eq!(dec_string(18_446_744_073_709_551_615), "18446744073709551615");
    assert!(starts_with("pg_temp_3", "pg_temp_"));
    assert!(!starts_with("pg", "pg_temp_"));
    assert!(str_eq("a", "a"));
    assert!(!str_eq("a", "ab"));
}

#[test]
fn little_endian_bytes_read_back() {
    let mut out = vec![];
    push_u32(&mut out, 0xDEAD_BEEF);
    push_u64(&mut out, 0x0102_0304_0506_0708);
    assert_eq!(out[..4], 0xDEAD_BEEFu32.to_le_bytes());
    assert_eq!(read_u32(&out, 0), 0xDEAD_BEEF);
    assert_eq!(read_le(&out, 4, 8), 0x0102_0304_0506_0708);
}

#[test]
fn table_plan_builds_insert_with_synthetic_columns() {
    let plan = plan(&mk_rel(), &mk_mapping(), &[]);
    assert!(plan.insert_sql.contains("INSERT INTO `default`.`foo`"));
    assert!(plan.insert_sql.contains("`id`"));
    assert!(plan.insert_sql.contains("`name`"));
    assert!(plan.insert_sql.contains("`_lsn`"));
    assert!(plan.insert_sql.contains("`_xid`"));
    assert!(plan.insert_sql.contains("`_commit_ts`"));
    assert!(plan.insert_sql.contains("`_is_deleted`"));
    assert!(plan.insert_sql.ends_with(") FORMAT Native"));
    assert_eq!(
        plan.insert_sql,
        "INSERT INTO `default`.`foo` (`id`, `name`, `_lsn`, `_xid`, `_commit_ts`, `_is_deleted`) \
         FORMAT Native"
    );
}

#[test]
fn table_plan_applies_admissible_column_override() {
    let mut m = mk_mapping();
    // numeric-shaped default: `numeric(38,0)` to `Int128`
    m.columns[0].target_type = "Decimal(38, 0)".into();
    let plan = plan(&mk_rel(), &m, &[("id", "Int128")]);
    assert_eq!(plan.columns[0].type_repr, "Int128");
    // A Decimal of scale zero keeps the numeric path from text
    assert_eq!(
        plan.columns[0].decimal,
        Some(DecimalWire { scale: 0, width: DecimalWidth::D128 })
    );
    assert_eq!(plan.columns[1].type_repr, "Nullable(String)");
}

#[test]
fn table_plan_override_keys_on_source_attname_not_target_name() {
    let mut m = mk_mapping();
    // An operator renamed the target column: the override keys on the source
    m.columns[1].target_name = "label".into();
    let plan = plan(&mk_rel(), &m, &[("name", "String")]);
    assert_eq!(plan.columns[1].name, "label");
    assert_eq!(plan.columns[1].type_repr, "String");
}

#[test]
fn table_plan_keeps_default_on_wire_incompatible_override() {
    // An int4 is written as four bytes and never as text, so Int32 to String
    // falls back rather than poison the batch
    let plan = plan(&mk_rel(), &mk_mapping(), &[("id", "String")]);
    assert_eq!(plan.columns[0].type_repr, "Int32");
}

#[test]
fn unparsed_target_type_refuses_the_plan() {
    let (rel, m) = (mk_rel(), mk_mapping());
    let mut types = types_for(&rel, &m, &[]);
    types[0].declared = Err("bad".into());
    match TablePlan::build(&rel, &m, &types, &SystemColumns::default()) {
        Err(EmitterError::Type(msg)) => {
            assert!(msg.contains("Int32") && msg.contains("bad"), "{msg}")
        }
        other => panic!("{other:?}"),
    }
}

#[test]
fn override_wire_admissibility() {
    // Decimal-encoded source: Decimal, String and signed integers convert
    let dec = ast("Decimal(38, 0)");
    assert!(override_wire(&dec, &ast("Decimal(38, 2)")).is_some());
    assert!(override_wire(&dec, &ast("String")).is_some());
    assert_eq!(
        override_wire(&dec, &ast("Int128")),
        Some(Some(DecimalWire { scale: 0, width: DecimalWidth::D128 }))
    );
    // Unsigned wraps negatives, floats reinterpret bits: rejected
    assert!(override_wire(&dec, &ast("UInt128")).is_none());
    assert!(override_wire(&dec, &ast("Float32")).is_none());
    // Fixed-width source: same-width reinterpretation only, no Decimal
    let i = ast("Int32");
    assert!(override_wire(&i, &ast("UInt32")).is_some());
    assert!(override_wire(&i, &ast("Int64")).is_none());
    assert!(override_wire(&i, &ast("Decimal32(2)")).is_none());
    // String-shaped source: string-shaped override only
    let s = ast("Nullable(String)");
    assert!(override_wire(&s, &ast("String")).is_some());
    assert!(override_wire(&s, &ast("Int64")).is_none());
}

#[test]
fn composite_targets_and_foreign_sources_go_to_the_oracle() {
    let rel = mk_rel();
    let att = Some(&rel.attributes[1]);
    assert!(composite_target(&ast("Array(Nullable(String))")));
    assert!(!composite_target(&ast("JSON")));
    assert_eq!(
        ColumnEncoding::for_column(att, true, &ast("String")),
        ColumnEncoding::Local
    );
    assert_eq!(
        ColumnEncoding::for_column(att, false, &ast("String")),
        ColumnEncoding::Oracle { source_type_oid: 25, source_typmod: -1 }
    );
    assert_eq!(
        ColumnEncoding::for_column(None, true, &ast("Array(Nullable(String))")),
        ColumnEncoding::Oracle { source_type_oid: 0, source_typmod: -1 }
    );
}

#[test]
fn is_deleted_codes_delete_in_trailing_buffer() {
    let m = mk_mapping();
    let mut enc = encoder(&mk_rel(), &m);
    assert!(enc.plan.insert_sql.contains("`_is_deleted`"));
    enc.append_row(&committed(1, Some("a")), &m, OP_INSERT).unwrap();
    enc.append_row(&committed(1, Some("a")), &m, OP_DELETE).unwrap();
    // The marker is the trailing buffer: 0 for insert, 1 for delete
    assert_eq!(fixed(enc.buffers.last().unwrap()), (1, &[0u8, 1][..]));
    enc.append_row(&committed(1, Some("a")), &m, OP_UPDATE).unwrap();
    assert_eq!(fixed(enc.buffers.last().unwrap()), (1, &[0u8, 1, 0][..]));
}

#[test]
fn json_target_encodes_locally_and_fills_absent_cells() {
    let mut rel = mk_rel();
    rel.attributes[1].type_oid = 3802;
    for target in ["JSON", "Nullable(JSON)"] {
        let mut m = mk_mapping();
        m.columns[1].target_type = target.into();
        let mut enc = encoder(&rel, &m);
        assert_eq!(enc.plan.columns[1].encoding, ColumnEncoding::Local, "{target}");
        let mut doc = committed(1, None);
        doc.decoded.new.as_mut().unwrap().columns[1] =
            Some(ColumnValue::Json(r#"{"a": 1}"#.into()));
        enc.append_row(&doc, &m, OP_INSERT).unwrap();
        enc.append_row(&committed(2, None), &m, OP_INSERT).unwrap();
        match &enc.buffers[1] {
            ColumnBuf::String { offsets, data, absent }
            | ColumnBuf::NullableString { offsets, data, absent, .. } => {
                assert_eq!(absent, b"{}", "{target}");
                assert_eq!(data.as_slice(), br#"{"a": 1}{}"#, "{target}");
                assert_eq!(offsets, &[8, 10], "{target}");
            }
            _ => panic!("{target} took no local shape"),
        }
    }
}

#[test]
fn oracle_row_over_the_seal_threshold_starts_a_new_batch() {
    let rel = mk_rel();
    let mut m = mk_mapping();
    m.columns[1].target_type = "Array(Nullable(String))".into();
    let mut enc = encoder(&rel, &m);
    assert!(matches!(enc.plan.columns[1].encoding, ColumnEncoding::Oracle { .. }));
    let big = "x".repeat(SEAL * 3 / 5);
    assert_eq!(
        enc.append_row(&committed(1, Some(&big)), &m, OP_INSERT).unwrap(),
        Append::Done
    );
    let before = enc.oracle_bytes;
    assert_eq!(
        enc.append_row(&committed(2, Some(&big)), &m, OP_INSERT).unwrap(),
        Append::Full
    );
    assert_eq!((enc.rows, enc.oracle_bytes), (1, before), "row not appended");
    assert_eq!(enc.take_block().unwrap().1, 1);
    assert_eq!(
        enc.append_row(&committed(2, Some(&big)), &m, OP_INSERT).unwrap(),
        Append::Done
    );
    assert_eq!(enc.rows, 1);
}

#[test]
fn absent_or_null_coerces_to_default_on_non_nullable_target() {
    let mut m = mk_mapping();
    m.columns[1].target_type = "String".into();
    let mut enc = encoder(&mk_rel(), &m);
    // Delete: non-key column absent from the key-only old image
    enc.append_row(&committed_delete(3), &m, OP_DELETE).unwrap();
    // Insert: genuine NULL mapped onto the non-Nullable column
    enc.append_row(&committed(4, None), &m, OP_INSERT).unwrap();
    let (offsets, data) = text(&enc.buffers[1]);
    assert_eq!(offsets, &[0u64, 0]);
    assert!(data.is_empty());
}

#[test]
fn absent_stays_null_on_nullable_target() {
    let m = mk_mapping();
    let mut enc = encoder(&mk_rel(), &m);
    enc.append_row(&committed_delete(3), &m, OP_DELETE).unwrap();
    assert_eq!(null_map(&enc.buffers[1]), &[1u8]);
}

#[test]
fn encoder_accumulates_into_typed_buffers() {
    let m = mk_mapping();
    let mut enc = encoder(&mk_rel(), &m);
    enc.append_row(&committed(7, Some("seven")), &m, OP_INSERT).unwrap();
    enc.append_row(&committed(8, None), &m, OP_INSERT).unwrap();
    enc.append_row(&committed(9, Some("nine")), &m, OP_INSERT).unwrap();
    assert_eq!(enc.rows, 3);
    let (width, bytes) = fixed(&enc.buffers[0]);
    assert_eq!(width, 4);
    assert_eq!(bytes.len(), 12);
    assert_eq!(&bytes[0..4], &7i32.to_le_bytes());
    assert_eq!(&bytes[4..8], &8i32.to_le_bytes());
    assert_eq!(&bytes[8..12], &9i32.to_le_bytes());
    assert_eq!(null_map(&enc.buffers[1]), &[0u8, 1, 0]);
    let (offsets, data) = text(&enc.buffers[1]);
    assert_eq!(offsets, &[5u64, 5, 9]);
    assert_eq!(data, b"sevennine");
    let off = m.columns.len();
    let (_, bytes) = fixed(&enc.buffers[off]);
    assert_eq!(bytes.len(), 24);
    assert_eq!(&bytes[0..8], &0xCAFEu64.to_le_bytes());
    assert_eq!(fixed(&enc.buffers[off + 3]), (1, &[0u8, 0, 0][..]));
}

#[test]
fn refused_value_names_its_column_and_leaves_the_batch() {
    let m = mk_mapping();
    let mut enc = encoder(&mk_rel(), &m);
    enc.append_row(&committed(7, Some("seven")), &m, OP_INSERT).unwrap();
    let mut bad = committed(8, None);
    bad.decoded.new.as_mut().unwrap().columns[1] =
        Some(ColumnValue::PgPending { type_oid: 25, raw: vec![1] });
    match enc.append_row(&bad, &m, OP_INSERT) {
        Err(EmitterError::UnsupportedValue { target_column, .. }) => {
            assert_eq!(target_column, "name")
        }
        other => panic!("{other:?}"),
    }
    assert_eq!(enc.rows, 1);
}

#[test]
fn plan_renames_synthetic_columns_and_can_drop_the_marker() {
    let (rel, m) = (mk_rel(), mk_mapping());
    let sys = SystemColumns {
        lsn: "_v".into(),
        xid: "_x".into(),
        commit_ts: "_at".into(),
        is_deleted: None,
    };
    let plan = TablePlan::build(&rel, &m, &types_for(&rel, &m, &[]), &sys).expect("plan builds");
    assert!(
        plan.insert_sql.ends_with("`_v`, `_x`, `_at`) FORMAT Native"),
        "{}",
        plan.insert_sql
    );
    assert!(plan.system.is_deleted.is_none());
    let enc = TableEncoder::new(plan, limits()).expect("encoder");
    // Mapped columns plus three appended ones, no marker buffer
    assert_eq!(enc.buffers.len(), m.columns.len() + 3);
}

#[test]
fn allocated_bytes_cover_what_the_buffers_use() {
    let mut b = ColumnBuf::new_for_ast(&ast("Nullable(String)")).unwrap();
    b.append_string_bytes(b"seven").unwrap();
    b.append_null().unwrap();
    b.append_default();
    assert_eq!(b.approx_size(), 3 * 8 + 5 + 3);
    assert!(b.allocated_bytes() >= b.approx_size());
    let mut f = ColumnBuf::new_for_ast(&ast("Int32")).unwrap();
    f.append_fixed_bytes(&[1, 2, 3, 4]).unwrap();
    assert!(f.append_fixed_bytes(&[1, 2]).is_err());
    assert!(f.append_string_bytes(b"x").is_err());
    assert!(f.allocated_bytes() >= f.approx_size());
    assert_eq!(f.approx_size(), 4);
}

#[test]
fn error_texts_say_what_happened() {
    assert_eq!(
        EmitterError::ServerException { code: 241, message: "memory".into() }.to_text(),
        "server exception 241: memory"
    );
    assert_eq!(
        EmitterError::Client { server_code: -1, message: "gone".into() }.to_text(),
        "client: -1: gone"
    );
    assert_eq!(EmitterError::Type("nope".into()).to_text(), "type: nope");
    assert!(is_retryable(&EmitterError::Timeout));
    assert!(is_retryable(&EmitterError::Client { server_code: 0, message: String::new() }));
}
