use ethabi::{ParamType, Writer};

#[test]
fn test_param_type_display() {
    assert_eq!(ParamType::Address.to_string(), "address".to_owned());
    assert_eq!(ParamType::Bytes.to_string(), "bytes".to_owned());
    assert_eq!(ParamType::FixedBytes(32).to_string(), "bytes32".to_owned());
    assert_eq!(ParamType::Uint(256).to_string(), "uint256".to_owned());
    assert_eq!(ParamType::Int(64).to_string(), "int64".to_owned());
    assert_eq!(ParamType::Bool.to_string(), "bool".to_owned());
    assert_eq!(ParamType::String.to_string(), "string".to_owned());
    assert_eq!(ParamType::Array(Box::new(ParamType::Bool)).to_string(), "bool[]".to_owned());
    assert_eq!(ParamType::FixedArray(Box::new(ParamType::Uint(256)), 2).to_string(), "uint256[2]".to_owned());
    assert_eq!(ParamType::FixedArray(Box::new(ParamType::String), 2).to_string(), "string[2]".to_owned());
    assert_eq!(
        ParamType::FixedArray(Box::new(ParamType::Array(Box::new(ParamType::Bool))), 2).to_string(),
        "bool[][2]".to_owned()
    );
    assert_eq!(ParamType::Tuple(vec![ParamType::Bool, ParamType::Uint(256)]).to_string(), "(bool,uint256)".to_owned());
    assert_eq!(ParamType::Tuple(vec![ParamType::Bool, ParamType::String]).to_string(), "(bool,string)".to_owned());
}

#[test]
fn test_is_dynamic() {
    assert_eq!(ParamType::Address.is_dynamic(), false);
    assert_eq!(ParamType::Bytes.is_dynamic(), true);
    assert_eq!(ParamType::FixedBytes(32).is_dynamic(), false);
    assert_eq!(ParamType::Uint(256).is_dynamic(), false);
    assert_eq!(ParamType::Int(64).is_dynamic(), false);
    assert_eq!(ParamType::Bool.is_dynamic(), false);
    assert_eq!(ParamType::String.is_dynamic(), true);
    assert_eq!(ParamType::Array(Box::new(ParamType::Bool)).is_dynamic(), true);
    assert_eq!(ParamType::FixedArray(Box::new(ParamType::Uint(256)), 2).is_dynamic(), false);
    assert_eq!(ParamType::FixedArray(Box::new(ParamType::String), 2).is_dynamic(), true);
    assert_eq!(ParamType::FixedArray(Box::new(ParamType::Array(Box::new(ParamType::Bool))), 2).is_dynamic(), true);
    assert_eq!(ParamType::Tuple(vec![ParamType::Bool, ParamType::Uint(256)]).is_dynamic(), false);
    assert_eq!(ParamType::Tuple(vec![ParamType::Bool, ParamType::String]).is_dynamic(), true);
}

#[test]
fn empty_tuple_is_static() {
    assert!(!ParamType::Tuple(vec![]).is_dynamic());
}

#[test]
fn nested_tuple_dynamic_through_fixed_array() {
    let inner = ParamType::Tuple(vec![ParamType::Uint(8), ParamType::Bytes]);
    assert!(ParamType::FixedArray(Box::new(inner), 3).is_dynamic());
    let fixed = ParamType::Tuple(vec![ParamType::Address, ParamType::FixedBytes(4)]);
    assert!(!ParamType::Tuple(vec![ParamType::Bool, fixed]).is_dynamic());
}

#[test]
fn empty_bytes_valid_encoding() {
    assert!(ParamType::FixedBytes(0).is_empty_bytes_valid_encoding());
    assert!(!ParamType::FixedBytes(32).is_empty_bytes_valid_encoding());
    assert!(ParamType::FixedArray(Box::new(ParamType::Bool), 0).is_empty_bytes_valid_encoding());
    assert!(ParamType::FixedArray(Box::new(ParamType::String), 0).is_empty_bytes_valid_encoding());
    assert!(ParamType::FixedArray(Box::new(ParamType::Tuple(vec![ParamType::Bytes])), 0).is_empty_bytes_valid_encoding());
    assert!(!ParamType::FixedArray(Box::new(ParamType::Bool), 5).is_empty_bytes_valid_encoding());
    assert!(!ParamType::Bytes.is_empty_bytes_valid_encoding());
    assert!(!ParamType::String.is_empty_bytes_valid_encoding());
    assert!(!ParamType::Array(Box::new(ParamType::Bool)).is_empty_bytes_valid_encoding());
    assert!(!ParamType::Tuple(vec![]).is_empty_bytes_valid_encoding());
    assert!(!ParamType::Tuple(vec![ParamType::FixedBytes(0)]).is_empty_bytes_valid_encoding());
    assert!(!ParamType::Uint(0).is_empty_bytes_valid_encoding());
}

#[test]
fn repeated_calls_agree() {
    let t = ParamType::Tuple(vec![
        ParamType::FixedArray(Box::new(ParamType::Tuple(vec![ParamType::Array(Box::new(ParamType::Uint(256))), ParamType::Bool])), 3),
        ParamType::String,
    ]);
    let first = Writer::write(&t);
    let second = Writer::write(&t);
    assert_eq!(first, second);
    assert_eq!(t.to_string(), first);
    assert_eq!(t.is_dynamic(), t.is_dynamic());
    assert!(t.is_dynamic());
}

#[test]
fn structural_equality() {
    let a = ParamType::Tuple(vec![ParamType::Uint(256), ParamType::Array(Box::new(ParamType::Bool))]);
    let b = ParamType::Tuple(vec![ParamType::Uint(256), ParamType::Array(Box::new(ParamType::Bool))]);
    let c = ParamType::Tuple(vec![ParamType::Uint(256), ParamType::Array(Box::new(ParamType::Bool))]);
    assert!(a == a);
    assert!(a == b && b == a);
    assert!(b == c && a == c);
    assert!(ParamType::Uint(256) != ParamType::Int(256));
    assert!(ParamType::Uint(8) != ParamType::Uint(16));
    assert!(ParamType::Tuple(vec![ParamType::Bool]) != ParamType::Tuple(vec![ParamType::Bool, ParamType::Bool]));
    assert!(ParamType::FixedArray(Box::new(ParamType::Bool), 2) != ParamType::FixedArray(Box::new(ParamType::Bool), 3));
    assert!(ParamType::FixedArray(Box::new(ParamType::Bool), 2) != ParamType::Array(Box::new(ParamType::Bool)));
    assert!(ParamType::Bytes != ParamType::FixedBytes(0));
}

#[test]
fn equal_signatures_only_for_equal_types() {
    let pairs = vec![
        (ParamType::Bytes, ParamType::FixedBytes(1)),
        (ParamType::Uint(25), ParamType::Uint(256)),
        (ParamType::Array(Box::new(ParamType::Bool)), ParamType::FixedArray(Box::new(ParamType::Bool), 0)),
        (ParamType::Tuple(vec![]), ParamType::Tuple(vec![ParamType::Tuple(vec![])])),
        (
            ParamType::Tuple(vec![ParamType::Bool, ParamType::Bool]),
            ParamType::Tuple(vec![ParamType::Tuple(vec![ParamType::Bool, ParamType::Bool])]),
        ),
    ];
    for (a, b) in pairs {
        assert!(a != b);
        assert_ne!(a.to_string(), b.to_string());
    }
    let a = ParamType::FixedArray(Box::new(ParamType::Int(8)), 10);
    let b = ParamType::FixedArray(Box::new(ParamType::Int(8)), 10);
    assert_eq!(a.to_string(), b.to_string());
    assert!(a == b);
}

#[test]
fn empty_tuple_and_zero_lengths_render() {
    assert_eq!(ParamType::Tuple(vec![]).to_string(), "()");
    assert_eq!(ParamType::Tuple(vec![ParamType::Tuple(vec![])]).to_string(), "(())");
    assert_eq!(ParamType::FixedBytes(0).to_string(), "bytes0");
    assert_eq!(ParamType::FixedArray(Box::new(ParamType::Address), 0).to_string(), "address[0]");
    assert_eq!(ParamType::Uint(usize::MAX).to_string(), format!("uint{}", usize::MAX));
    assert_eq!(ParamType::Int(1000).to_string(), "int1000");
}

#[test]
fn clone_keeps_structure() {
    let t = ParamType::Tuple(vec![
        ParamType::FixedArray(Box::new(ParamType::Array(Box::new(ParamType::Int(24)))), 4),
        ParamType::Tuple(vec![]),
        ParamType::FixedBytes(3),
    ]);
    let c = t.clone();
    assert!(c == t);
    assert_eq!(c.to_string(), "(int24[][4],(),bytes3)");
    assert_eq!(c.is_dynamic(), t.is_dynamic());
}
