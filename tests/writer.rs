use ethabi::{ParamType, Writer};

#[test]
fn test_write_param() {
    assert_eq!(Writer::write(&ParamType::Address), "address".to_owned());
    assert_eq!(Writer::write(&ParamType::Bytes), "bytes".to_owned());
    assert_eq!(Writer::write(&ParamType::FixedBytes(32)), "bytes32".to_owned());
    assert_eq!(Writer::write(&ParamType::Uint(256)), "uint256".to_owned());
    assert_eq!(Writer::write(&ParamType::Int(64)), "int64".to_owned());
    assert_eq!(Writer::write(&ParamType::Bool), "bool".to_owned());
    assert_eq!(Writer::write(&ParamType::String), "string".to_owned());
    assert_eq!(Writer::write(&ParamType::Array(Box::new(ParamType::Bool))), "bool[]".to_owned());
    assert_eq!(Writer::write(&ParamType::FixedArray(Box::new(ParamType::String), 2)), "string[2]".to_owned());
    assert_eq!(
        Writer::write(&ParamType::FixedArray(Box::new(ParamType::Array(Box::new(ParamType::Bool))), 2)),
        "bool[][2]".to_owned()
    );
    assert_eq!(
        Writer::write(&ParamType::Tuple(vec![
            ParamType::FixedArray(
                Box::new(ParamType::Tuple(vec![ParamType::Array(Box::new(ParamType::Uint(256))), ParamType::Bool])),
                3
            ),
            ParamType::String
        ])),
        "((uint256[],bool)[3],string)"
    );
}

#[test]
fn write_uint256_fixed_array() {
    assert_eq!(Writer::write(&ParamType::FixedArray(Box::new(ParamType::Uint(256)), 2)), "uint256[2]");
}

#[test]
fn write_separators_have_no_spaces_when_nested() {
    let t = ParamType::Tuple(vec![
        ParamType::Tuple(vec![ParamType::Address, ParamType::Int(8)]),
        ParamType::Array(Box::new(ParamType::Tuple(vec![ParamType::Bytes]))),
        ParamType::FixedBytes(7),
    ]);
    assert_eq!(Writer::write(&t), "((address,int8),(bytes)[],bytes7)");
}
