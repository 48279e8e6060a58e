use yaml::YamlFloatValue::{YamlFiniteFloat, YamlInfinity, YamlNaN, YamlNegInfinity};
use yaml::YamlNode::{YamlMappingNode, YamlScalarNode, YamlSequenceNode};
use yaml::YamlScalarStyle::{YamlDoubleQuotedScalarStyle, YamlPlainScalarStyle, YamlSingleQuotedScalarStyle};
use yaml::YamlStandardData::{
    YamlBool, YamlFloat, YamlInteger, YamlMapping, YamlNull, YamlSequence, YamlString,
};
use yaml::{
    resolve_scalar, YamlConstructor, YamlError, YamlMappingData, YamlNode, YamlScalarData,
    YamlScalarStyle, YamlSequenceData, YamlStandardConstructor, YamlStandardData,
};

fn scalar(text: &str, style: YamlScalarStyle) -> YamlNode {
    YamlScalarNode(YamlScalarData::new(text.to_string(), style))
}

fn plain(text: &str) -> YamlNode {
    scalar(text, YamlPlainScalarStyle)
}

fn flow_sequence(items: &[&str]) -> YamlNode {
    YamlSequenceNode(YamlSequenceData::new(items.iter().map(|s| plain(s)).collect()))
}

fn mapping(pairs: Vec<(YamlNode, YamlNode)>) -> YamlNode {
    YamlMappingNode(YamlMappingData::new(pairs))
}

fn resolve_plain(text: &str) -> Result<YamlStandardData, YamlError> {
    resolve_scalar(text, YamlPlainScalarStyle)
}

fn finite(value: &YamlStandardData) -> f64 {
    match value {
        YamlFloat(YamlFiniteFloat(text)) => text.parse::<f64>().unwrap(),
        other => panic!("not a finite float: {:?}", other),
    }
}

#[test]
fn test_standard_constructor() {
    let ctor = YamlStandardConstructor::new();
    assert_eq!(
        Ok(YamlSequence(vec![YamlInteger(1), YamlInteger(2), YamlInteger(3)])),
        ctor.construct(flow_sequence(&["1", "2", "3"]))
    );
}

#[test]
fn test_integer_parser() {
    let ctor = YamlStandardConstructor::new();
    assert_eq!(
        Ok(YamlSequence(vec![YamlInteger(0o10), YamlInteger(0x21), YamlInteger(-30)])),
        ctor.construct(flow_sequence(&["0o10", "0x21", "-30"]))
    );
}

#[test]
fn test_float_parser() {
    let ctor = YamlStandardConstructor::new();
    let value = ctor.construct(flow_sequence(&["0.3", "-.4", "1e+2", "-1.2e-3"]));
    match value {
        Ok(YamlSequence(seq)) => match seq.as_slice() {
            [f1, f2, f3, f4] => {
                assert!((finite(f1) - 0.3).abs() < 1.0e-6);
                assert!((finite(f2) + 0.4).abs() < 1.0e-6);
                assert!((finite(f3) - 1e+2).abs() < 1.0e-6);
                assert!((finite(f4) + 1.2e-3).abs() < 1.0e-6);
            }
            _ => panic!("unexpected sequence: {:?}", seq),
        },
        _ => panic!("unexpected result: {:?}", value),
    }
}

#[test]
fn test_inf_parser() {
    let ctor = YamlStandardConstructor::new();
    assert_eq!(
        Ok(YamlSequence(vec![YamlFloat(YamlInfinity), YamlFloat(YamlNegInfinity)])),
        ctor.construct(flow_sequence(&[".inf", "-.INF"]))
    );
}

#[test]
fn test_misc_parser() {
    let ctor = YamlStandardConstructor::new();
    assert_eq!(
        Ok(YamlSequence(vec![YamlBool(true), YamlBool(false), YamlNull])),
        ctor.construct(flow_sequence(&["yes", "False", "~"]))
    );
}

#[test]
fn decimal_integers_resolve_to_their_value() {
    assert_eq!(resolve_plain("1"), Ok(YamlInteger(1)));
    assert_eq!(resolve_plain("-30"), Ok(YamlInteger(-30)));
    assert_eq!(resolve_plain("+42"), Ok(YamlInteger(42)));
    assert_eq!(resolve_plain("007"), Ok(YamlInteger(7)));
    assert_eq!(resolve_plain("-0"), Ok(YamlInteger(0)));
}

#[test]
fn integer_limits_fit_exactly() {
    assert_eq!(resolve_plain("9223372036854775807"), Ok(YamlInteger(i64::MAX)));
    assert_eq!(resolve_plain("-9223372036854775808"), Ok(YamlInteger(i64::MIN)));
    assert_eq!(resolve_plain("0x7fffffffffffffff"), Ok(YamlInteger(i64::MAX)));
    assert_eq!(resolve_plain("0o777777777777777777777"), Ok(YamlInteger(i64::MAX)));
}

#[test]
fn oversized_integers_are_errors() {
    for text in [
        "9223372036854775808",
        "-9223372036854775809",
        "0x8000000000000000",
        "0o1000000000000000000000",
        "123456789012345678901234567890",
    ] {
        assert_eq!(
            resolve_plain(text),
            Err(YamlError::YamlIntegerOverflow(text.to_string()))
        );
    }
}

#[test]
fn octal_and_hex_are_base_converted() {
    assert_eq!(resolve_plain("0o10"), Ok(YamlInteger(8)));
    assert_eq!(resolve_plain("0x21"), Ok(YamlInteger(33)));
    assert_eq!(resolve_plain("0xFf"), Ok(YamlInteger(255)));
    assert_eq!(resolve_plain("0o0"), Ok(YamlInteger(0)));
}

#[test]
fn malformed_prefixed_integers_stay_text() {
    for text in ["0o8", "0o", "0x", "0xg1", "0O10", "0X21", "-0x21"] {
        assert_eq!(resolve_plain(text), Ok(YamlString(text.to_string())));
    }
}

#[test]
fn float_forms_resolve_to_floats() {
    for (text, expected) in [
        ("1.0", 1.0),
        ("5.", 5.0),
        (".5", 0.5),
        ("+.5", 0.5),
        ("1e3", 1000.0),
        ("1E3", 1000.0),
        ("2.5e-1", 0.25),
        ("-1.2e+3", -1200.0),
    ] {
        let value = resolve_plain(text).unwrap();
        assert_eq!(value, YamlFloat(YamlFiniteFloat(text.to_string())));
        assert!((finite(&value) - expected).abs() < 1.0e-9);
    }
}

#[test]
fn non_floats_stay_text() {
    for text in [".", "1.2.3", "e3", "1e", "1e+", ".e1", "1.5x", "--1", "+-1", "", "+"] {
        assert_eq!(resolve_plain(text), Ok(YamlString(text.to_string())));
    }
}

#[test]
fn integer_family_precedes_float_family() {
    assert_eq!(resolve_plain("10"), Ok(YamlInteger(10)));
    assert_eq!(
        resolve_plain("10.0"),
        Ok(YamlFloat(YamlFiniteFloat("10.0".to_string())))
    );
}

#[test]
fn infinity_and_nan_spellings() {
    for text in [".inf", ".Inf", ".INF", "+.inf", "+.Inf", "+.INF"] {
        assert_eq!(resolve_plain(text), Ok(YamlFloat(YamlInfinity)));
    }
    for text in ["-.inf", "-.Inf", "-.INF"] {
        assert_eq!(resolve_plain(text), Ok(YamlFloat(YamlNegInfinity)));
    }
    for text in [".nan", ".NaN", ".NAN"] {
        assert_eq!(resolve_plain(text), Ok(YamlFloat(YamlNaN)));
    }
    for text in [".iNF", ".inF", "inf", "+.nan", "-.nan", ".Nan", "nan"] {
        assert_eq!(resolve_plain(text), Ok(YamlString(text.to_string())));
    }
}

#[test]
fn boolean_and_null_spellings() {
    for text in ["true", "True", "TRUE", "yes", "Yes", "YES"] {
        assert_eq!(resolve_plain(text), Ok(YamlBool(true)));
    }
    for text in ["false", "False", "FALSE", "no", "No", "NO"] {
        assert_eq!(resolve_plain(text), Ok(YamlBool(false)));
    }
    for text in ["null", "Null", "NULL", "~"] {
        assert_eq!(resolve_plain(text), Ok(YamlNull));
    }
    for text in ["tRUE", "yES", "nO", "nULL", "~~", "y", "n", "on", "off"] {
        assert_eq!(resolve_plain(text), Ok(YamlString(text.to_string())));
    }
}

#[test]
fn quoted_scalars_keep_their_text() {
    let ctor = YamlStandardConstructor::new();
    assert_eq!(
        ctor.construct(scalar("123", YamlDoubleQuotedScalarStyle)),
        Ok(YamlString("123".to_string()))
    );
    assert_eq!(
        resolve_scalar("true", YamlSingleQuotedScalarStyle),
        Ok(YamlString("true".to_string()))
    );
    assert_eq!(
        resolve_scalar("99999999999999999999", YamlScalarStyle::YamlLiteralScalarStyle),
        Ok(YamlString("99999999999999999999".to_string()))
    );
    assert_eq!(
        resolve_scalar("~", YamlScalarStyle::YamlFoldedScalarStyle),
        Ok(YamlString("~".to_string()))
    );
}

#[test]
fn unmatched_text_is_kept_verbatim() {
    assert_eq!(resolve_plain("hello"), Ok(YamlString("hello".to_string())));
    assert_eq!(resolve_plain("héllo wörld"), Ok(YamlString("héllo wörld".to_string())));
    assert_eq!(resolve_plain(" 1"), Ok(YamlString(" 1".to_string())));
}

#[test]
fn resolving_twice_gives_equal_values() {
    for text in ["12", "0x1F", "3.5", ".nan", "yes", "~", "word", "99999999999999999999"] {
        assert_eq!(resolve_plain(text), resolve_plain(text));
    }
}

#[test]
fn empty_containers() {
    let ctor = YamlStandardConstructor::new();
    assert_eq!(ctor.construct(flow_sequence(&[])), Ok(YamlSequence(vec![])));
    assert_eq!(ctor.construct(mapping(vec![])), Ok(YamlMapping(vec![])));
}

#[test]
fn mapping_pairs_keep_document_order_and_duplicates() {
    let ctor = YamlStandardConstructor::new();
    let node = mapping(vec![
        (plain("b"), plain("1")),
        (plain("a"), flow_sequence(&["true", "x"])),
        (plain("b"), plain("~")),
    ]);
    assert_eq!(
        ctor.construct(node),
        Ok(YamlMapping(vec![
            (YamlString("b".to_string()), YamlInteger(1)),
            (
                YamlString("a".to_string()),
                YamlSequence(vec![YamlBool(true), YamlString("x".to_string())])
            ),
            (YamlString("b".to_string()), YamlNull),
        ]))
    );
}

#[test]
fn mapping_fails_with_first_failing_key() {
    let ctor = YamlStandardConstructor::new();
    let node = mapping(vec![
        (plain("a"), plain("1")),
        (plain("99999999999999999999"), plain("0x10000000000000000")),
        (plain("c"), plain("-99999999999999999999")),
    ]);
    assert_eq!(
        ctor.construct(node),
        Err(YamlError::YamlIntegerOverflow("99999999999999999999".to_string()))
    );
}

#[test]
fn mapping_fails_with_value_of_first_failing_pair() {
    let ctor = YamlStandardConstructor::new();
    let node = mapping(vec![
        (plain("a"), plain("1")),
        (plain("b"), plain("0x10000000000000000")),
        (plain("88888888888888888888"), plain("2")),
    ]);
    assert_eq!(
        ctor.construct(node),
        Err(YamlError::YamlIntegerOverflow("0x10000000000000000".to_string()))
    );
}

#[test]
fn sequence_fails_with_first_error_in_depth_first_order() {
    let ctor = YamlStandardConstructor::new();
    let inner = YamlSequenceNode(YamlSequenceData::new(vec![
        plain("1"),
        plain("0o7777777777777777777777"),
    ]));
    let node = YamlSequenceNode(YamlSequenceData::new(vec![
        plain("x"),
        inner,
        plain("99999999999999999999"),
    ]));
    assert_eq!(
        ctor.construct(node),
        Err(YamlError::YamlIntegerOverflow("0o7777777777777777777777".to_string()))
    );
}

#[test]
fn nested_structures_are_constructed() {
    let ctor = YamlStandardConstructor::new();
    let node = YamlSequenceNode(YamlSequenceData::new(vec![
        mapping(vec![(plain("k"), flow_sequence(&["0x10", "-.inf"]))]),
        flow_sequence(&[]),
    ]));
    assert_eq!(
        ctor.construct(node),
        Ok(YamlSequence(vec![
            YamlMapping(vec![(
                YamlString("k".to_string()),
                YamlSequence(vec![YamlInteger(16), YamlFloat(YamlNegInfinity)])
            )]),
            YamlSequence(vec![]),
        ]))
    );
}

#[test]
fn capability_methods_match_construct() {
    let ctor = YamlStandardConstructor::new();
    assert_eq!(
        ctor.construct_scalar(YamlScalarData::new("0x21".to_string(), YamlPlainScalarStyle)),
        Ok(YamlInteger(33))
    );
    assert_eq!(
        ctor.construct_sequence(YamlSequenceData::new(vec![plain("no")])),
        Ok(YamlSequence(vec![YamlBool(false)]))
    );
    assert_eq!(
        ctor.construct_mapping(YamlMappingData::new(vec![(plain("1"), plain("2"))])),
        Ok(YamlMapping(vec![(YamlInteger(1), YamlInteger(2))]))
    );
}
