use wield::descriptor::ArgValueLiteral;
use wield::float::FloatNum;
use wield::validate::push_literal_debug;

fn literal(value: f64) -> ArgValueLiteral {
    ArgValueLiteral::Float(FloatNum {
        bits: value.to_bits(),
        text: value.to_string(),
        debug: format!("{value:?}"),
    })
}

#[test]
fn float_literals_print_as_their_debug_text() {
    let values = [
        0.0,
        -0.0,
        1.0,
        -2.5,
        0.1,
        0.0001,
        0.00012345,
        0.00001,
        -0.000015,
        1e-7,
        1e-300,
        f64::MIN_POSITIVE,
        5e-324,
        123.456,
        9999999999999998.0,
        1e16,
        1.5e16,
        -2e17,
        123456789012345680000.0,
        f64::MAX,
        f64::INFINITY,
        f64::NEG_INFINITY,
        f64::NAN,
    ];
    for value in values {
        let mut out = String::new();
        push_literal_debug(&mut out, &literal(value));
        assert_eq!(out, format!("Float({value:?})"), "for {value}");
    }
}

#[test]
fn other_literals_print_as_their_debug_text() {
    for l in [
        ArgValueLiteral::Str("say \"hi\"\n".into()),
        ArgValueLiteral::Str("\u{1b}[0m\u{7f}\u{1}\t\r\0'x'\\".into()),
        ArgValueLiteral::Str("caf\u{e9} e\u{301} \u{200b}\u{a0}\u{85}\u{2028}\u{1f600}".into()),
        ArgValueLiteral::Int(-42),
        ArgValueLiteral::Bool(true),
    ] {
        let mut out = String::new();
        push_literal_debug(&mut out, &l);
        assert_eq!(out, format!("{l:?}"));
    }
}
