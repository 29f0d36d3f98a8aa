use logic_vm::instruction::{BinaryOp, Condition, UnaryOp};
use logic_vm::keyword;
use logic_vm::keyword::Opcode;
use logic_vm::lexer::{chars_of, lex, Token, TokenKind};
use logic_vm::literal;
use logic_vm::statement;
use logic_vm::text;

fn units(s: &str) -> Vec<u16> {
    s.encode_utf16().collect()
}

fn chars(s: &str) -> Vec<char> {
    s.chars().collect()
}

#[test]
fn integers_in_decimal() {
    for n in [
        0i64,
        1,
        -1,
        9,
        10,
        -10,
        99,
        100,
        1234567890,
        -987654321,
        i64::MAX,
        i64::MIN,
        i64::MIN + 1,
    ] {
        assert_eq!(text::digits(n), units(&n.to_string()), "{n}");
    }
}

#[test]
fn strings_as_utf16() {
    for s in [
        "",
        "a",
        "null",
        "héllo",
        "♥",
        "𝄞",
        "a𝄞b♥c",
        "\u{ffff}\u{10000}\u{10ffff}\u{d7ff}\u{e000}",
    ] {
        assert_eq!(text::encode(s), units(s), "{s:?}");
    }
}

#[test]
fn appending_stops_at_the_capacity() {
    let mut buf = units("abc");
    text::append_clipped(&mut buf, &units("def"));
    assert_eq!(buf, units("abcdef"));
    text::append_clipped(&mut buf, &Vec::new());
    assert_eq!(buf, units("abcdef"));
    text::append_clipped(&mut buf, &vec![120; 393]);
    assert_eq!(buf.len(), 399);
    text::append_clipped(&mut buf, &units("yz"));
    assert_eq!(buf.len(), 400);
    assert_eq!(buf[399], 121);
    text::append_clipped(&mut buf, &units("more"));
    assert_eq!(buf.len(), 400);
    assert_eq!(buf[399], 121);
    assert_eq!(text::PRINT_CAPACITY, 400);
}

#[test]
fn placeholders_are_filled_lowest_first() {
    for (buf, want_at, want) in [
        ("", None, ""),
        ("{}", None, "{}"),
        ("{a}", None, "{a}"),
        ("{10}", None, "{10}"),
        ("{/}{:}", None, "{/}{:}"),
        ("{0", None, "{0"),
        ("0}", None, "0}"),
        ("{0}", Some(0), "X"),
        ("a{0}b", Some(1), "aXb"),
        ("{1}{0}", Some(3), "{1}X"),
        ("{0}{0}", Some(0), "X{0}"),
        ("{9}{5}{7}{5}", Some(3), "{9}X{7}{5}"),
        ("{{0}}", Some(1), "{X}"),
        ("{0{1}", Some(2), "{0X"),
        ("{9}", Some(0), "X"),
    ] {
        assert_eq!(text::find_placeholder(&units(buf)), want_at, "{buf}");
        let mut b = units(buf);
        assert_eq!(text::substitute(&mut b, &units("X")), want_at, "{buf}");
        assert_eq!(b, units(want), "{buf}");
    }
    let mut b = units("{0}{1}");
    assert_eq!(text::substitute(&mut b, &Vec::new()), Some(0));
    assert_eq!(b, units("{1}"));
    let mut b = units("{3}");
    assert_eq!(text::substitute(&mut b, &units("{2}")), Some(0));
    assert_eq!(b, units("{2}"));
    let mut b: Vec<u16> = units("{0}");
    b.extend(vec![120; 397]);
    assert_eq!(text::substitute(&mut b, &units("12345")), Some(0));
    assert_eq!(b.len(), 400);
    assert_eq!(&b[..6], &units("12345x")[..]);
}

#[test]
fn texts_are_compared_and_copied() {
    assert!(text::same_units(&units("abc"), &units("abc")));
    assert!(!text::same_units(&units("abc"), &units("abd")));
    assert!(!text::same_units(&units("abc"), &units("ab")));
    assert!(text::same_units(&Vec::new(), &Vec::new()));
    assert_eq!(text::copy(&units("a♥")), units("a♥"));
}

fn token(kind: TokenKind, start: usize, end: usize, line: usize) -> Token {
    Token { kind, start, end, line }
}

#[test]
fn sources_are_cut_into_tokens() {
    assert_eq!(lex(&chars("")), Ok(vec![token(TokenKind::Break, 0, 0, 0)]));
    assert_eq!(
        lex(&chars("set a 1")),
        Ok(vec![
            token(TokenKind::Word, 0, 3, 0),
            token(TokenKind::Word, 4, 5, 0),
            token(TokenKind::Word, 6, 7, 0),
            token(TokenKind::Break, 7, 7, 0),
        ])
    );
    assert_eq!(
        lex(&chars(" a;b\n#c;d\ne \"f g\\\"h\"i\t# j")),
        Ok(vec![
            token(TokenKind::Word, 1, 2, 0),
            token(TokenKind::Break, 2, 3, 0),
            token(TokenKind::Word, 3, 4, 1),
            token(TokenKind::Break, 4, 5, 1),
            token(TokenKind::Break, 9, 10, 2),
            token(TokenKind::Word, 10, 11, 3),
            token(TokenKind::Text, 13, 19, 3),
            token(TokenKind::Word, 20, 21, 3),
            token(TokenKind::Break, 25, 25, 3),
        ])
    );
    assert_eq!(lex(&chars("a\"")), Err(0));
    assert_eq!(lex(&chars("a\nb \"c\nd\"")), Err(1));
    assert_eq!(lex(&chars(";;\"\\\"")), Err(2));
    assert_eq!(
        lex(&chars("\"\"")),
        Ok(vec![token(TokenKind::Text, 1, 1, 0), token(TokenKind::Break, 2, 2, 0)])
    );
    assert_eq!(
        lex(&chars("a#b\"c")),
        Ok(vec![token(TokenKind::Word, 0, 1, 0), token(TokenKind::Break, 5, 5, 0)])
    );
    assert_eq!(chars_of("a♥𝄞"), chars("a♥𝄞"));
}

#[test]
fn statements_and_labels() {
    let src = chars("a:\nset x 1;;b: c\n:\nd:");
    let tokens = lex(&src).unwrap();
    let ranges = statement::split(&tokens);
    assert_eq!(ranges, vec![(0, 1), (2, 5), (7, 9), (10, 11), (12, 13)]);
    let labels: Vec<bool> = ranges
        .iter()
        .map(|&(a, b)| statement::statement_is_label(&src, &tokens, a, b))
        .collect();
    assert_eq!(labels, vec![true, false, false, false, true]);
    let table = statement::find_labels(&src, &tokens, &ranges);
    assert_eq!(table.count, 3);
    assert_eq!(table.targets, vec![0, 3]);
    assert_eq!(table.starts, vec![0, 19]);
    assert_eq!(table.ends, vec![1, 20]);
}

#[test]
fn numbers_are_read_exactly_where_they_are_integers() {
    let exact = |s: &str| literal::exact_number(
        &chars(s),
        0,
        s.chars().count(),
    ).map(f64::from_bits);
    for (s, want) in [
        ("0", Some(0.)),
        ("-0", Some(-0.)),
        ("+0", Some(0.)),
        ("42", Some(42.)),
        ("-42", Some(-42.)),
        ("+42", Some(42.)),
        ("007", Some(7.)),
        ("0x0", Some(0.)),
        ("0xff", Some(255.)),
        ("0XFF", Some(255.)),
        ("-0x10", Some(-16.)),
        ("0b0", Some(0.)),
        ("0b1010", Some(10.)),
        ("0B11", Some(3.)),
        ("0xdeadbeef", Some(3735928559.)),
        ("9007199254740993", Some(9007199254740992.)),
        ("18446744073709551615", Some(18446744073709551616.)),
        ("0xffffffffffffffff", Some(18446744073709551616.)),
        ("18446744073709551616", None),
        ("0x10000000000000000", None),
        ("", None),
        ("-", None),
        ("+", None),
        ("0x", None),
        ("0b", None),
        ("0b2", None),
        ("0xg", None),
        ("1.5", None),
        ("1e3", None),
        ("12a", None),
        ("--1", None),
        ("0x-1", None),
        ("１", None),
    ] {
        let got = exact(s);
        assert_eq!(got.map(f64::to_bits), want.map(f64::to_bits), "{s:?}");
    }
    let like = |s: &str| literal::is_number_like(&chars(s), 0, s.chars().count());
    for s in ["0", "9x", "-1", "+1", ".5", "-.", "+.5", "..", "1e3"] {
        assert!(like(s), "{s:?}");
    }
    for s in ["", "-", "+", ".", "a", "-a", "x1", "@1", "e3", "π"] {
        assert!(!like(s), "{s:?}");
    }
    let natural = |s: &str| literal::natural(&chars(s), 0, s.chars().count());
    assert_eq!(natural("0"), Some(0));
    assert_eq!(natural("0012"), Some(12));
    assert_eq!(natural("18446744073709551615"), Some(u64::MAX));
    assert_eq!(natural("18446744073709551616"), None);
    assert_eq!(natural(""), None);
    assert_eq!(natural("-1"), None);
    assert_eq!(natural("0x1"), None);
    assert_eq!(literal::natural(&chars("ab12cd"), 2, 4), Some(12));
    assert_eq!(literal::exact_number(&chars("ab-0x1fcd"), 2, 7).map(f64::from_bits), Some(-31.));
}

#[test]
fn strings_are_unescaped() {
    let unescape = |s: &str| literal::unescape(&chars(s), 0, s.chars().count());
    assert_eq!(unescape(""), Some(Vec::new()));
    assert_eq!(unescape("abc"), Some(units("abc")));
    assert_eq!(unescape("a\\nb"), Some(units("a\nb")));
    assert_eq!(unescape("\\\"\\\\\\n"), Some(units("\"\\\n")));
    assert_eq!(unescape("♥𝄞"), Some(units("♥𝄞")));
    assert_eq!(unescape("a\\tb"), None);
    assert_eq!(unescape("a\\"), None);
    assert_eq!(unescape("\\q\\n"), None);
    assert_eq!(literal::unescape(&chars("xx\\nyy"), 2, 4), Some(units("\n")));
}

#[test]
fn words_of_the_language() {
    let opcode = |s: &str| keyword::opcode(&chars(s), 0, s.chars().count());
    for (s, want) in [
        ("noop", Opcode::Noop),
        ("set", Opcode::Assign),
        ("op", Opcode::Op),
        ("jump", Opcode::Jump),
        ("select", Opcode::Select),
        ("wait", Opcode::Wait),
        ("stop", Opcode::Stop),
        ("end", Opcode::End),
        ("print", Opcode::Print),
        ("printchar", Opcode::PrintChar),
        ("format", Opcode::Format),
        ("packcolor", Opcode::PackColor),
        ("unpackcolor", Opcode::UnpackColor),
        ("lookup", Opcode::Lookup),
        ("setrate", Opcode::SetRate),
    ] {
        assert_eq!(opcode(s), Some(want), "{s}");
    }
    for s in ["", "Noop", "sets", "se", "printflush", "draw", "sensor"] {
        assert_eq!(opcode(s), None, "{s}");
    }
    let unary = |s: &str| keyword::unary(&chars(s), 0, s.chars().count());
    for (s, want) in [
        ("not", UnaryOp::Not),
        ("abs", UnaryOp::Abs),
        ("sign", UnaryOp::Sign),
        ("log", UnaryOp::Log),
        ("log10", UnaryOp::Log10),
        ("floor", UnaryOp::Floor),
        ("ceil", UnaryOp::Ceil),
        ("round", UnaryOp::Round),
        ("sqrt", UnaryOp::Sqrt),
        ("sin", UnaryOp::Sin),
        ("cos", UnaryOp::Cos),
        ("tan", UnaryOp::Tan),
        ("asin", UnaryOp::Asin),
        ("acos", UnaryOp::Acos),
        ("atan", UnaryOp::Atan),
    ] {
        assert_eq!(unary(s), Some(want), "{s}");
    }
    assert_eq!(unary("add"), None);
    let binary = |s: &str| keyword::binary(&chars(s), 0, s.chars().count());
    for (s, want) in [
        ("add", BinaryOp::Add),
        ("sub", BinaryOp::Sub),
        ("mul", BinaryOp::Mul),
        ("div", BinaryOp::Div),
        ("idiv", BinaryOp::Idiv),
        ("mod", BinaryOp::Mod),
        ("emod", BinaryOp::Emod),
        ("pow", BinaryOp::Pow),
        ("land", BinaryOp::Land),
        ("shl", BinaryOp::Shl),
        ("shr", BinaryOp::Shr),
        ("ushr", BinaryOp::Ushr),
        ("or", BinaryOp::Or),
        ("and", BinaryOp::And),
        ("xor", BinaryOp::Xor),
        ("max", BinaryOp::Max),
        ("min", BinaryOp::Min),
        ("angle", BinaryOp::Angle),
        ("angleDiff", BinaryOp::AngleDiff),
        ("len", BinaryOp::Len),
        ("noise", BinaryOp::Noise),
        ("logn", BinaryOp::Logn),
        ("equal", BinaryOp::Test(Condition::Equal)),
        ("notEqual", BinaryOp::Test(Condition::NotEqual)),
        ("lessThan", BinaryOp::Test(Condition::LessThan)),
        ("lessThanEq", BinaryOp::Test(Condition::LessThanEq)),
        ("greaterThan", BinaryOp::Test(Condition::GreaterThan)),
        ("greaterThanEq", BinaryOp::Test(Condition::GreaterThanEq)),
        ("strictEqual", BinaryOp::Test(Condition::StrictEqual)),
    ] {
        assert_eq!(binary(s), Some(want), "{s}");
    }
    assert_eq!(binary("always"), None);
    assert_eq!(binary("not"), None);
    let condition = |s: &str| keyword::condition(&chars(s), 0, s.chars().count());
    assert_eq!(condition("always"), Some(Condition::Always));
    assert_eq!(condition("equal"), Some(Condition::Equal));
    assert_eq!(condition("add"), None);
    let kind = |s: &str| keyword::kind(&chars(s), 0, s.chars().count());
    assert_eq!(kind("block"), Some(logic_vm::catalog::LookupKind::Block));
    assert_eq!(kind("item"), Some(logic_vm::catalog::LookupKind::Item));
    assert_eq!(kind("liquid"), Some(logic_vm::catalog::LookupKind::Liquid));
    assert_eq!(kind("unit"), Some(logic_vm::catalog::LookupKind::Unit));
    assert_eq!(kind("team"), Some(logic_vm::catalog::LookupKind::Team));
    assert_eq!(kind("building"), None);
    assert!(keyword::word_is(&chars("xsetx"), 1, 4, "set"));
    assert!(!keyword::word_is(&chars("xsetx"), 1, 5, "set"));
    assert!(keyword::word_is(&chars("π"), 0, 1, "π"));
}
