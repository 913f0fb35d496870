use staterail_engine::lexer::{chars_of, tokenize, Token};
use staterail_engine::{
    parse_condition, Binding, Comparison, Condition, Context, Operand, Scalar,
};

fn var(name: &str) -> Operand {
    Operand::Var(name.to_string())
}

fn num(v: i64) -> Operand {
    Operand::Lit(Scalar::Int(v))
}

fn context(entries: Vec<(&str, Scalar)>) -> Context {
    let mut c = Context::new();
    for (name, value) in entries {
        c.set(name.to_string(), value);
    }
    c
}

fn judge(text: &str, fields: &Context, ctx: &Context) -> bool {
    parse_condition(text).expect("condition parses").holds(fields, ctx)
}

#[test]
fn tokenize_splits_operators_and_operands() {
    let toks = tokenize(&chars_of("x<=10 && !(y != \"a b\")")).unwrap();
    assert_eq!(
        toks,
        vec![
            Token::Ident { start: 0, end: 1 },
            Token::Le,
            Token::Int(10),
            Token::And,
            Token::Not,
            Token::LParen,
            Token::Ident { start: 11, end: 12 },
            Token::Ne,
            Token::Text { start: 17, end: 20 },
            Token::RParen,
        ]
    );
}

#[test]
fn tokenize_reads_keywords_and_names() {
    let toks = tokenize(&chars_of("true false null truth _a.b1 || > >= < ==")).unwrap();
    assert_eq!(
        toks,
        vec![
            Token::True,
            Token::False,
            Token::Null,
            Token::Ident { start: 16, end: 21 },
            Token::Ident { start: 22, end: 27 },
            Token::Or,
            Token::Gt,
            Token::Ge,
            Token::Lt,
            Token::Eq,
        ]
    );
}

#[test]
fn tokenize_of_blank_text_is_empty() {
    assert_eq!(tokenize(&chars_of("")), Some(vec![]));
    assert_eq!(tokenize(&chars_of(" \t\r\n")), Some(vec![]));
}

#[test]
fn tokenize_rejects_stray_characters() {
    for text in ["x = 1", "a & b", "a | b", "#", "x > -", "\"open", "x - 1", "é"] {
        assert_eq!(tokenize(&chars_of(text)), None, "{}", text);
    }
}

#[test]
fn tokenize_reads_integers_up_to_the_bounds() {
    assert_eq!(
        tokenize(&chars_of("9223372036854775807")),
        Some(vec![Token::Int(i64::MAX)])
    );
    assert_eq!(
        tokenize(&chars_of("-9223372036854775808")),
        Some(vec![Token::Int(i64::MIN)])
    );
    assert_eq!(tokenize(&chars_of("9223372036854775808")), None);
    assert_eq!(tokenize(&chars_of("-9223372036854775809")), None);
    assert_eq!(tokenize(&chars_of("99999999999999999999999")), None);
    assert_eq!(tokenize(&chars_of("007")), Some(vec![Token::Int(7)]));
    assert_eq!(tokenize(&chars_of("-0")), Some(vec![Token::Int(0)]));
}

#[test]
fn parse_simple_comparison() {
    assert_eq!(
        parse_condition("x>0"),
        Some(Condition::Compare(Comparison::Gt, var("x"), num(0)))
    );
    assert_eq!(
        parse_condition("  x  >=  -5 "),
        Some(Condition::Compare(Comparison::Ge, var("x"), num(-5)))
    );
}

#[test]
fn parse_all_comparisons() {
    let cases = [
        ("a == b", Comparison::Eq),
        ("a != b", Comparison::Ne),
        ("a < b", Comparison::Lt),
        ("a <= b", Comparison::Le),
        ("a > b", Comparison::Gt),
        ("a >= b", Comparison::Ge),
    ];
    for (text, op) in cases {
        assert_eq!(
            parse_condition(text),
            Some(Condition::Compare(op, var("a"), var("b"))),
            "{}",
            text
        );
    }
}

#[test]
fn parse_literals() {
    assert_eq!(
        parse_condition("name == \"bob\""),
        Some(Condition::Compare(
            Comparison::Eq,
            var("name"),
            Operand::Lit(Scalar::Text("bob".to_string()))
        ))
    );
    assert_eq!(
        parse_condition("flag != true"),
        Some(Condition::Compare(
            Comparison::Ne,
            var("flag"),
            Operand::Lit(Scalar::Bool(true))
        ))
    );
    assert_eq!(
        parse_condition("null == v"),
        Some(Condition::Compare(
            Comparison::Eq,
            Operand::Lit(Scalar::Null),
            var("v")
        ))
    );
    assert_eq!(
        parse_condition("false"),
        Some(Condition::Test(Operand::Lit(Scalar::Bool(false))))
    );
    assert_eq!(parse_condition("done"), Some(Condition::Test(var("done"))));
}

#[test]
fn parse_connectives_by_precedence() {
    let a = || Condition::Compare(Comparison::Eq, var("a"), num(1));
    let b = || Condition::Compare(Comparison::Lt, var("b"), num(2));
    let c = || Condition::Test(var("c"));
    assert_eq!(
        parse_condition("a == 1 && b < 2 || c"),
        Some(Condition::Or(
            Box::new(Condition::And(Box::new(a()), Box::new(b()))),
            Box::new(c())
        ))
    );
    assert_eq!(
        parse_condition("c || a == 1 && b < 2"),
        Some(Condition::Or(
            Box::new(c()),
            Box::new(Condition::And(Box::new(a()), Box::new(b())))
        ))
    );
    assert_eq!(
        parse_condition("(c || a == 1) && !b < 2"),
        Some(Condition::And(
            Box::new(Condition::Or(Box::new(c()), Box::new(a()))),
            Box::new(Condition::Not(Box::new(b())))
        ))
    );
    assert_eq!(
        parse_condition("!!c"),
        Some(Condition::Not(Box::new(Condition::Not(Box::new(c())))))
    );
    assert_eq!(
        parse_condition("a == 1 && b < 2 && c"),
        Some(Condition::And(
            Box::new(a()),
            Box::new(Condition::And(Box::new(b()), Box::new(c())))
        ))
    );
}

#[test]
fn parse_rejects_malformed_conditions() {
    for text in [
        "", " ", "x >", "> 1", "(x > 0", "x > 0)", "x = 1", "x & y", "x && ", "|| x", "x y",
        "x > 1 2", "()", "!", "x == == 1", "x > 1 > 2", "#", "\"abc", "x > 9223372036854775808",
    ] {
        assert_eq!(parse_condition(text), None, "{:?}", text);
    }
}

#[test]
fn holds_integer_orderings() {
    let ctx = context(vec![("x", Scalar::Int(5))]);
    let none = Context::new();
    assert!(judge("x > 0", &none, &ctx));
    assert!(judge("x >= 5", &none, &ctx));
    assert!(judge("x <= 5", &none, &ctx));
    assert!(judge("x < 6", &none, &ctx));
    assert!(judge("x == 5", &none, &ctx));
    assert!(judge("x != 4", &none, &ctx));
    assert!(!judge("x > 5", &none, &ctx));
    assert!(!judge("x < 5", &none, &ctx));
    assert!(!judge("x == 4", &none, &ctx));
    assert!(!judge("x != 5", &none, &ctx));
    assert!(judge("-1 < 0", &none, &none));
}

#[test]
fn holds_unbound_variable_never_compares() {
    let none = Context::new();
    assert!(!judge("x > 0", &none, &none));
    assert!(!judge("x == x", &none, &none));
    assert!(!judge("x != 1", &none, &none));
    assert!(!judge("x", &none, &none));
    assert!(judge("!(x > 0)", &none, &none));
}

#[test]
fn holds_orderings_are_for_integers_only() {
    let ctx = context(vec![
        ("s", Scalar::Text("a".to_string())),
        ("t", Scalar::Text("b".to_string())),
        ("b", Scalar::Bool(true)),
    ]);
    let none = Context::new();
    assert!(!judge("s < t", &none, &ctx));
    assert!(!judge("s >= s", &none, &ctx));
    assert!(!judge("b > 0", &none, &ctx));
    assert!(judge("s != t", &none, &ctx));
    assert!(judge("s == \"a\"", &none, &ctx));
    assert!(judge("b == true", &none, &ctx));
    assert!(judge("b != 1", &none, &ctx));
    assert!(!judge("s == 1", &none, &ctx));
}

#[test]
fn holds_lone_operand_must_be_true() {
    let ctx = context(vec![
        ("yes", Scalar::Bool(true)),
        ("no", Scalar::Bool(false)),
        ("one", Scalar::Int(1)),
        ("nothing", Scalar::Null),
    ]);
    let none = Context::new();
    assert!(judge("yes", &none, &ctx));
    assert!(judge("true", &none, &ctx));
    assert!(!judge("no", &none, &ctx));
    assert!(!judge("one", &none, &ctx));
    assert!(!judge("nothing", &none, &ctx));
    assert!(judge("nothing == null", &none, &ctx));
}

#[test]
fn holds_connectives() {
    let ctx = context(vec![("x", Scalar::Int(5)), ("y", Scalar::Int(-1))]);
    let none = Context::new();
    assert!(judge("x > 0 && y < 0", &none, &ctx));
    assert!(!judge("x > 0 && y > 0", &none, &ctx));
    assert!(judge("x < 0 || y < 0", &none, &ctx));
    assert!(!judge("x < 0 || y > 0", &none, &ctx));
    assert!(judge("!(x < 0)", &none, &ctx));
    assert!(judge("x < 0 || x > 0 && y < 0", &none, &ctx));
    assert!(!judge("(x < 0 || x > 0) && y > 0", &none, &ctx));
}

#[test]
fn holds_outcome_fields_take_precedence() {
    let ctx = context(vec![("x", Scalar::Int(-1)), ("y", Scalar::Int(7))]);
    let fields = context(vec![("x", Scalar::Int(5))]);
    assert!(judge("x > 0", &fields, &ctx));
    assert!(!judge("x > 0", &Context::new(), &ctx));
    assert!(judge("y == 7", &fields, &ctx));
}

#[test]
fn context_set_replaces_and_get_finds() {
    let mut c = Context::new();
    assert_eq!(c.get("x"), None);
    c.set("x".to_string(), Scalar::Int(1));
    c.set("y".to_string(), Scalar::Text("t".to_string()));
    c.set("x".to_string(), Scalar::Int(2));
    assert_eq!(c.get("x"), Some(&Scalar::Int(2)));
    assert_eq!(c.get("y"), Some(&Scalar::Text("t".to_string())));
    assert_eq!(c.get("z"), None);
    assert_eq!(c.entries.len(), 2);
}

#[test]
fn context_get_takes_the_first_entry_of_a_name() {
    let c = Context {
        entries: vec![
            Binding { name: "x".to_string(), value: Scalar::Int(1) },
            Binding { name: "x".to_string(), value: Scalar::Int(2) },
        ],
    };
    assert_eq!(c.get("x"), Some(&Scalar::Int(1)));
}

#[test]
fn context_merge_prefers_the_fields() {
    let mut c = context(vec![("x", Scalar::Int(1)), ("y", Scalar::Int(2))]);
    let fields = context(vec![("y", Scalar::Int(20)), ("z", Scalar::Bool(true))]);
    c.merge(fields);
    assert_eq!(c.get("x"), Some(&Scalar::Int(1)));
    assert_eq!(c.get("y"), Some(&Scalar::Int(20)));
    assert_eq!(c.get("z"), Some(&Scalar::Bool(true)));
    assert_eq!(c.entries.len(), 3);
}

#[test]
fn context_duplicate_keeps_entries_and_order() {
    let c = context(vec![
        ("x", Scalar::Int(1)),
        ("y", Scalar::Text("t".to_string())),
        ("z", Scalar::Null),
    ]);
    let d = c.duplicate();
    assert_eq!(d, c);
    assert_eq!(d.entries.len(), 3);
    assert_eq!(Context::new().duplicate(), Context::new());
}

#[test]
fn context_merge_of_nothing_changes_nothing() {
    let mut c = context(vec![("x", Scalar::Int(1))]);
    c.merge(Context::new());
    assert_eq!(c, context(vec![("x", Scalar::Int(1))]));
}

#[test]
fn scalar_same_compares_contents() {
    let values = [
        Scalar::Null,
        Scalar::Bool(true),
        Scalar::Bool(false),
        Scalar::Int(0),
        Scalar::Int(1),
        Scalar::Text("".to_string()),
        Scalar::Text("1".to_string()),
    ];
    for (i, a) in values.iter().enumerate() {
        for (j, b) in values.iter().enumerate() {
            assert_eq!(a.same(b), i == j);
        }
        assert_eq!(&a.duplicate(), a);
    }
}
