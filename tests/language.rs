use buzz::expr::{infix_to_postfix, precedence, EvalError, Term};
use buzz::interp::{expression_endpoint, get_data_type, strip_quotes, Action, Interpreter};
use buzz::lexer::{is_number, scan, token_type, Token, TokenKind};
use buzz::parser::{infix_to_tree, parse, Construct, Node};
use buzz::symbols::{Symbol, SymbolTable, ValueType};

fn truthy(v: f64) -> bool {
    (v as i32) != 0
}

fn flag(b: bool) -> f64 {
    if b {
        1.0
    } else {
        0.0
    }
}

/// Evaluates a postfix expression with IEEE doubles.
fn evaluate(terms: &[Term]) -> f64 {
    let mut stack: Vec<f64> = Vec::new();
    for t in terms {
        match t {
            Term::Operand(s) => {
                if let Ok(v) = s.parse::<f64>() {
                    stack.push(v);
                } else if s == "TRUE" {
                    stack.push(1.0);
                } else if s == "FALSE" {
                    stack.push(0.0);
                }
            }
            Term::Operator(TokenKind::NotOperator) => {
                let a = stack.pop().unwrap();
                stack.push(flag(!truthy(a)));
            }
            Term::Operator(k) => {
                let b = stack.pop().unwrap();
                let a = stack.pop().unwrap();
                let r = match k {
                    TokenKind::AddOperator => a + b,
                    TokenKind::MinusOperator => a - b,
                    TokenKind::MultOperator => a * b,
                    TokenKind::DivOperator => a / b,
                    TokenKind::ModOperator => a % b,
                    TokenKind::ExpOperator => a.powf(b),
                    TokenKind::LessThan => flag(a < b),
                    TokenKind::LessThanEq => flag(a <= b),
                    TokenKind::GreaterThan => flag(a > b),
                    TokenKind::GreaterThanEq => flag(a >= b),
                    TokenKind::EqualsOperator => flag(a == b),
                    TokenKind::NotEqualsOperator => flag(a != b),
                    TokenKind::AndOperator => flag(truthy(a) && truthy(b)),
                    TokenKind::OrOperator => flag(truthy(a) || truthy(b)),
                    _ => a,
                };
                stack.push(r);
            }
        }
    }
    stack.pop().unwrap()
}

/// Runs a program to its end; returns the interpreter, the printed lines
/// and the error it stopped on, if any.
fn run(source: &str) -> (Interpreter, Vec<String>, Option<EvalError>) {
    let tokens = scan(source);
    let mut it = Interpreter::new();
    let mut out: Vec<String> = Vec::new();
    loop {
        match it.run(&tokens) {
            Action::Evaluate(p) => {
                let v = evaluate(&p);
                it.resume(v.to_string(), truthy(v));
            }
            Action::Print(s) => out.push(s),
            Action::Done => return (it, out, None),
            Action::Failed(e) => return (it, out, Some(e)),
        }
    }
}

/// The postfix form of a whole one-line expression against `table`.
fn postfix_of(table: &SymbolTable, source: &str) -> Result<Vec<Term>, EvalError> {
    let tokens = scan(source);
    infix_to_postfix(table, &tokens, 0, tokens.len())
}

fn expr_value(source: &str) -> f64 {
    evaluate(&postfix_of(&SymbolTable::new(), source).unwrap())
}

fn describe(terms: &[Term]) -> Vec<String> {
    terms
        .iter()
        .map(|t| match t {
            Term::Operand(s) => s.clone(),
            Term::Operator(k) => format!("{:?}", k),
        })
        .collect()
}

fn lexemes(tokens: &[Token]) -> Vec<String> {
    tokens.iter().map(|t| t.lexeme.clone()).collect()
}

fn kinds(tokens: &[Token]) -> Vec<TokenKind> {
    tokens.iter().map(|t| t.kind).collect()
}

#[test]
fn multiplication_binds_tighter_than_addition() {
    let p = postfix_of(&SymbolTable::new(), "2 + 3 * 4").unwrap();
    assert_eq!(describe(&p), vec!["2", "3", "4", "MultOperator", "AddOperator"]);
    assert_eq!(expr_value("2 + 3 * 4"), 14.0);
}

#[test]
fn parentheses_override_precedence() {
    let p = postfix_of(&SymbolTable::new(), "(2 + 3) * 4").unwrap();
    assert_eq!(describe(&p), vec!["2", "3", "AddOperator", "4", "MultOperator"]);
    assert_eq!(expr_value("(2 + 3) * 4"), 20.0);
}

#[test]
fn equal_precedence_is_left_associative() {
    let p = postfix_of(&SymbolTable::new(), "8 - 3 - 2").unwrap();
    assert_eq!(describe(&p), vec!["8", "3", "MinusOperator", "2", "MinusOperator"]);
    assert_eq!(expr_value("8 - 3 - 2"), 3.0);
}

#[test]
fn boolean_logic() {
    assert_eq!(expr_value("NOT TRUE"), 0.0);
    assert_eq!(expr_value("TRUE AND FALSE"), 0.0);
    assert_eq!(expr_value("1 < 2 AND 3 > 2"), 1.0);
    let p = postfix_of(&SymbolTable::new(), "1 < 2 AND 3 > 2").unwrap();
    assert_eq!(
        describe(&p),
        vec!["1", "2", "LessThan", "3", "2", "GreaterThan", "AndOperator"]
    );
}

#[test]
fn exponent_and_modulo_precedence() {
    let p = postfix_of(&SymbolTable::new(), "2 * 3 ^ 2 % 5").unwrap();
    assert_eq!(describe(&p), vec!["2", "3", "2", "ExpOperator", "MultOperator", "5", "ModOperator"]);
    assert_eq!(expr_value("2 * 3 ^ 2 % 5"), 3.0);
    assert_eq!(expr_value("1 / 0"), f64::INFINITY);
}

#[test]
fn precedence_table() {
    assert_eq!(precedence(TokenKind::NotOperator), 5);
    assert_eq!(precedence(TokenKind::ExpOperator), 4);
    assert_eq!(precedence(TokenKind::ModOperator), 3);
    assert_eq!(precedence(TokenKind::MinusOperator), 2);
    assert_eq!(precedence(TokenKind::NotEqualsOperator), 1);
    assert_eq!(precedence(TokenKind::OrOperator), 0);
    assert_eq!(precedence(TokenKind::Identifier), 0);
}

#[test]
fn declared_value_is_read_back() {
    let (it, out, err) = run("LET x BE 5\nLET y BE x + 1\n");
    assert!(err.is_none());
    assert!(out.is_empty());
    let y = it.lookup("y").unwrap();
    assert_eq!(y.value.parse::<f64>().unwrap(), 6.0);
    assert_eq!(y.value_type, ValueType::Number);
    let x = it.lookup("x").unwrap();
    assert_eq!(x.value, "5");
}

#[test]
fn undefined_symbol_in_expression() {
    let (_, _, err) = run("LET y BE z + 1\n");
    assert_eq!(err, Some(EvalError::UndefinedSymbol("z".to_string())));
    let p = postfix_of(&SymbolTable::new(), "z + 1");
    assert_eq!(p.unwrap_err(), EvalError::UndefinedSymbol("z".to_string()));
}

#[test]
fn undefined_symbol_on_reassignment_and_print() {
    let (_, _, err) = run("z BE 1\n");
    assert_eq!(err, Some(EvalError::UndefinedSymbol("z".to_string())));
    let (_, _, err) = run("PRINT z\n");
    assert_eq!(err, Some(EvalError::UndefinedSymbol("z".to_string())));
}

#[test]
fn false_condition_skips_to_else() {
    let (_, out, err) = run("IF FALSE\nPRINT \"a\"\nELSE\nPRINT \"b\"\nEND\n");
    assert!(err.is_none());
    assert_eq!(out, vec!["b"]);
}

#[test]
fn true_condition_skips_else_branch() {
    let (_, out, err) = run("IF 1 < 2\nPRINT \"a\"\nELSE\nPRINT \"b\"\nEND\nPRINT \"c\"\n");
    assert!(err.is_none());
    assert_eq!(out, vec!["a", "c"]);
}

#[test]
fn skipped_statements_have_no_effect() {
    let (it, out, err) = run("LET x BE 1\nIF FALSE\nx BE 9\nLET w BE 2\nEND\nPRINT x\n");
    assert!(err.is_none());
    assert_eq!(out, vec!["1"]);
    assert!(it.lookup("w").is_none());
}

#[test]
fn string_is_printed_without_quotes() {
    let (it, out, err) = run("LET s BE \"hello\"\nPRINT s\n");
    assert!(err.is_none());
    assert_eq!(out, vec!["hello"]);
    assert_eq!(it.lookup("s").unwrap().value_type, ValueType::String);
}

#[test]
fn print_literal_and_reassignment() {
    let (it, out, err) = run("LET n BE 2\nn BE n * 10\nPRINT n\nPRINT \"done now\"\n");
    assert!(err.is_none());
    assert_eq!(out, vec!["20", "done now"]);
    assert_eq!(it.lookup("n").unwrap().value_type, ValueType::Number);
}

#[test]
fn single_token_values_keep_their_inferred_type() {
    let (it, _, err) = run("LET b BE TRUE\nLET n BE 2.5\nLET w BE word\n");
    assert!(err.is_none());
    assert_eq!(it.lookup("b").unwrap().value_type, ValueType::Boolean);
    assert_eq!(it.lookup("n").unwrap().value_type, ValueType::Number);
    assert_eq!(it.lookup("w").unwrap().value_type, ValueType::String);
    assert_eq!(it.lookup("w").unwrap().value, "word");
}

#[test]
fn syntax_errors() {
    let (_, _, err) = run("LET 5 BE 1\n");
    assert_eq!(err, Some(EvalError::ExpectedIdentifier("5".to_string())));
    let (_, _, err) = run("LET x 5\n");
    assert_eq!(err, Some(EvalError::ExpectedAssign("5".to_string())));
    let (_, _, err) = run("LET x");
    assert_eq!(err, Some(EvalError::ExpectedAssign(String::new())));
    let (_, _, err) = run("LET x BE 1\nx 5\n");
    assert_eq!(err, Some(EvalError::ExpectedAssign("5".to_string())));
    let (_, _, err) = run("LET x BE\n");
    assert_eq!(err, Some(EvalError::EmptyExpression));
    let (_, _, err) = run("IF\n");
    assert_eq!(err, Some(EvalError::EmptyExpression));
}

#[test]
fn first_error_stops_the_run() {
    let (_, out, err) = run("PRINT \"a\"\nPRINT q\nPRINT \"b\"\n");
    assert_eq!(out, vec!["a"]);
    assert_eq!(err, Some(EvalError::UndefinedSymbol("q".to_string())));
}

#[test]
fn conversion_is_repeatable() {
    let mut table = SymbolTable::new();
    table.insert("x".to_string(), Symbol { value: "4".to_string(), value_type: ValueType::Number });
    let tokens = scan("x * (x - 1)");
    let a = infix_to_postfix(&table, &tokens, 0, tokens.len()).unwrap();
    let b = infix_to_postfix(&table, &tokens, 0, tokens.len()).unwrap();
    assert_eq!(describe(&a), describe(&b));
    assert_eq!(describe(&a), vec!["4", "4", "1", "MinusOperator", "MultOperator"]);
    assert_eq!(evaluate(&a), evaluate(&b));
    assert_eq!(evaluate(&a), 12.0);
}

#[test]
fn lexemes_rejoin_to_the_source_without_blanks() {
    let source = "LET s BE \"a b\"\nIF (x, y)\tEND\r\n";
    let tokens = scan(source);
    let joined: String = lexemes(&tokens).concat();
    assert_eq!(joined, "LETsBE\"a b\"\nIF(x,y)END\n");
}

#[test]
fn scan_classifies_tokens() {
    let tokens = scan("LET x BE (1 + 2.5) * y\n");
    assert_eq!(lexemes(&tokens), vec!["LET", "x", "BE", "(", "1", "+", "2.5", ")", "*", "y", "\n"]);
    assert_eq!(
        kinds(&tokens),
        vec![
            TokenKind::Initialize,
            TokenKind::Identifier,
            TokenKind::Assign,
            TokenKind::LParen,
            TokenKind::Literal,
            TokenKind::AddOperator,
            TokenKind::Literal,
            TokenKind::RParen,
            TokenKind::MultOperator,
            TokenKind::Identifier,
            TokenKind::Newline,
        ]
    );
}

#[test]
fn scan_edge_cases() {
    assert!(scan("").is_empty());
    assert!(scan("  \t ").is_empty());
    let tokens = scan("PRINT \"hello, (world)\"");
    assert_eq!(lexemes(&tokens), vec!["PRINT", "\"hello, (world)\""]);
    assert_eq!(tokens[1].kind, TokenKind::Literal);
    let tokens = scan("x");
    assert_eq!(lexemes(&tokens), vec!["x"]);
    let tokens = scan("\"open");
    assert_eq!(lexemes(&tokens), vec!["\"open"]);
    assert_eq!(tokens[0].kind, TokenKind::Literal);
}

#[test]
fn token_type_of_lexemes() {
    assert_eq!(token_type("3.5"), TokenKind::Literal);
    assert_eq!(token_type("-2"), TokenKind::Literal);
    assert_eq!(token_type("1e5"), TokenKind::Literal);
    assert_eq!(token_type(".5"), TokenKind::Literal);
    assert_eq!(token_type("inf"), TokenKind::Literal);
    assert_eq!(token_type("NaN"), TokenKind::Literal);
    assert_eq!(token_type("-"), TokenKind::MinusOperator);
    assert_eq!(token_type("1e"), TokenKind::Identifier);
    assert_eq!(token_type("LET"), TokenKind::Initialize);
    assert_eq!(token_type("<="), TokenKind::LessThanEq);
    assert_eq!(token_type("NOTEQUALS"), TokenKind::NotEqualsOperator);
    assert_eq!(token_type("FOR"), TokenKind::Keyword);
    assert_eq!(token_type("TO"), TokenKind::Operator);
    assert_eq!(token_type("\n"), TokenKind::Newline);
    assert_eq!(token_type("let"), TokenKind::Identifier);
}

#[test]
fn number_text() {
    assert!(is_number("42"));
    assert!(is_number("+4.e-3"));
    assert!(is_number("Infinity"));
    assert!(!is_number("."));
    assert!(!is_number("4x"));
    assert!(!is_number(""));
    assert!(!is_number("1e+"));
}

#[test]
fn data_types_and_quotes() {
    assert_eq!(get_data_type("TRUE"), ValueType::Boolean);
    assert_eq!(get_data_type("FALSE"), ValueType::Boolean);
    assert_eq!(get_data_type("7"), ValueType::Number);
    assert_eq!(get_data_type("\"7\""), ValueType::String);
    assert_eq!(strip_quotes("\"hi there\""), "hi there");
    assert_eq!(strip_quotes("\"\""), "");
    assert_eq!(strip_quotes("a\"b"), "a\"b");
}

#[test]
fn endpoint_of_expressions() {
    let tokens = scan("LET x BE 1 + 2\nPRINT x\n");
    assert_eq!(expression_endpoint(&tokens, 3), Some(6));
    assert_eq!(expression_endpoint(&tokens, 6), None);
    assert_eq!(expression_endpoint(&tokens, 7), Some(9));
}

#[test]
fn symbol_table_last_write_wins() {
    let mut table = SymbolTable::new();
    table.insert("a".to_string(), Symbol { value: "1".to_string(), value_type: ValueType::Number });
    table.insert("a".to_string(), Symbol { value: "\"s\"".to_string(), value_type: ValueType::String });
    let a = table.get("a").unwrap();
    assert_eq!(a.value, "\"s\"");
    assert_eq!(a.value_type, ValueType::String);
    assert!(table.get("b").is_none());
}

/// The tree written as nested text: a leaf is its value, an operator node
/// is its value followed by its children in brackets.
fn shape(n: &Node) -> String {
    let v = n.value.clone().unwrap_or_default();
    if n.children.is_empty() {
        v
    } else {
        let kids: Vec<String> = n.children.iter().map(shape).collect();
        format!("{}[{}]", v, kids.join(" "))
    }
}

#[test]
fn tree_of_comparison() {
    let tokens = scan("1 < x");
    let n = infix_to_tree(&tokens, 0, tokens.len()).unwrap();
    assert_eq!(n.construct, Construct::Operator);
    assert_eq!(n.value.as_deref(), Some("<"));
    assert_eq!(n.children.len(), 2);
    assert_eq!(n.children[0].value.as_deref(), Some("1"));
    assert_eq!(n.children[0].construct, Construct::Literal);
    assert_eq!(n.children[1].value.as_deref(), Some("x"));
    assert_eq!(n.children[1].construct, Construct::Variable);
    assert!(n.children[0].children.is_empty());
    assert!(n.children[1].children.is_empty());
}

#[test]
fn tree_of_nested_expression() {
    let tokens = scan("a * (b + 2) - NOT c");
    let n = infix_to_tree(&tokens, 0, tokens.len()).unwrap();
    assert_eq!(shape(&n), "-[*[a +[b 2]] NOT[c]]");
}

#[test]
fn malformed_expression_has_no_tree() {
    let tokens = scan("1 +");
    assert!(infix_to_tree(&tokens, 0, tokens.len()).is_none());
    let tokens = scan("1 2");
    assert!(infix_to_tree(&tokens, 0, tokens.len()).is_none());
    let tokens = scan("(1 + 2");
    assert!(infix_to_tree(&tokens, 0, tokens.len()).is_none());
    let tokens = scan("LET x BE 1 2\n");
    assert_eq!(parse(&tokens).unwrap_err(), EvalError::MalformedExpression);
}

#[test]
fn tree_of_program() {
    let tokens = scan("LET x BE 2 + 3\nPRINT x\nIF 1 < x\nEND\n");
    let root = parse(&tokens).unwrap();
    assert_eq!(root.construct, Construct::Scope);
    assert!(root.value.is_none());
    assert_eq!(root.children.len(), 3);
    let assign = &root.children[0];
    assert_eq!(assign.construct, Construct::Assign);
    assert_eq!(assign.children.len(), 2);
    assert_eq!(assign.children[0].value.as_deref(), Some("x"));
    assert_eq!(assign.children[0].construct, Construct::Variable);
    assert_eq!(assign.children[1].value.as_deref(), Some("+"));
    assert_eq!(shape(&assign.children[1]), "+[2 3]");
    let output = &root.children[1];
    assert_eq!(output.construct, Construct::Output);
    assert_eq!(output.children[0].value.as_deref(), Some("x"));
    let branch = &root.children[2];
    assert_eq!(branch.construct, Construct::Branch);
    assert_eq!(shape(&branch.children[0]), "<[1 x]");
}

#[test]
fn parse_errors() {
    let tokens = scan("LET BE 1\n");
    assert_eq!(parse(&tokens).unwrap_err(), EvalError::ExpectedIdentifier("BE".to_string()));
    let tokens = scan("LET x 1\n");
    assert_eq!(parse(&tokens).unwrap_err(), EvalError::ExpectedAssign("1".to_string()));
    let tokens = scan("IF\n");
    assert_eq!(parse(&tokens).unwrap_err(), EvalError::EmptyExpression);
}

#[test]
fn relexing_spaced_lexemes_gives_the_same_tokens() {
    let source = "LET s BE \"a, (b)\"\nIF (x<=2) AND y\tEND\r\nPRINT s\n";
    let tokens = scan(source);
    let spaced = lexemes(&tokens).join(" ");
    let again = scan(&spaced);
    assert_eq!(lexemes(&again), lexemes(&tokens));
    assert_eq!(kinds(&again), kinds(&tokens));
}
