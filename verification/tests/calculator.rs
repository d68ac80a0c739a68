use workbook::calculator::expression::{
    parse_additive, parse_expression, parse_multiplicative, parse_primary, read_statement, Expr,
    Operator, Statement,
};
use workbook::calculator::token::Token;

fn number(text: &str) -> Token {
    Token::Number(text.to_string())
}

fn operand(at: usize) -> Box<Expr> {
    Box::new(Expr::Operand(at))
}

fn binary(operator: Operator, left: Box<Expr>, right: Box<Expr>) -> Box<Expr> {
    Box::new(Expr::Binary(operator, left, right))
}

/// What a tree is worth when the operand at place `i` is worth `values[i]`.
fn worth(expr: &Expr, values: &[f64]) -> f64 {
    match expr {
        Expr::Operand(at) => values[*at],
        Expr::Group(inner) => worth(inner, values),
        Expr::Binary(operator, left, right) => {
            let (left, right) = (worth(left, values), worth(right, values));
            match operator {
                Operator::Add => left + right,
                Operator::Subtract => left - right,
                Operator::Multiply => left * right,
                Operator::Divide => left / right,
            }
        }
    }
}

fn value_of_line(line: &str) -> f64 {
    let tokens = Token::split(line);
    let values: Vec<f64> = tokens
        .iter()
        .map(|token| match token {
            Token::Number(text) => text.parse().unwrap(),
            _ => 0.0,
        })
        .collect();
    worth(&parse_expression(&tokens).unwrap(), &values)
}

#[test]
fn signs_stand_for_themselves() {
    assert_eq!(Token::parse("+"), Token::Plus);
    assert_eq!(Token::parse("-"), Token::Minus);
    assert_eq!(Token::parse("*"), Token::Asterisk);
    assert_eq!(Token::parse("/"), Token::Slash);
    assert_eq!(Token::parse("("), Token::LParen);
    assert_eq!(Token::parse(")"), Token::RParen);
}

#[test]
fn words_with_mem_name_memories() {
    assert_eq!(Token::parse("mem1"), Token::MemoryRef("1".to_string()));
    assert_eq!(Token::parse("memtotal+"), Token::MemoryPlus("total".to_string()));
    assert_eq!(Token::parse("memtotal-"), Token::MemoryMinus("total".to_string()));
    assert_eq!(Token::parse("mem"), Token::MemoryRef("".to_string()));
    assert_eq!(Token::parse("mem+"), Token::MemoryPlus("".to_string()));
    assert_eq!(Token::parse("mem-"), Token::MemoryMinus("".to_string()));
    assert_eq!(Token::parse("mem+-"), Token::MemoryMinus("+".to_string()));
    assert_eq!(Token::parse("mem値+"), Token::MemoryPlus("値".to_string()));
}

#[test]
fn other_words_are_taken_for_numbers() {
    assert_eq!(Token::parse("12.5"), number("12.5"));
    assert_eq!(Token::parse("-3"), number("-3"));
    assert_eq!(Token::parse("me"), number("me"));
    assert_eq!(Token::parse("Mem1"), number("Mem1"));
    assert_eq!(Token::parse(""), number(""));
    assert_eq!(Token::parse("++"), number("++"));
}

#[test]
fn lines_are_cut_at_every_white_space() {
    assert_eq!(
        Token::split("1 + mem1"),
        vec![number("1"), Token::Plus, Token::MemoryRef("1".to_string())]
    );
    assert_eq!(Token::split(""), vec![number("")]);
    assert_eq!(Token::split("7"), vec![number("7")]);
    assert_eq!(Token::split(" 7"), vec![number(""), number("7")]);
    assert_eq!(Token::split("7 "), vec![number("7"), number("")]);
    assert_eq!(Token::split("7  *"), vec![number("7"), number(""), Token::Asterisk]);
    assert_eq!(Token::split("(\t2\u{3000})"), vec![Token::LParen, number("2"), Token::RParen]);
}

#[test]
fn products_bind_tighter_than_sums() {
    let tokens = Token::split("1 + 2 * 3");
    let expected =
        binary(Operator::Add, operand(0), binary(Operator::Multiply, operand(2), operand(4)));
    assert_eq!(parse_expression(&tokens), Some(*expected));
    assert_eq!(value_of_line("1 + 2 * 3"), 7.0);
    assert_eq!(value_of_line("2 * 3 + 1"), 7.0);
}

#[test]
fn operations_group_from_the_left() {
    let tokens = Token::split("8 - 3 - 2");
    let expected =
        binary(Operator::Subtract, binary(Operator::Subtract, operand(0), operand(2)), operand(4));
    assert_eq!(parse_expression(&tokens), Some(*expected));
    assert_eq!(value_of_line("8 - 3 - 2"), 3.0);
    assert_eq!(value_of_line("8 / 4 / 2"), 1.0);
    assert_eq!(value_of_line("8 / 4 * 2"), 4.0);
}

#[test]
fn parentheses_hold_an_expression_of_their_own() {
    let tokens = Token::split("( 1 + 2 ) * 3");
    let expected = binary(
        Operator::Multiply,
        Box::new(Expr::Group(binary(Operator::Add, operand(1), operand(3)))),
        operand(6),
    );
    assert_eq!(parse_expression(&tokens), Some(*expected));
    assert_eq!(value_of_line("( 1 + 2 ) * 3"), 9.0);
    assert_eq!(value_of_line("2 * ( 3 + ( 4 - 1 ) ) / 4"), 3.0);
    assert_eq!(value_of_line("( ( 5 ) )"), 5.0);
}

#[test]
fn whether_a_number_is_one_is_not_the_parsers_business() {
    assert_eq!(parse_expression(&Token::split("")), Some(Expr::Operand(0)));
    assert_eq!(parse_expression(&Token::split("one")), Some(Expr::Operand(0)));
}

#[test]
fn a_single_operand_is_an_expression() {
    assert_eq!(parse_expression(&Token::split("42")), Some(Expr::Operand(0)));
    assert_eq!(parse_expression(&Token::split("mem1")), Some(Expr::Operand(0)));
}

#[test]
fn malformed_lines_are_no_expression() {
    for line in
        ["+", "1 +", "1 2", "( 1 + 2", "1 + 2 )", "( )", "* 3", "1 + * 2", "1 mem1+", ")", "1  + 2"]
    {
        assert_eq!(parse_expression(&Token::split(line)), None, "{:?}", line);
    }
    assert_eq!(parse_expression(&vec![]), None);
}

#[test]
fn parsers_say_where_they_stopped() {
    let tokens = Token::split("1 * 2 + 3 )");
    assert_eq!(parse_primary(&tokens, 0), Some((Expr::Operand(0), 1)));
    assert_eq!(
        parse_multiplicative(&tokens, 0),
        Some((*binary(Operator::Multiply, operand(0), operand(2)), 3))
    );
    assert_eq!(
        parse_additive(&tokens, 0),
        Some((
            *binary(
                Operator::Add,
                binary(Operator::Multiply, operand(0), operand(2)),
                operand(4)
            ),
            5
        ))
    );
    assert_eq!(parse_primary(&tokens, 1), None);
    assert_eq!(parse_primary(&tokens, 6), None);
    assert_eq!(parse_additive(&tokens, 4), Some((Expr::Operand(4), 5)));
}

#[test]
fn memory_commands_come_first() {
    assert_eq!(
        read_statement(&Token::split("mema+")),
        Some(Statement::AddToMemory("a".to_string()))
    );
    assert_eq!(
        read_statement(&Token::split("mema- whatever follows")),
        Some(Statement::SubtractFromMemory("a".to_string()))
    );
    assert_eq!(
        read_statement(&Token::split("mema * 2")),
        Some(Statement::Evaluate(*binary(Operator::Multiply, operand(0), operand(2))))
    );
    assert_eq!(read_statement(&Token::split("2 mema+")), None);
    assert_eq!(read_statement(&vec![]), None);
}

#[test]
fn texts_are_cut_at_the_marked_characters() {
    let marks = |text: &str, cut: char| -> Vec<bool> { text.chars().map(|c| c == cut).collect() };
    assert_eq!(
        Token::cut("1,+,mem1", &marks("1,+,mem1", ',')),
        vec![number("1"), Token::Plus, Token::MemoryRef("1".to_string())]
    );
    assert_eq!(Token::cut("1 + 2", &vec![false; 5]), vec![number("1 + 2")]);
    assert_eq!(
        Token::cut("ab", &vec![true, true]),
        vec![number(""), number(""), number("")]
    );
    assert_eq!(Token::cut("", &vec![]), vec![number("")]);
    assert_eq!(Token::cut("(x)", &marks("(x)", 'x')), vec![Token::LParen, Token::RParen]);
}
