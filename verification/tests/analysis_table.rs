use kompilattheur::analysis_table::AnalysisTable;
use kompilattheur::formatters::construct_string_table;
use kompilattheur::generator::{generate_analysis_table, parse_grammar};
use kompilattheur::grammar::Lexem;
use kompilattheur::token::Token;

/// Balanced parentheses: `S -> ( S ) S | ε`.
const PARENS: &str = "\"S\" : \"(\" \"S\" \")\" \"S\" | ;";

fn parens_table() -> AnalysisTable {
    generate_analysis_table(PARENS).unwrap()
}

#[test]
fn table_cells_follow_first_and_follow_sets() {
    let t = parens_table();
    let s = Lexem::NonTerminal(0);
    assert_eq!(
        Some(&vec![Lexem::Terminal(Token::OpenParenthesis), s, Lexem::Terminal(Token::CloseParenthesis), s]),
        t.get(&0, &Token::OpenParenthesis)
    );
    assert_eq!(Some(&vec![]), t.get(&0, &Token::CloseParenthesis));
    assert_eq!(Some(&vec![]), t.get(&0, &Token::EOF));
    assert_eq!(None, t.get(&0, &Token::Add));
    assert_eq!(None, t.get(&1, &Token::EOF));
}

#[test]
fn expected_tokens_are_those_with_a_production() {
    let t = parens_table();
    let expected = t.get_expected_tokens(&0);
    assert_eq!(vec![Token::EOF, Token::OpenParenthesis, Token::CloseParenthesis], expected);
    for id in 0..38 {
        let tok = Token::from_id(id);
        assert_eq!(expected.contains(&tok), t.get(&0, &tok).is_some());
    }
    assert!(t.get_expected_tokens(&3).is_empty());
}

#[test]
fn try_from_grammar_accepts_an_ll1_grammar() {
    let g = parse_grammar(PARENS).unwrap();
    let t = AnalysisTable::try_from_grammar(&g).unwrap();
    assert_eq!(1, t.count_non_terminals());
    assert_eq!("S", t.non_terminal_name(0));
    assert!(t.is_row_filled(0));
    assert_eq!(vec![Token::EOF, Token::OpenParenthesis, Token::CloseParenthesis], t.used_token_kinds());
}

#[test]
fn string_table_of_parens() {
    let t = parens_table();
    let (table, columns, order) = construct_string_table(&t);
    assert_eq!(vec![String::from("EOF"), String::from("("), String::from(")")], columns);
    assert_eq!(vec![vec![String::new(), String::from("(S)S"), String::new()]], table);
    assert_eq!(vec![0], order);
}

#[test]
fn markdown_of_parens() {
    let t = parens_table();
    assert_eq!("| |EOF|\\(|\\)|\n|-|-|-|-|\n|S||\\(S\\)S||\n", t.display_markdown());
}

#[test]
fn plain_text_of_parens() {
    let t = parens_table();
    let expected = "+---+-----+------+---+\n\
                    +   + EOF +  (   + ) +\n\
                    +---+-----+------+---+\n\
                    | S |     | (S)S |   |\n\
                    +---+-----+------+---+\n";
    assert_eq!(expected, t.display_plain());
}

#[test]
fn markdown_escapes_pipes_backslashes_and_brackets() {
    // The non-terminal "a|b" is written with its pipe after one backslash.
    let t = generate_analysis_table("\"a|b\" : \"<\" \"[\" ;").unwrap();
    assert_eq!("| |\\<|\n|-|-|\n|a\\|b|\\<\\[|\n", t.display_markdown());
}

#[test]
fn rows_without_production_come_last_in_the_order() {
    // "B" only appears on the right of a rule: its row stays empty.
    let t = generate_analysis_table("\"A\" : \"x\" \"B\" ; \"x\" : \"+\" ; \"C\" : \"-\" ;").unwrap();
    let (table, _, order) = construct_string_table(&t);
    assert_eq!(vec![0, 1, 3, 2], order);
    assert_eq!(3, table.len());
    assert!(!t.is_row_filled(2));
    let markdown = t.display_markdown();
    assert_eq!(5, markdown.lines().count());
}

#[test]
fn plain_width_counts_bytes_and_centres_by_characters() {
    // "é" takes two bytes: the column is 4 wide but the name only 1 character long.
    let t = generate_analysis_table("\"é\" : \"+\" ;").unwrap();
    let expected = "+----+---+\n\
                    +    + + +\n\
                    +----+---+\n\
                    | é  | + |\n\
                    +----+---+\n";
    assert_eq!(expected, t.display_plain());
}

#[test]
fn markdown_escaping_is_the_chain_of_replacements() {
    let name = "a|b\\(c)[d]<e>";
    let t = generate_analysis_table("\"a|b\\(c)[d]<e>\" : \"+\" ;").unwrap();
    let escaped = name
        .replace("\\", "\\\\")
        .replace("|", "\\|")
        .replace("(", "\\(")
        .replace(")", "\\)")
        .replace("[", "\\[")
        .replace("]", "\\]")
        .replace("<", "\\<")
        .replace(">", "\\>");
    assert_eq!("a\\|b\\\\\\(c\\)\\[d\\]\\<e\\>", escaped);
    assert_eq!(format!("| |+|\n|-|-|\n|{}|+|\n", escaped), t.display_markdown());
}
