use kompilattheur::generator::{generate_analysis_table, parse_all_lexem_names, parse_grammar, parse_lexem_name, GrammarError};
use kompilattheur::grammar::{Grammar, Lexem, ParsedLexem};
use kompilattheur::token::Token;

/// The grammar `A -> + | B <integer>`, `B -> A for | ε`.
const TEST_GRAMMAR: &str = "# A test grammar\n\"A\" : \"+\" | \"B\" \"<integer>\" ;\n\"B\" : \"A\" \"for\" | ;\n";

fn lexems(word: &[ParsedLexem]) -> Vec<Lexem> {
    word.iter().map(|p| p.lexem).collect()
}

#[test]
fn test_parse_lexem_name() {
    let s = "garbage \"thename\" garbage";
    assert_eq!("thename", parse_lexem_name(s));
}

#[test]
fn test_parse_lexem_name_multiple_quotes() {
    let s = "garbage \"thename\" not \" the \"\"name";
    assert_eq!("thename", parse_lexem_name(s));
}

#[test]
fn test_parse_all_lexem_names() {
    // []
    let s = "the name is a lie";
    let lexems = parse_all_lexem_names(s);
    assert_eq!(0, lexems.len());

    // ["a single name"]
    let s = "\"a single name\"";
    let lexems = parse_all_lexem_names(s);
    assert_eq!(1, lexems.len());
    assert_eq!("a single name", lexems[0]);

    // ["lots", "of", "names"]
    let s = "nothing \"lots\" garbage \"of\"\"names\"";
    let lexems = parse_all_lexem_names(s);
    assert_eq!(3, lexems.len());
    assert_eq!(vec![String::from("lots"), String::from("of"), String::from("names")], lexems);
}

#[test]
fn test_parse_grammar() {
    /*
    Grammar :

    A -> + | B <integer>
    B -> A <for> | ^

    Empty word producers = {B}

    P(A) = {+, <integer>}
    P(B) = {+, <integer>}

    S(A) = {EOF, <for>}
    S(B) = {<integer>}
    */
    let mut g: Grammar = parse_grammar(TEST_GRAMMAR).unwrap();

    assert_eq!(4, g.rules.len());

    let a: ParsedLexem = g.non_terminal_lexems[0].clone();
    let b: ParsedLexem = g.non_terminal_lexems[1].clone();
    assert_eq!("A", a.name);
    assert_eq!("B", b.name);

    let add = g.get_lexem("+");
    let int = g.get_lexem("<integer>");
    let for_loop = g.get_lexem("for");

    let rules: Vec<(Lexem, Vec<Lexem>)> = vec![
        // A -> +
        (a.lexem, vec![add.lexem]),
        // A -> B <integer>
        (a.lexem, vec![b.lexem, int.lexem]),
        // B -> A <for>
        (b.lexem, vec![a.lexem, for_loop.lexem]),
        // B -> ^
        (b.lexem, vec![]),
    ];

    // Check rules
    for r in &g.rules {
        assert!(rules.contains(&(r.start.lexem, lexems(&r.production))));
    }
    let shown: Vec<String> = g.rules.iter().map(|r| r.to_text()).collect();
    assert_eq!(
        vec![
            String::from("(0) A -> +"),
            String::from("(1) A -> B<integer>"),
            String::from("(2) B -> Afor"),
            String::from("(3) B -> "),
        ],
        shown
    );

    // Check empty word producers
    let v = g.empty_word_producers();
    assert_eq!(1, v.len());
    assert!(g.produces_empty_word_unmut(&b.lexem));

    // Check firsts
    let a_firsts = g.get_firsts_unmut(&a.lexem);
    assert!(a_firsts.contains(&Token::Add));
    assert!(a_firsts.contains(&Token::Integer));
    assert_eq!(2, a_firsts.len());

    let b_firsts = g.get_firsts_unmut(&b.lexem);
    assert!(b_firsts.contains(&Token::Add));
    assert!(b_firsts.contains(&Token::Integer));
    assert_eq!(2, b_firsts.len());

    // Check follows
    let a_follows = g.get_follows_unmut(&a);
    assert_eq!(2, a_follows.len());
    assert!(a_follows.contains(&Token::EOF));
    assert!(a_follows.contains(&Token::For));

    let b_follows = g.get_follows_unmut(&b);
    assert_eq!(1, b_follows.len());
    assert!(b_follows.contains(&Token::Integer));
}

#[test]
fn parse_grammar_numbers_rules_in_order() {
    let g = parse_grammar(TEST_GRAMMAR).unwrap();
    let ids: Vec<usize> = g.rules.iter().map(|r| r.id).collect();
    assert_eq!(vec![0, 1, 2, 3], ids);
}

#[test]
fn parse_grammar_skips_comment_lines_and_empty_pieces() {
    let g = parse_grammar("# only a comment\n;;\"S\" : \"x\" ;\n# another\n").unwrap();
    assert_eq!(1, g.rules.len());
    assert_eq!(2, g.non_terminal_lexems.len());
    assert_eq!("S", g.non_terminal_lexems[0].name);
    assert_eq!("x", g.non_terminal_lexems[1].name);
}

#[test]
fn parse_grammar_missing_separator() {
    assert_eq!(Some(GrammarError::MissingRuleSeparator(1)), parse_grammar("\"S\" : \"x\" ; \"T\" \"y\" ;").err());
}

#[test]
fn parse_grammar_invalid_lexem_name() {
    assert_eq!(Some(GrammarError::InvalidLexemName(0)), parse_grammar("S : \"x\" ;").err());
}

#[test]
fn parse_grammar_unterminated_quote() {
    assert_eq!(Some(GrammarError::UnterminatedQuote(0)), parse_grammar("\"S\" : \"x\" | \"y ;").err());
}

#[test]
fn parse_grammar_terminal_on_left() {
    assert_eq!(Some(GrammarError::TerminalOnLeft), parse_grammar("\"+\" : \"x\" ;").err());
}

#[test]
fn parse_grammar_without_non_terminal() {
    assert_eq!(Some(GrammarError::NoNonTerminal), parse_grammar("# nothing here\n").err());
}

#[test]
fn generate_analysis_table_reports_the_first_conflict() {
    // A -> + and A -> B <integer> both claim the cell (A, +).
    assert_eq!(Some(GrammarError::NotLL1(0, Token::Add)), generate_analysis_table(TEST_GRAMMAR).err());
}

#[test]
fn generate_analysis_table_passes_parse_errors_on() {
    assert_eq!(Some(GrammarError::InvalidLexemName(0)), generate_analysis_table("S : \"x\" ;").err());
}

#[test]
fn parse_lexem_name_is_the_first_of_all_names() {
    let s = "x \"first\" y \"second\" \"third\" \"fourth\"";
    assert_eq!(parse_all_lexem_names(s)[0], parse_lexem_name(s));
}
