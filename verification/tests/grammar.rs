use kompilattheur::grammar::{Grammar, Lexem};
use kompilattheur::token::Token;

fn names(v: &[&str]) -> Vec<String> {
    v.iter().map(|s| String::from(*s)).collect()
}

#[test]
fn get_lexem_twice_gives_the_same_symbol() {
    let mut g = Grammar::new();
    let first = g.get_lexem("expr");
    let second = g.get_lexem("expr");
    assert_eq!(first.lexem, second.lexem);
    assert_eq!(Lexem::NonTerminal(0), first.lexem);
    assert_eq!(1, g.non_terminal_lexems.len());
    assert_eq!(Lexem::NonTerminal(1), g.get_lexem("term").lexem);
}

#[test]
fn get_lexem_recognises_token_spellings() {
    let mut g = Grammar::new();
    assert_eq!(Lexem::Terminal(Token::Div), g.get_lexem("//").lexem);
    assert_eq!(Lexem::Terminal(Token::Identifier), g.get_lexem("<ident>").lexem);
    assert_eq!(Lexem::Terminal(Token::NoneLiteral), g.get_lexem("None").lexem);
    assert_eq!(0, g.non_terminal_lexems.len());
}

/// E -> T E' ; E' -> + T E' | ε ; T -> ( E ) | <integer>
fn expression_grammar() -> Grammar {
    let mut g = Grammar::new();
    g.create_rule("E", names(&["T", "E'"]));
    g.create_rule("E'", names(&["+", "T", "E'"]));
    g.create_rule("E'", names(&[]));
    g.create_rule("T", names(&["(", "E", ")"]));
    g.create_rule("T", names(&["<integer>"]));
    g
}

#[test]
fn nullable_first_and_follow_of_the_expression_grammar() {
    let mut g = expression_grammar();
    let producers: Vec<Lexem> = g.empty_word_producers().iter().map(|p| p.lexem).collect();
    assert_eq!(vec![Lexem::NonTerminal(2)], producers);

    let firsts: Vec<Vec<Token>> = g.firsts().iter().map(|s| s.to_vec()).collect();
    assert_eq!(vec![Token::OpenParenthesis, Token::Integer], firsts[0]);
    assert_eq!(vec![Token::OpenParenthesis, Token::Integer], firsts[1]);
    assert_eq!(vec![Token::Add], firsts[2]);

    let follows: Vec<Vec<Token>> = g.follows().iter().map(|s| s.to_vec()).collect();
    assert_eq!(vec![Token::EOF, Token::CloseParenthesis], follows[0]);
    assert_eq!(vec![Token::EOF, Token::Add, Token::CloseParenthesis], follows[1]);
    assert_eq!(vec![Token::EOF, Token::CloseParenthesis], follows[2]);
}

#[test]
fn word_firsts_and_emptiness() {
    let mut g = expression_grammar();
    g.follows();
    let e_prime = g.non_terminal_lexems[2].clone();
    let t = g.non_terminal_lexems[1].clone();
    let word = vec![e_prime.clone(), t.clone()];
    assert_eq!(vec![Token::Add, Token::OpenParenthesis, Token::Integer], g.get_word_firsts_unmut(&word).to_vec());
    assert!(!g.word_produces_empty_word_unmut(&word));
    assert!(g.word_produces_empty_word_unmut(&[e_prime.clone()]));
    assert!(g.word_produces_empty_word_unmut(&[]));
    assert!(g.get_word_firsts_unmut(&[]).to_vec().is_empty());
    assert!(!g.produces_empty_word_unmut(&Lexem::Terminal(Token::Add)));
}

#[test]
fn first_of_a_non_terminal_is_the_union_over_its_rules() {
    let mut g = expression_grammar();
    g.follows();
    let t_first = g.get_firsts_unmut(&Lexem::NonTerminal(1)).to_vec();
    let mut union: Vec<Token> = Vec::new();
    for r in &g.rules {
        if r.start.lexem == Lexem::NonTerminal(1) {
            for tok in g.get_word_firsts_unmut(&r.production).to_vec() {
                if !union.contains(&tok) {
                    union.push(tok);
                }
            }
        }
    }
    union.sort_by_key(|t| t.id());
    assert_eq!(t_first, union);
}

#[test]
fn compute_functions_give_the_same_sets() {
    let mut g = expression_grammar();
    g.compute_empty_word_producers();
    g.compute_firsts();
    g.compute_follows();
    let follows: Vec<Vec<Token>> = g.follows().iter().map(|s| s.to_vec()).collect();
    assert_eq!(vec![Token::EOF, Token::CloseParenthesis], follows[0]);
}

#[test]
fn rules_are_shown_with_their_number() {
    let g = kompilattheur::generator::parse_grammar("\"A\" : \"+\" \"B\" ; \"B\" : ;").unwrap();
    assert_eq!("(0) A -> +B", g.rules[0].to_text());
    assert_eq!("(1) B -> ", g.rules[1].to_text());
    let r = kompilattheur::grammar::Rule {
        id: 1234,
        start: kompilattheur::grammar::ParsedLexem { name: String::from("S"), lexem: Lexem::NonTerminal(0) },
        production: vec![],
    };
    assert_eq!("(1234) S -> ", r.to_text());
}

#[test]
fn getters_read_the_fields() {
    let g = expression_grammar();
    assert_eq!(g.rules.len(), g.rule_count());
    assert_eq!(g.non_terminal_lexems.len(), g.non_terminal_count());
    for i in 0..g.rule_count() {
        assert_eq!(g.rules[i].to_text(), g.rule_at(i).to_text());
    }
    for i in 0..g.non_terminal_count() {
        assert_eq!(g.non_terminal_lexems[i].name, g.non_terminal_at(i).name);
        assert_eq!(Lexem::NonTerminal(i), g.non_terminal_at(i).lexem);
    }
}

#[test]
fn firsts_twice_after_a_lookup() {
    let mut g = expression_grammar();
    let f1: Vec<Vec<Token>> = g.firsts().iter().map(|s| s.to_vec()).collect();
    g.get_lexem("E");
    g.get_lexem("+");
    let f2: Vec<Vec<Token>> = g.firsts().iter().map(|s| s.to_vec()).collect();
    assert_eq!(f1, f2);
    assert_eq!(g.non_terminal_lexems.len(), f2.len());
}
