use vstd::prelude::*;

verus! {

/// Number of distinct kinds of terminal tokens that a grammar can name.
pub const NUM_TOKENS: usize = 38;

/// A kind of terminal token of the language, as named in grammar files.
///
/// Tokens that carry a payload in the lexer (integers, strings, identifiers)
/// are represented here by their kind alone, which is what analysis tables key on.
#[derive(PartialEq, Eq, Structural, Clone, Copy, Debug)]
pub enum Token {
    EOF,
    Newline,
    Begin,
    End,
    Add,
    Sub,
    Mult,
    Div,
    Mod,
    Assign,
    Equal,
    NotEqual,
    Greater,
    GreaterEq,
    Less,
    LessEq,
    Sep,
    Comma,
    OpenParenthesis,
    CloseParenthesis,
    OpenBracket,
    CloseBracket,
    Integer,
    StringLiteral,
    Identifier,
    True,
    False,
    NoneLiteral,
    Or,
    And,
    Not,
    If,
    Else,
    For,
    In,
    Def,
    Return,
    Print,
}

impl Token {
    /// Position of this token kind in the fixed enumeration of all token kinds.
    pub open spec fn index(self) -> nat {
        match self {
            Token::EOF => 0,
            Token::Newline => 1,
            Token::Begin => 2,
            Token::End => 3,
            Token::Add => 4,
            Token::Sub => 5,
            Token::Mult => 6,
            Token::Div => 7,
            Token::Mod => 8,
            Token::Assign => 9,
            Token::Equal => 10,
            Token::NotEqual => 11,
            Token::Greater => 12,
            Token::GreaterEq => 13,
            Token::Less => 14,
            Token::LessEq => 15,
            Token::Sep => 16,
            Token::Comma => 17,
            Token::OpenParenthesis => 18,
            Token::CloseParenthesis => 19,
            Token::OpenBracket => 20,
            Token::CloseBracket => 21,
            Token::Integer => 22,
            Token::StringLiteral => 23,
            Token::Identifier => 24,
            Token::True => 25,
            Token::False => 26,
            Token::NoneLiteral => 27,
            Token::Or => 28,
            Token::And => 29,
            Token::Not => 30,
            Token::If => 31,
            Token::Else => 32,
            Token::For => 33,
            Token::In => 34,
            Token::Def => 35,
            Token::Return => 36,
            Token::Print => 37,
        }
    }

    /// The spelling of this token kind in grammar files.
    pub open spec fn grammar_name(self) -> Seq<char> {
        match self {
            Token::EOF => "EOF"@,
            Token::Newline => "NEWLINE"@,
            Token::Begin => "BEGIN"@,
            Token::End => "END"@,
            Token::Add => "+"@,
            Token::Sub => "-"@,
            Token::Mult => "*"@,
            Token::Div => "//"@,
            Token::Mod => "%"@,
            Token::Assign => "="@,
            Token::Equal => "=="@,
            Token::NotEqual => "!="@,
            Token::Greater => ">"@,
            Token::GreaterEq => ">="@,
            Token::Less => "<"@,
            Token::LessEq => "<="@,
            Token::Sep => ":"@,
            Token::Comma => ","@,
            Token::OpenParenthesis => "("@,
            Token::CloseParenthesis => ")"@,
            Token::OpenBracket => "["@,
            Token::CloseBracket => "]"@,
            Token::Integer => "<integer>"@,
            Token::StringLiteral => "<string>"@,
            Token::Identifier => "<ident>"@,
            Token::True => "True"@,
            Token::False => "False"@,
            Token::NoneLiteral => "None"@,
            Token::Or => "or"@,
            Token::And => "and"@,
            Token::Not => "not"@,
            Token::If => "if"@,
            Token::Else => "else"@,
            Token::For => "for"@,
            Token::In => "in"@,
            Token::Def => "def"@,
            Token::Return => "return"@,
            Token::Print => "print"@,
        }
    }

    /// Position of this token kind in the fixed enumeration of all token kinds.
    pub fn id(&self) -> (r: usize)
        ensures
            r == self.index(),
            r < NUM_TOKENS,
    {
        match self {
            Token::EOF => 0,
            Token::Newline => 1,
            Token::Begin => 2,
            Token::End => 3,
            Token::Add => 4,
            Token::Sub => 5,
            Token::Mult => 6,
            Token::Div => 7,
            Token::Mod => 8,
            Token::Assign => 9,
            Token::Equal => 10,
            Token::NotEqual => 11,
            Token::Greater => 12,
            Token::GreaterEq => 13,
            Token::Less => 14,
            Token::LessEq => 15,
            Token::Sep => 16,
            Token::Comma => 17,
            Token::OpenParenthesis => 18,
            Token::CloseParenthesis => 19,
            Token::OpenBracket => 20,
            Token::CloseBracket => 21,
            Token::Integer => 22,
            Token::StringLiteral => 23,
            Token::Identifier => 24,
            Token::True => 25,
            Token::False => 26,
            Token::NoneLiteral => 27,
            Token::Or => 28,
            Token::And => 29,
            Token::Not => 30,
            Token::If => 31,
            Token::Else => 32,
            Token::For => 33,
            Token::In => 34,
            Token::Def => 35,
            Token::Return => 36,
            Token::Print => 37,
        }
    }

    /// The token kind at position `i` of the enumeration.
    pub fn from_id(i: usize) -> (t: Token)
        requires
            i < NUM_TOKENS,
        ensures
            t == token_at(i as nat),
            t.index() == i,
    {
        if i == 0 {
            Token::EOF
        } else if i == 1 {
            Token::Newline
        } else if i == 2 {
            Token::Begin
        } else if i == 3 {
            Token::End
        } else if i == 4 {
            Token::Add
        } else if i == 5 {
            Token::Sub
        } else if i == 6 {
            Token::Mult
        } else if i == 7 {
            Token::Div
        } else if i == 8 {
            Token::Mod
        } else if i == 9 {
            Token::Assign
        } else if i == 10 {
            Token::Equal
        } else if i == 11 {
            Token::NotEqual
        } else if i == 12 {
            Token::Greater
        } else if i == 13 {
            Token::GreaterEq
        } else if i == 14 {
            Token::Less
        } else if i == 15 {
            Token::LessEq
        } else if i == 16 {
            Token::Sep
        } else if i == 17 {
            Token::Comma
        } else if i == 18 {
            Token::OpenParenthesis
        } else if i == 19 {
            Token::CloseParenthesis
        } else if i == 20 {
            Token::OpenBracket
        } else if i == 21 {
            Token::CloseBracket
        } else if i == 22 {
            Token::Integer
        } else if i == 23 {
            Token::StringLiteral
        } else if i == 24 {
            Token::Identifier
        } else if i == 25 {
            Token::True
        } else if i == 26 {
            Token::False
        } else if i == 27 {
            Token::NoneLiteral
        } else if i == 28 {
            Token::Or
        } else if i == 29 {
            Token::And
        } else if i == 30 {
            Token::Not
        } else if i == 31 {
            Token::If
        } else if i == 32 {
            Token::Else
        } else if i == 33 {
            Token::For
        } else if i == 34 {
            Token::In
        } else if i == 35 {
            Token::Def
        } else if i == 36 {
            Token::Return
        } else {
            Token::Print
        }
    }

    /// The spelling of this token kind in grammar files; it is also how the
    /// token kind is shown in analysis tables.
    pub fn repr(&self) -> (s: &'static str)
        ensures
            s@ == self.grammar_name(),
    {
        match self {
            Token::EOF => "EOF",
            Token::Newline => "NEWLINE",
            Token::Begin => "BEGIN",
            Token::End => "END",
            Token::Add => "+",
            Token::Sub => "-",
            Token::Mult => "*",
            Token::Div => "//",
            Token::Mod => "%",
            Token::Assign => "=",
            Token::Equal => "==",
            Token::NotEqual => "!=",
            Token::Greater => ">",
            Token::GreaterEq => ">=",
            Token::Less => "<",
            Token::LessEq => "<=",
            Token::Sep => ":",
            Token::Comma => ",",
            Token::OpenParenthesis => "(",
            Token::CloseParenthesis => ")",
            Token::OpenBracket => "[",
            Token::CloseBracket => "]",
            Token::Integer => "<integer>",
            Token::StringLiteral => "<string>",
            Token::Identifier => "<ident>",
            Token::True => "True",
            Token::False => "False",
            Token::NoneLiteral => "None",
            Token::Or => "or",
            Token::And => "and",
            Token::Not => "not",
            Token::If => "if",
            Token::Else => "else",
            Token::For => "for",
            Token::In => "in",
            Token::Def => "def",
            Token::Return => "return",
            Token::Print => "print",
        }
    }
}

/// The token kind at position `i` of the enumeration (the last one past the end).
pub open spec fn token_at(i: nat) -> Token {
    if i == 0 {
        Token::EOF
    } else if i == 1 {
        Token::Newline
    } else if i == 2 {
        Token::Begin
    } else if i == 3 {
        Token::End
    } else if i == 4 {
        Token::Add
    } else if i == 5 {
        Token::Sub
    } else if i == 6 {
        Token::Mult
    } else if i == 7 {
        Token::Div
    } else if i == 8 {
        Token::Mod
    } else if i == 9 {
        Token::Assign
    } else if i == 10 {
        Token::Equal
    } else if i == 11 {
        Token::NotEqual
    } else if i == 12 {
        Token::Greater
    } else if i == 13 {
        Token::GreaterEq
    } else if i == 14 {
        Token::Less
    } else if i == 15 {
        Token::LessEq
    } else if i == 16 {
        Token::Sep
    } else if i == 17 {
        Token::Comma
    } else if i == 18 {
        Token::OpenParenthesis
    } else if i == 19 {
        Token::CloseParenthesis
    } else if i == 20 {
        Token::OpenBracket
    } else if i == 21 {
        Token::CloseBracket
    } else if i == 22 {
        Token::Integer
    } else if i == 23 {
        Token::StringLiteral
    } else if i == 24 {
        Token::Identifier
    } else if i == 25 {
        Token::True
    } else if i == 26 {
        Token::False
    } else if i == 27 {
        Token::NoneLiteral
    } else if i == 28 {
        Token::Or
    } else if i == 29 {
        Token::And
    } else if i == 30 {
        Token::Not
    } else if i == 31 {
        Token::If
    } else if i == 32 {
        Token::Else
    } else if i == 33 {
        Token::For
    } else if i == 34 {
        Token::In
    } else if i == 35 {
        Token::Def
    } else if i == 36 {
        Token::Return
    } else {
        Token::Print
    }
}

/// Every token kind, in enumeration order.
pub open spec fn all_tokens() -> Seq<Token> {
    Seq::new(NUM_TOKENS as nat, |i: int| token_at(i as nat))
}

/// The enumeration is a bijection between token kinds and `0..NUM_TOKENS`.
pub proof fn lemma_token_index_bijection()
    ensures
        forall|t: Token| #[trigger] t.index() < NUM_TOKENS,
        forall|t: Token| token_at(#[trigger] t.index()) == t,
        forall|i: nat| i < NUM_TOKENS ==> (#[trigger] token_at(i)).index() == i,
{
}


/// Number of `true` entries of `s`.
pub open spec fn count_true(s: Seq<bool>) -> nat
    decreases s.len(),
{
    if s.len() == 0 {
        0
    } else {
        count_true(s.drop_last()) + (if s.last() { 1nat } else { 0nat })
    }
}

pub proof fn lemma_count_true_update(s: Seq<bool>, i: int)
    requires
        0 <= i < s.len(),
        !s[i],
    ensures
        count_true(s.update(i, true)) == count_true(s) + 1,
    decreases s.len(),
{
    let u = s.update(i, true);
    if i == s.len() - 1 {
        assert(u.drop_last() =~= s.drop_last());
    } else {
        assert(u.drop_last() =~= s.drop_last().update(i, true));
        lemma_count_true_update(s.drop_last(), i);
    }
}

pub proof fn lemma_count_true_bound(s: Seq<bool>)
    ensures
        count_true(s) <= s.len(),
    decreases s.len(),
{
    if s.len() > 0 {
        lemma_count_true_bound(s.drop_last());
    }
}

/// The members of `s`, in enumeration order.
pub open spec fn sorted_tokens(s: Set<Token>) -> Seq<Token> {
    all_tokens().filter(|t: Token| s.contains(t))
}

/// A set of token kinds.
pub struct TokenSet {
    members: Vec<bool>,
}

impl View for TokenSet {
    type V = Set<Token>;

    closed spec fn view(&self) -> Set<Token> {
        Set::new(|t: Token| self.members@[t.index() as int])
    }
}

impl TokenSet {
    #[verifier::type_invariant]
    spec fn inv(self) -> bool {
        self.members@.len() == NUM_TOKENS
    }

    /// Number of members, a measure that only grows when members are added.
    pub closed spec fn size(self) -> nat {
        count_true(self.members@)
    }

    proof fn lemma_size_is_sorted_len(self)
        requires
            self.members@.len() == NUM_TOKENS,
        ensures
            self.size() == sorted_tokens(self@).len(),
            self.size() <= NUM_TOKENS,
    {
        let p = |t: Token| self@.contains(t);
        let m = self.members@;
        assert forall|k: int| 0 <= k <= NUM_TOKENS implies count_true(#[trigger] m.take(k))
            == all_tokens().take(k).filter(p).len() by {
            self.lemma_prefix_count(k);
        }
        assert(m.take(NUM_TOKENS as int) =~= m);
        assert(all_tokens().take(NUM_TOKENS as int) =~= all_tokens());
        lemma_count_true_bound(m);
    }

    proof fn lemma_prefix_count(self, k: int)
        requires
            self.members@.len() == NUM_TOKENS,
            0 <= k <= NUM_TOKENS,
        ensures
            count_true(self.members@.take(k)) == all_tokens().take(k).filter(
                |t: Token| self@.contains(t),
            ).len(),
        decreases k,
    {
        let p = |t: Token| self@.contains(t);
        let m = self.members@;
        if k == 0 {
            assert(all_tokens().take(0) =~= Seq::<Token>::empty());
            assert(Seq::<Token>::empty().filter(p) =~= Seq::<Token>::empty()) by {
                reveal(Seq::filter);
            }
        } else {
            self.lemma_prefix_count(k - 1);
            assert(m.take(k).drop_last() =~= m.take(k - 1));
            assert(all_tokens().take(k) =~= all_tokens().take(k - 1).push(all_tokens()[k - 1]));
            all_tokens().take(k - 1).lemma_filter_len_push(p, all_tokens()[k - 1]);
            lemma_token_index_bijection();
        }
    }

    /// The empty set.
    pub fn new() -> (s: TokenSet)
        ensures
            s@ == Set::<Token>::empty(),
            s.size() == 0,
            s.size() <= NUM_TOKENS,
    {
        let mut members: Vec<bool> = Vec::new();
        let mut i: usize = 0;
        while i < NUM_TOKENS
            invariant
                i <= NUM_TOKENS,
                members@.len() == i,
                forall|j: int| 0 <= j < i ==> !members@[j],
                count_true(members@) == 0,
            decreases NUM_TOKENS - i,
        {
            let ghost before = members@;
            members.push(false);
            assert(members@.drop_last() =~= before);
            i = i + 1;
        }
        let s = TokenSet { members };
        assert(s@ =~= Set::<Token>::empty());
        s
    }

    /// Whether `t` is a member.
    pub fn contains(&self, t: &Token) -> (b: bool)
        ensures
            b == self@.contains(*t),
    {
        proof {
            use_type_invariant(self);
        }
        self.members[t.id()]
    }

    /// Adds `t`; returns whether it was absent before.
    pub fn insert(&mut self, t: Token) -> (added: bool)
        ensures
            final(self)@ == old(self)@.insert(t),
            added == !old(self)@.contains(t),
            final(self).size() == old(self).size() + (if added { 1nat } else { 0nat }),
            final(self).size() <= NUM_TOKENS,
    {
        proof {
            use_type_invariant(&*self);
        }
        let i = t.id();
        if self.members[i] {
            proof {
                assert(self@ =~= old(self)@.insert(t));
                lemma_count_true_bound(self.members@);
            }
            false
        } else {
            proof {
                lemma_count_true_update(self.members@, i as int);
            }
            proof {
                lemma_count_true_bound(self.members@);
            }
            let mut m = self.members.clone();
            assert(m@ =~= self.members@);
            m.set(i, true);
            self.members = m;
            proof {
                lemma_count_true_bound(self.members@);
                lemma_token_index_bijection();
                assert(self@ =~= old(self)@.insert(t));
            }
            true
        }
    }

    /// Adds every member of `other`; returns whether a member was added.
    pub fn extend(&mut self, other: &TokenSet) -> (changed: bool)
        ensures
            final(self)@ == old(self)@.union(other@),
            changed == !other@.subset_of(old(self)@),
            final(self).size() >= old(self).size(),
            changed ==> final(self).size() > old(self).size(),
            final(self).size() <= NUM_TOKENS,
    {
        proof {
            use_type_invariant(&*self);
            lemma_count_true_bound(self.members@);
        }
        let mut changed = false;
        let mut i: usize = 0;
        while i < NUM_TOKENS
            invariant
                i <= NUM_TOKENS,
                self@ == old(self)@.union(
                    Set::new(|t: Token| other@.contains(t) && t.index() < i),
                ),
                changed == exists|t: Token| #[trigger] other@.contains(t) && t.index() < i && !old(self)@.contains(t),
                self.size() >= old(self).size(),
                changed ==> self.size() > old(self).size(),
                self.size() <= NUM_TOKENS,
            decreases NUM_TOKENS - i,
        {
            let t = Token::from_id(i);
            let ghost before = self@;
            if other.contains(&t) {
                let added = self.insert(t);
                if added {
                    changed = true;
                }
            }
            proof {
                lemma_token_index_bijection();
                assert(self@ =~= old(self)@.union(
                    Set::new(|u: Token| other@.contains(u) && u.index() < i + 1),
                ));
            }
            i = i + 1;
        }
        proof {
            lemma_token_index_bijection();
            assert(self@ =~= old(self)@.union(other@));
        }
        changed
    }

    /// A copy of this set.
    pub fn duplicate(&self) -> (r: TokenSet)
        ensures
            r@ == self@,
            r.size() == self.size(),
            r.size() <= NUM_TOKENS,
    {
        proof {
            use_type_invariant(self);
            lemma_count_true_bound(self.members@);
        }
        let m = self.members.clone();
        assert(m@ =~= self.members@);
        TokenSet { members: m }
    }

    /// Number of members.
    pub fn len(&self) -> (n: usize)
        ensures
            n == sorted_tokens(self@).len(),
            n == self.size(),
    {
        proof {
            use_type_invariant(self);
            self.lemma_size_is_sorted_len();
        }
        let mut n: usize = 0;
        let mut i: usize = 0;
        while i < NUM_TOKENS
            invariant
                i <= NUM_TOKENS,
                self.members@.len() == NUM_TOKENS,
                n == count_true(self.members@.take(i as int)),
                n <= i,
            decreases NUM_TOKENS - i,
        {
            assert(self.members@.take(i + 1).drop_last() =~= self.members@.take(i as int));
            if self.members[i] {
                n = n + 1;
            }
            i = i + 1;
        }
        assert(self.members@.take(NUM_TOKENS as int) =~= self.members@);
        n
    }

    /// The members, in enumeration order.
    pub fn to_vec(&self) -> (v: Vec<Token>)
        ensures
            v@ == sorted_tokens(self@),
    {
        let ghost p = |t: Token| self@.contains(t);
        let mut v: Vec<Token> = Vec::new();
        let mut i: usize = 0;
        while i < NUM_TOKENS
            invariant
                i <= NUM_TOKENS,
                v@ == all_tokens().take(i as int).filter(p),
                p == (|t: Token| self@.contains(t)),
            decreases NUM_TOKENS - i,
        {
            let t = Token::from_id(i);
            proof {
                assert(all_tokens().take(i + 1) =~= all_tokens().take(i as int).push(t));
                all_tokens().take(i as int).lemma_filter_push(t, p);
            }
            if self.contains(&t) {
                v.push(t);
            }
            i = i + 1;
        }
        assert(all_tokens().take(NUM_TOKENS as int) =~= all_tokens());
        v
    }
}

/// The reserved spellings of grammar files, one for each token kind, listed in the
/// enumeration order of the token kinds.
pub open spec fn reserved_spellings() -> Seq<Seq<char>> {
    seq![
        "EOF"@,
        "NEWLINE"@,
        "BEGIN"@,
        "END"@,
        "+"@,
        "-"@,
        "*"@,
        "//"@,
        "%"@,
        "="@,
        "=="@,
        "!="@,
        ">"@,
        ">="@,
        "<"@,
        "<="@,
        ":"@,
        ","@,
        "("@,
        ")"@,
        "["@,
        "]"@,
        "<integer>"@,
        "<string>"@,
        "<ident>"@,
        "True"@,
        "False"@,
        "None"@,
        "or"@,
        "and"@,
        "not"@,
        "if"@,
        "else"@,
        "for"@,
        "in"@,
        "def"@,
        "return"@,
        "print"@,
    ]
}

/// The length and the first two characters of a spelling (a space standing for a
/// missing one): enough to tell the reserved spellings apart.
pub open spec fn spelling_key(s: Seq<char>) -> (nat, char, char) {
    (s.len(), if 0 < s.len() { s[0] } else { ' ' }, if 1 < s.len() { s[1] } else { ' ' })
}

impl Token {
    /// The key of the spelling of this token kind.
    pub open spec fn key(self) -> (nat, char, char) {
        match self {
            Token::EOF => (3, 'E', 'O'),
            Token::Newline => (7, 'N', 'E'),
            Token::Begin => (5, 'B', 'E'),
            Token::End => (3, 'E', 'N'),
            Token::Add => (1, '+', ' '),
            Token::Sub => (1, '-', ' '),
            Token::Mult => (1, '*', ' '),
            Token::Div => (2, '/', '/'),
            Token::Mod => (1, '%', ' '),
            Token::Assign => (1, '=', ' '),
            Token::Equal => (2, '=', '='),
            Token::NotEqual => (2, '!', '='),
            Token::Greater => (1, '>', ' '),
            Token::GreaterEq => (2, '>', '='),
            Token::Less => (1, '<', ' '),
            Token::LessEq => (2, '<', '='),
            Token::Sep => (1, ':', ' '),
            Token::Comma => (1, ',', ' '),
            Token::OpenParenthesis => (1, '(', ' '),
            Token::CloseParenthesis => (1, ')', ' '),
            Token::OpenBracket => (1, '[', ' '),
            Token::CloseBracket => (1, ']', ' '),
            Token::Integer => (9, '<', 'i'),
            Token::StringLiteral => (8, '<', 's'),
            Token::Identifier => (7, '<', 'i'),
            Token::True => (4, 'T', 'r'),
            Token::False => (5, 'F', 'a'),
            Token::NoneLiteral => (4, 'N', 'o'),
            Token::Or => (2, 'o', 'r'),
            Token::And => (3, 'a', 'n'),
            Token::Not => (3, 'n', 'o'),
            Token::If => (2, 'i', 'f'),
            Token::Else => (4, 'e', 'l'),
            Token::For => (3, 'f', 'o'),
            Token::In => (2, 'i', 'n'),
            Token::Def => (3, 'd', 'e'),
            Token::Return => (6, 'r', 'e'),
            Token::Print => (5, 'p', 'r'),
        }
    }

    proof fn lemma_key(self)
        ensures
            spelling_key(self.grammar_name()) == self.key(),
    {
        match self {
            Token::EOF => {
                reveal_strlit("EOF");
            },
            Token::Newline => {
                reveal_strlit("NEWLINE");
            },
            Token::Begin => {
                reveal_strlit("BEGIN");
            },
            Token::End => {
                reveal_strlit("END");
            },
            Token::Add => {
                reveal_strlit("+");
            },
            Token::Sub => {
                reveal_strlit("-");
            },
            Token::Mult => {
                reveal_strlit("*");
            },
            Token::Div => {
                reveal_strlit("//");
            },
            Token::Mod => {
                reveal_strlit("%");
            },
            Token::Assign => {
                reveal_strlit("=");
            },
            Token::Equal => {
                reveal_strlit("==");
            },
            Token::NotEqual => {
                reveal_strlit("!=");
            },
            Token::Greater => {
                reveal_strlit(">");
            },
            Token::GreaterEq => {
                reveal_strlit(">=");
            },
            Token::Less => {
                reveal_strlit("<");
            },
            Token::LessEq => {
                reveal_strlit("<=");
            },
            Token::Sep => {
                reveal_strlit(":");
            },
            Token::Comma => {
                reveal_strlit(",");
            },
            Token::OpenParenthesis => {
                reveal_strlit("(");
            },
            Token::CloseParenthesis => {
                reveal_strlit(")");
            },
            Token::OpenBracket => {
                reveal_strlit("[");
            },
            Token::CloseBracket => {
                reveal_strlit("]");
            },
            Token::Integer => {
                reveal_strlit("<integer>");
            },
            Token::StringLiteral => {
                reveal_strlit("<string>");
            },
            Token::Identifier => {
                reveal_strlit("<ident>");
            },
            Token::True => {
                reveal_strlit("True");
            },
            Token::False => {
                reveal_strlit("False");
            },
            Token::NoneLiteral => {
                reveal_strlit("None");
            },
            Token::Or => {
                reveal_strlit("or");
            },
            Token::And => {
                reveal_strlit("and");
            },
            Token::Not => {
                reveal_strlit("not");
            },
            Token::If => {
                reveal_strlit("if");
            },
            Token::Else => {
                reveal_strlit("else");
            },
            Token::For => {
                reveal_strlit("for");
            },
            Token::In => {
                reveal_strlit("in");
            },
            Token::Def => {
                reveal_strlit("def");
            },
            Token::Return => {
                reveal_strlit("return");
            },
            Token::Print => {
                reveal_strlit("print");
            },
        }
    }
}

/// Each token kind is spelled as the table of reserved spellings says.
pub proof fn lemma_reserved_spelling(t: Token)
    ensures
        t.grammar_name() == reserved_spellings()[t.index() as int],
        reserved_spellings().len() == NUM_TOKENS,
{
}

/// Two different token kinds have different spellings.
pub proof fn lemma_spellings_distinct(t1: Token, t2: Token)
    requires
        t1 != t2,
    ensures
        t1.grammar_name() != t2.grammar_name(),
{
    t1.lemma_key();
    t2.lemma_key();
}

} // verus!
