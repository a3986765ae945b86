use vstd::prelude::*;

use crate::derivation::{first_fn, follow, lexems_of, rhs, rule_of, word_first, word_nullable};
use crate::generator::GrammarError;
use crate::grammar::{lexem_in_range, Grammar, Lexem, ParsedLexem, Rule};
use crate::token::{all_tokens, sorted_tokens, token_at, Token, TokenSet, NUM_TOKENS};

verus! {

/// Rule `i` is chosen for non-terminal `a` on token `t` because `t` can begin its right-hand side.
pub open spec fn claims_by_first(rules: Seq<Rule>, i: int, a: nat, t: Token) -> bool {
    &&& rule_of(rules[i], a)
    &&& word_first(rules, first_fn(rules), rhs(rules[i])).contains(t)
}

/// Rule `i` is chosen for non-terminal `a` on token `t` because its right-hand side can
/// vanish and `t` can follow `a`.
pub open spec fn claims_by_follow(rules: Seq<Rule>, i: int, a: nat, t: Token) -> bool {
    &&& rule_of(rules[i], a)
    &&& word_nullable(rules, rhs(rules[i]))
    &&& follow(rules, a).contains(t)
}

/// Rule `i` is chosen for non-terminal `a` on token `t`.
pub open spec fn claims(rules: Seq<Rule>, i: int, a: nat, t: Token) -> bool {
    claims_by_first(rules, i, a, t) || claims_by_follow(rules, i, a, t)
}

/// The cell of non-terminal `a` and token `t` is claimed twice: by two rules, or by
/// one rule for both reasons.
pub open spec fn conflict_at(rules: Seq<Rule>, a: nat, t: Token) -> bool {
    ||| exists|i: int, j: int|
        0 <= i < j < rules.len() && #[trigger] claims(rules, i, a, t) && #[trigger] claims(rules, j, a, t)
    ||| exists|i: int|
        0 <= i < rules.len() && #[trigger] claims_by_first(rules, i, a, t) && claims_by_follow(rules, i, a, t)
}

/// The grammar is LL(1): no cell of its analysis table is claimed twice.
pub open spec fn is_ll1(rules: Seq<Rule>) -> bool {
    forall|a: nat, t: Token| !#[trigger] conflict_at(rules, a, t)
}

/// In the table of an LL(1) grammar, a cell that a rule claims holds that rule's
/// right-hand side, whichever rule `table_cell` picks.
pub proof fn lemma_ll1_cell_unique(rules: Seq<Rule>, a: nat, t: Token, i: int)
    requires
        is_ll1(rules),
        0 <= i < rules.len(),
        claims(rules, i, a, t),
    ensures
        table_cell(rules, a, t) == Some(rhs(rules[i])),
{
    let j = choose|j: int| 0 <= j < rules.len() && #[trigger] claims(rules, j, a, t);
    assert(!conflict_at(rules, a, t));
    if j < i {
        assert(claims(rules, j, a, t) && claims(rules, i, a, t));
    } else if i < j {
        assert(claims(rules, i, a, t) && claims(rules, j, a, t));
    }
}

/// The production in the cell of non-terminal `a` and token `t`: the right-hand side of
/// the rule that claims it, if any.
pub open spec fn table_cell(rules: Seq<Rule>, a: nat, t: Token) -> Option<Seq<Lexem>> {
    if exists|i: int| 0 <= i < rules.len() && #[trigger] claims(rules, i, a, t) {
        Some(rhs(rules[choose|i: int| 0 <= i < rules.len() && #[trigger] claims(rules, i, a, t)]))
    } else {
        None
    }
}


/// Rule `j` claims the cell of `a` and `t` among the claims made so far: the claims of
/// the rules before `lim`, and those of rule `lim` for the tokens of `fset` (through
/// FIRST) and `wset` (through FOLLOW).
pub open spec fn claims_so_far(
    rules: Seq<Rule>,
    lim: int,
    fset: Set<Token>,
    wset: Set<Token>,
    j: int,
    a: nat,
    t: Token,
) -> bool {
    ||| (0 <= j < lim && claims(rules, j, a, t))
    ||| (j == lim && 0 <= lim < rules.len() && rule_of(rules[lim], a) && (
    fset.contains(t) || wset.contains(t)))
}

/// The cells `c` hold exactly the claims made so far, and no two of them collide.
pub open spec fn cells_hold_claims(
    c: spec_fn(nat, Token) -> Option<Seq<Lexem>>,
    rules: Seq<Rule>,
    lim: int,
    fset: Set<Token>,
    wset: Set<Token>,
) -> bool {
    &&& forall|a: nat, t: Token|
        #![trigger c(a, t)]
        c(a, t) is Some <==> exists|j: int| 0 <= j <= lim && #[trigger] claims_so_far(rules, lim, fset, wset, j, a, t)
    &&& forall|a: nat, t: Token, j: int|
        0 <= j <= lim && #[trigger] claims_so_far(rules, lim, fset, wset, j, a, t) ==> c(a, t) == Some(rhs(rules[j]))
    &&& forall|a: nat, t: Token, j1: int, j2: int|
        0 <= j1 < j2 <= lim ==> !(#[trigger] claims_so_far(rules, lim, fset, wset, j1, a, t)
            && #[trigger] claims_so_far(rules, lim, fset, wset, j2, a, t))
    &&& forall|a: nat, t: Token, j: int|
        0 <= j < lim ==> !(#[trigger] claims_by_first(rules, j, a, t) && claims_by_follow(rules, j, a, t))
    &&& forall|t: Token| !(fset.contains(t) && wset.contains(t))
}

proof fn lemma_add_claim(
    c0: spec_fn(nat, Token) -> Option<Seq<Lexem>>,
    c1: spec_fn(nat, Token) -> Option<Seq<Lexem>>,
    rules: Seq<Rule>,
    lim: int,
    fset: Set<Token>,
    wset: Set<Token>,
    fset2: Set<Token>,
    wset2: Set<Token>,
    a: nat,
    t: Token,
)
    requires
        cells_hold_claims(c0, rules, lim, fset, wset),
        0 <= lim < rules.len(),
        rule_of(rules[lim], a),
        c0(a, t) is None,
        c1(a, t) == Some(rhs(rules[lim])),
        forall|b: nat, u: Token| (b != a || u != t) ==> #[trigger] c1(b, u) == c0(b, u),
        (fset2 == fset.insert(t) && wset2 == wset) || (fset2 == fset && wset2 == wset.insert(t)),
    ensures
        cells_hold_claims(c1, rules, lim, fset2, wset2),
{
    assert(!claims_so_far(rules, lim, fset, wset, lim, a, t));
    assert(!fset.contains(t) && !wset.contains(t));
    assert forall|b: nat, u: Token, j: int| 0 <= j <= lim && (b != a || u != t) implies claims_so_far(rules, lim, fset2, wset2, j, b, u)
        == claims_so_far(rules, lim, fset, wset, j, b, u) by {
        if j == lim && rule_of(rules[lim], b) {
            assert(b == a);
        }
    }
    assert forall|j: int| 0 <= j < lim implies !claims_so_far(rules, lim, fset2, wset2, j, a, t) by {
        assert(!claims_so_far(rules, lim, fset, wset, j, a, t));
    }
    assert forall|b: nat, u: Token|
        #![trigger c1(b, u)]
        c1(b, u) is Some <==> exists|j: int| 0 <= j <= lim && #[trigger] claims_so_far(rules, lim, fset2, wset2, j, b, u) by {
        if b == a && u == t {
            assert(claims_so_far(rules, lim, fset2, wset2, lim, b, u));
        } else {
            assert(c0(b, u) == c1(b, u));
            if c0(b, u) is Some {
                let j = choose|j: int| 0 <= j <= lim && #[trigger] claims_so_far(rules, lim, fset, wset, j, b, u);
                assert(claims_so_far(rules, lim, fset2, wset2, j, b, u));
            }
        }
    }
    assert forall|b: nat, u: Token, j: int|
        0 <= j <= lim && #[trigger] claims_so_far(rules, lim, fset2, wset2, j, b, u) implies c1(b, u) == Some(rhs(rules[j])) by {
        if b == a && u == t {
            assert(j == lim);
        } else {
            assert(claims_so_far(rules, lim, fset, wset, j, b, u));
        }
    }
    assert forall|b: nat, u: Token, j1: int, j2: int|
        0 <= j1 < j2 <= lim implies !(#[trigger] claims_so_far(rules, lim, fset2, wset2, j1, b, u)
            && #[trigger] claims_so_far(rules, lim, fset2, wset2, j2, b, u)) by {
        if b == a && u == t {
        } else {
            assert(!(claims_so_far(rules, lim, fset, wset, j1, b, u) && claims_so_far(rules, lim, fset, wset, j2, b, u)));
        }
    }
}

proof fn lemma_conflict(
    c: spec_fn(nat, Token) -> Option<Seq<Lexem>>,
    rules: Seq<Rule>,
    lim: int,
    fset: Set<Token>,
    wset: Set<Token>,
    a: nat,
    t: Token,
    following: bool,
)
    requires
        cells_hold_claims(c, rules, lim, fset, wset),
        0 <= lim < rules.len(),
        rule_of(rules[lim], a),
        c(a, t) is Some,
        claims(rules, lim, a, t),
        !wset.contains(t),
        !following ==> wset == Set::<Token>::empty() && !fset.contains(t),
        following ==> forall|u: Token| fset.contains(u) ==> claims_by_first(rules, lim, a, u),
        following ==> claims_by_follow(rules, lim, a, t),
    ensures
        conflict_at(rules, a, t),
{
    let j = choose|j: int| 0 <= j <= lim && #[trigger] claims_so_far(rules, lim, fset, wset, j, a, t);
    if j < lim {
        assert(claims(rules, j, a, t));
        assert(claims(rules, lim, a, t));
    } else {
        assert(fset.contains(t));
        assert(claims_by_first(rules, lim, a, t));
    }
}

proof fn lemma_next_rule(
    c: spec_fn(nat, Token) -> Option<Seq<Lexem>>,
    rules: Seq<Rule>,
    lim: int,
    fset: Set<Token>,
    wset: Set<Token>,
    a: nat,
)
    requires
        cells_hold_claims(c, rules, lim, fset, wset),
        0 <= lim < rules.len(),
        rule_of(rules[lim], a),
        forall|t: Token| fset.contains(t) <==> word_first(rules, first_fn(rules), rhs(rules[lim])).contains(t),
        forall|t: Token| wset.contains(t) <==> (word_nullable(rules, rhs(rules[lim])) && follow(rules, a).contains(t)),
    ensures
        cells_hold_claims(c, rules, lim + 1, Set::empty(), Set::empty()),
{
    let e = Set::<Token>::empty();
    assert forall|b: nat, u: Token, j: int| 0 <= j <= lim implies claims_so_far(rules, lim + 1, e, e, j, b, u)
        == claims_so_far(rules, lim, fset, wset, j, b, u) by {
        if j == lim && rule_of(rules[lim], b) {
            assert(b == a);
        }
    }
    assert forall|b: nat, u: Token| !#[trigger] claims_so_far(rules, lim + 1, e, e, lim + 1, b, u) by {}
    assert forall|b: nat, u: Token|
        #![trigger c(b, u)]
        c(b, u) is Some <==> exists|j: int| 0 <= j <= lim + 1 && #[trigger] claims_so_far(rules, lim + 1, e, e, j, b, u) by {
        if c(b, u) is Some {
            let j = choose|j: int| 0 <= j <= lim && #[trigger] claims_so_far(rules, lim, fset, wset, j, b, u);
            assert(claims_so_far(rules, lim + 1, e, e, j, b, u));
        }
        if exists|j: int| 0 <= j <= lim + 1 && #[trigger] claims_so_far(rules, lim + 1, e, e, j, b, u) {
            let j = choose|j: int| 0 <= j <= lim + 1 && #[trigger] claims_so_far(rules, lim + 1, e, e, j, b, u);
            assert(claims_so_far(rules, lim, fset, wset, j, b, u));
        }
    }
    assert forall|b: nat, u: Token, j: int|
        0 <= j <= lim + 1 && #[trigger] claims_so_far(rules, lim + 1, e, e, j, b, u) implies c(b, u) == Some(rhs(rules[j])) by {
        assert(claims_so_far(rules, lim, fset, wset, j, b, u));
    }
    assert forall|b: nat, u: Token, j1: int, j2: int|
        0 <= j1 < j2 <= lim + 1 implies !(#[trigger] claims_so_far(rules, lim + 1, e, e, j1, b, u)
            && #[trigger] claims_so_far(rules, lim + 1, e, e, j2, b, u)) by {
        if j2 <= lim {
            assert(!(claims_so_far(rules, lim, fset, wset, j1, b, u) && claims_so_far(rules, lim, fset, wset, j2, b, u)));
        }
    }
    assert forall|b: nat, u: Token, j: int|
        0 <= j < lim + 1 implies !(#[trigger] claims_by_first(rules, j, b, u) && claims_by_follow(rules, j, b, u)) by {
        if j == lim && claims_by_first(rules, j, b, u) && claims_by_follow(rules, j, b, u) {
            assert(b == a);
            assert(fset.contains(u) && wset.contains(u));
        }
    }
}

proof fn lemma_final(c: spec_fn(nat, Token) -> Option<Seq<Lexem>>, rules: Seq<Rule>)
    requires
        cells_hold_claims(c, rules, rules.len() as int, Set::empty(), Set::empty()),
    ensures
        is_ll1(rules),
        forall|a: nat, t: Token| #[trigger] c(a, t) == table_cell(rules, a, t),
{
    let e = Set::<Token>::empty();
    let n = rules.len() as int;
    assert forall|b: nat, u: Token, j: int| 0 <= j < n implies claims_so_far(rules, n, e, e, j, b, u)
        == claims(rules, j, b, u) by {}
    assert forall|a: nat, t: Token| !#[trigger] conflict_at(rules, a, t) by {
        if exists|i: int, j: int| 0 <= i < j < rules.len() && #[trigger] claims(rules, i, a, t) && #[trigger] claims(rules, j, a, t) {
            let (i, j) = choose|i: int, j: int| 0 <= i < j < rules.len() && #[trigger] claims(rules, i, a, t) && #[trigger] claims(rules, j, a, t);
            assert(claims_so_far(rules, n, e, e, i, a, t));
            assert(claims_so_far(rules, n, e, e, j, a, t));
        }
    }
    assert forall|a: nat, t: Token| #[trigger] c(a, t) == table_cell(rules, a, t) by {
        if exists|i: int| 0 <= i < rules.len() && #[trigger] claims(rules, i, a, t) {
            let i = choose|i: int| 0 <= i < rules.len() && #[trigger] claims(rules, i, a, t);
            assert(claims_so_far(rules, n, e, e, i, a, t));
        } else {
            if c(a, t) is Some {
                let j = choose|j: int| 0 <= j <= n && #[trigger] claims_so_far(rules, n, e, e, j, a, t);
                assert(claims(rules, j, a, t));
            }
        }
    }
}

/// The symbols of a word of parsed symbols.
fn lexems_vec(word: &Vec<ParsedLexem>) -> (v: Vec<Lexem>)
    ensures
        v@ == lexems_of(word@),
{
    let mut v: Vec<Lexem> = Vec::new();
    let mut k: usize = 0;
    while k < word.len()
        invariant
            k <= word@.len(),
            v@ == lexems_of(word@).take(k as int),
        decreases word@.len() - k,
    {
        v.push(word[k].lexem);
        assert(lexems_of(word@).take(k + 1) =~= lexems_of(word@).take(k as int).push(word@[k as int].lexem));
        k = k + 1;
    }
    assert(lexems_of(word@).take(k as int) =~= lexems_of(word@));
    v
}

/// `r` is what building the analysis table of `grammar` gives: a table whose cells are
/// those of `table_cell` when the grammar is LL(1), else a cell that is claimed twice.
pub open spec fn table_of_grammar(grammar: Grammar, r: Result<AnalysisTable, GrammarError>) -> bool {
    &&& (r is Ok) <==> is_ll1(grammar.rule_seq())
    &&& r matches Ok(table) ==> {
        &&& table.wf()
        &&& table.non_terminal_names() == grammar.names()
        &&& forall|a: nat, t: Token| #[trigger] table.cell(a, t) == table_cell(grammar.rule_seq(), a, t)
    }
    &&& r matches Err(e) ==> (e matches GrammarError::NotLL1(a, t) && conflict_at(grammar.rule_seq(), a as nat, t))
}

/// Every non-terminal of `w` is numbered below `n`.
pub open spec fn word_in_range(w: Seq<Lexem>, n: nat) -> bool {
    forall|k: int| 0 <= k < w.len() ==> lexem_in_range(#[trigger] w[k], n)
}

/// An LL(1) analysis table: for each non-terminal and token kind, the production to
/// expand the non-terminal with when that token is read.
pub struct AnalysisTable {
    table: Vec<Vec<Option<Vec<Lexem>>>>,
    tokens_discriminants: TokenSet,
    used_non_terminals: Vec<String>,
}

impl AnalysisTable {
    /// The production in the cell of non-terminal `a` and token `t`, if any.
    pub closed spec fn cell(&self, a: nat, t: Token) -> Option<Seq<Lexem>> {
        if a < self.table@.len() {
            match self.table@[a as int]@[t.index() as int] {
                Some(v) => Some(v@),
                None => None,
            }
        } else {
            None
        }
    }

    /// All the cells, as a function of the non-terminal and the token kind.
    pub open spec fn cells(&self) -> spec_fn(nat, Token) -> Option<Seq<Lexem>> {
        |a: nat, t: Token| self.cell(a, t)
    }

    /// Names of the non-terminals of the grammar the table was built for, by number.
    pub closed spec fn non_terminal_names(&self) -> Seq<Seq<char>> {
        self.used_non_terminals@.map_values(|s: String| s@)
    }

    /// Number of non-terminals of the grammar the table was built for.
    pub open spec fn non_terminal_count(&self) -> nat {
        self.non_terminal_names().len()
    }

    /// The token kinds whose cell in the row of `a` is filled.
    pub open spec fn row_tokens(&self, a: nat) -> Set<Token> {
        Set::new(|t: Token| self.cell(a, t) is Some)
    }

    /// The token kinds with a filled cell in some row.
    pub open spec fn used_tokens(&self) -> Set<Token> {
        Set::new(|t: Token| exists|a: nat| #[trigger] self.cell(a, t) is Some)
    }

    /// One row per non-terminal, one cell per token kind; the recorded token kinds are
    /// those of the filled cells.
    pub closed spec fn wf(&self) -> bool {
        &&& self.table@.len() == self.used_non_terminals@.len()
        &&& forall|a: int| 0 <= a < self.table@.len() ==> (#[trigger] self.table@[a])@.len() == NUM_TOKENS
        &&& self.tokens_discriminants@ == self.used_tokens()
        &&& forall|a: nat, t: Token|
            #[trigger] self.cell(a, t) is Some ==> word_in_range(self.cell(a, t)->Some_0, self.non_terminal_count())
    }

    /// The production to expand `non_terminal` with when `token` is read, if any.
    pub fn get(&self, non_terminal: &usize, token: &Token) -> (r: Option<&Vec<Lexem>>)
        requires
            self.wf(),
        ensures
            match r {
                Some(v) => self.cell(*non_terminal as nat, *token) == Some(v@),
                None => self.cell(*non_terminal as nat, *token) is None,
            },
    {
        if *non_terminal >= self.table.len() {
            return None;
        }
        let u = token.id();
        match &self.table[*non_terminal][u] {
            Some(v) => Some(v),
            None => None,
        }
    }

    /// The token kinds for which `non_terminal` has a production, in enumeration order.
    pub fn get_expected_tokens(&self, non_terminal: &usize) -> (v: Vec<Token>)
        requires
            self.wf(),
        ensures
            v@ == sorted_tokens(self.row_tokens(*non_terminal as nat)),
    {
        let ghost a = *non_terminal as nat;
        let ghost p = |t: Token| self.row_tokens(a).contains(t);
        let mut v: Vec<Token> = Vec::new();
        if *non_terminal >= self.table.len() {
            proof {
                assert(all_tokens().filter(p) =~= Seq::<Token>::empty()) by {
                    broadcast use vstd::seq_lib::group_filter_ensures;
                    if all_tokens().filter(p).len() > 0 {
                        let t = all_tokens().filter(p)[0];
                        assert(p(t));
                        assert(self.cell(a, t) is None);
                    }
                }
            }
            return v;
        }
        let mut i: usize = 0;
        while i < NUM_TOKENS
            invariant
                i <= NUM_TOKENS,
                self.wf(),
                a == *non_terminal as nat,
                a < self.table@.len(),
                v@ == all_tokens().take(i as int).filter(p),
                p == (|t: Token| self.row_tokens(a).contains(t)),
            decreases NUM_TOKENS - i,
        {
            let t = Token::from_id(i);
            proof {
                assert(all_tokens().take(i + 1) =~= all_tokens().take(i as int).push(t));
                all_tokens().take(i as int).lemma_filter_push(t, p);
                crate::token::lemma_token_index_bijection();
            }
            if self.table[*non_terminal][i].is_some() {
                v.push(t);
            }
            i = i + 1;
        }
        assert(all_tokens().take(NUM_TOKENS as int) =~= all_tokens());
        v
    }

    /// The productions of a consistent table only name its non-terminals.
    pub proof fn lemma_cells_in_range(&self, a: nat, t: Token)
        requires
            self.wf(),
            self.cell(a, t) is Some,
        ensures
            word_in_range(self.cell(a, t)->Some_0, self.non_terminal_count()),
    {
    }

    /// The token kinds that `get_expected_tokens` lists for `a` are those for which
    /// `get` finds a production.
    pub proof fn lemma_expected_tokens(&self, a: nat, t: Token)
        ensures
            sorted_tokens(self.row_tokens(a)).contains(t) <==> self.cell(a, t) is Some,
    {
        broadcast use vstd::seq_lib::group_filter_ensures;

        crate::token::lemma_token_index_bijection();
        let p = |u: Token| self.row_tokens(a).contains(u);
        let f = all_tokens().filter(p);
        if self.cell(a, t) is Some {
            assert(all_tokens()[t.index() as int] == t);
            assert(p(all_tokens()[t.index() as int]));
        }
        if f.contains(t) {
            let k = choose|k: int| 0 <= k < f.len() && f[k] == t;
            assert(p(f[k]));
        }
    }

    /// Whether the row of `a` holds at least one production.
    pub open spec fn row_filled(&self, a: nat) -> bool {
        exists|t: Token| #[trigger] self.cell(a, t) is Some
    }

    /// Number of non-terminals of the grammar the table was built for.
    pub fn count_non_terminals(&self) -> (n: usize)
        requires
            self.wf(),
        ensures
            n == self.non_terminal_count(),
    {
        self.used_non_terminals.len()
    }

    /// The name of non-terminal `a`.
    pub fn non_terminal_name(&self, a: usize) -> (s: &String)
        requires
            self.wf(),
            a < self.non_terminal_count(),
        ensures
            s@ == self.non_terminal_names()[a as int],
    {
        &self.used_non_terminals[a]
    }

    /// The token kinds with a filled cell in some row, in enumeration order.
    pub fn used_token_kinds(&self) -> (v: Vec<Token>)
        requires
            self.wf(),
        ensures
            v@ == sorted_tokens(self.used_tokens()),
    {
        self.tokens_discriminants.to_vec()
    }

    /// Whether the row of non-terminal `a` holds at least one production.
    pub fn is_row_filled(&self, a: usize) -> (b: bool)
        requires
            self.wf(),
        ensures
            b == self.row_filled(a as nat),
    {
        if a >= self.table.len() {
            return false;
        }
        let mut k: usize = 0;
        while k < NUM_TOKENS
            invariant
                k <= NUM_TOKENS,
                a < self.table@.len(),
                self.wf(),
                forall|t: Token| t.index() < k ==> #[trigger] self.cell(a as nat, t) is None,
            decreases NUM_TOKENS - k,
        {
            if self.table[a][k].is_some() {
                proof {
                    crate::token::lemma_token_index_bijection();
                    assert(self.cell(a as nat, token_at(k as nat)) is Some);
                }
                return true;
            }
            proof {
                crate::token::lemma_token_index_bijection();
            }
            k = k + 1;
        }
        proof {
            crate::token::lemma_token_index_bijection();
        }
        false
    }

    /// A table with one empty row for each of the given non-terminal names.
    fn with_non_terminals(names: Vec<String>) -> (t: AnalysisTable)
        ensures
            t.wf(),
            t.used_non_terminals@ == names@,
            forall|a: nat, u: Token| #[trigger] t.cell(a, u) is None,
    {
        let mut table: Vec<Vec<Option<Vec<Lexem>>>> = Vec::new();
        let mut a: usize = 0;
        while a < names.len()
            invariant
                a <= names@.len(),
                table@.len() == a,
                forall|r: int| 0 <= r < a ==> (#[trigger] table@[r])@.len() == NUM_TOKENS,
                forall|r: int, k: int| 0 <= r < a && 0 <= k < NUM_TOKENS ==> (#[trigger] table@[r]@[k]) is None,
            decreases names@.len() - a,
        {
            let mut row: Vec<Option<Vec<Lexem>>> = Vec::new();
            let mut k: usize = 0;
            while k < NUM_TOKENS
                invariant
                    k <= NUM_TOKENS,
                    row@.len() == k,
                    forall|j: int| 0 <= j < k ==> (#[trigger] row@[j]) is None,
                decreases NUM_TOKENS - k,
            {
                row.push(None);
                k = k + 1;
            }
            table.push(row);
            a = a + 1;
        }
        let t = AnalysisTable { table, tokens_discriminants: TokenSet::new(), used_non_terminals: names };
        proof {
            crate::token::lemma_token_index_bijection();
            assert forall|b: nat, u: Token| #[trigger] t.cell(b, u) is None by {
                if b < t.table@.len() {
                    assert(t.table@[b as int]@[u.index() as int] is None);
                }
            }
            assert(t.tokens_discriminants@ =~= t.used_tokens());
        }
        t
    }

    /// Puts `production` in the cell of the non-terminal `left_non_terminal` and `token`.
    /// A second claim on a filled cell means the grammar is not LL(1): the table is left
    /// unchanged and the error `NotLL1` names the cell, even when the production is the
    /// same.
    fn try_set(&mut self, left_non_terminal: &ParsedLexem, token: &Token, production: &Vec<ParsedLexem>) -> (r: Result<(), GrammarError>)
        requires
            old(self).wf(),
            left_non_terminal.lexem is NonTerminal,
            left_non_terminal.lexem->NonTerminal_0 < old(self).non_terminal_count(),
            word_in_range(lexems_of(production@), old(self).non_terminal_count()),
        ensures
            final(self).wf(),
            final(self).non_terminal_names() == old(self).non_terminal_names(),
            ({
                let a = left_non_terminal.lexem->NonTerminal_0 as nat;
                if old(self).cell(a, *token) is Some {
                    &&& r == Err::<(), GrammarError>(GrammarError::NotLL1(a as usize, *token))
                    &&& *final(self) == *old(self)
                } else {
                    &&& r is Ok
                    &&& final(self).cell(a, *token) == Some(lexems_of(production@))
                    &&& forall|b: nat, u: Token| (b != a || u != *token) ==> #[trigger] final(self).cell(b, u) == old(self).cell(b, u)
                }
            }),
    {
        let a = match left_non_terminal.lexem {
            Lexem::NonTerminal(a) => a,
            Lexem::Terminal(_) => 0,
        };
        let u = token.id();
        if self.table[a][u].is_some() {
            return Err(GrammarError::NotLL1(a, *token));
        }
        let production_vec = lexems_vec(production);
        let ghost old_table = self.table@;
        self.table[a].set(u, Some(production_vec));
        self.tokens_discriminants.insert(*token);
        proof {
            crate::token::lemma_token_index_bijection();
            assert forall|b: nat, w: Token| (b != a || w != *token) implies #[trigger] self.cell(b, w) == old(self).cell(b, w) by {
                if b < self.table@.len() && b != a {
                    assert(self.table@[b as int] == old_table[b as int]);
                }
            }
            assert forall|w: Token| self.tokens_discriminants@.contains(w) <==> self.used_tokens().contains(w) by {
                if w == *token {
                    assert(self.cell(a as nat, w) is Some);
                } else {
                    if exists|b: nat| #[trigger] self.cell(b, w) is Some {
                        let b = choose|b: nat| #[trigger] self.cell(b, w) is Some;
                        assert(old(self).cell(b, w) is Some);
                    }
                    if old(self).tokens_discriminants@.contains(w) {
                        let b = choose|b: nat| #[trigger] old(self).cell(b, w) is Some;
                        assert(self.cell(b, w) is Some);
                    }
                }
            }
            assert(self.tokens_discriminants@ =~= self.used_tokens());
        }
        Ok(())
    }

    /// Builds the analysis table of a grammar whose FOLLOW sets are computed. For each
    /// rule `A -> w` in order, the cells of `A` and of each token that can begin `w`
    /// receive `w`, then, when `w` derives the empty word, so do the cells of `A` and of
    /// each token that can follow `A`. Fails with `NotLL1` on a cell claimed twice.
    pub fn try_from_grammar(grammar: &Grammar) -> (r: Result<AnalysisTable, GrammarError>)
        requires
            grammar.wf(),
            grammar.follows_computed(),
        ensures
            table_of_grammar(*grammar, r),
    {
        proof {
            grammar.lemma_consistent();
            crate::token::lemma_token_index_bijection();
        }
        let ghost rules = grammar.rule_seq();
        let n = grammar.non_terminal_count();
        let mut names: Vec<String> = Vec::new();
        let mut a: usize = 0;
        while a < n
            invariant
                a <= n,
                n == grammar.names().len(),
                grammar.names().len() == grammar.nt_seq().len(),
                forall|i: int| 0 <= i < grammar.nt_seq().len() ==> (#[trigger] grammar.nt_seq()[i]).name@ == grammar.names()[i],
                names@.map_values(|s: String| s@) == grammar.names().take(a as int),
            decreases n - a,
        {
            let name = grammar.non_terminal_at(a).name.clone();
            proof {
                assert(names@.push(name).map_values(|s: String| s@) =~= names@.map_values(|s: String| s@).push(name@));
                assert(grammar.names().take(a + 1) =~= grammar.names().take(a as int).push(grammar.names()[a as int]));
            }
            names.push(name);
            a = a + 1;
        }
        assert(grammar.names().take(n as int) =~= grammar.names());
        let mut table = AnalysisTable::with_non_terminals(names);
        assert(table.non_terminal_names() == grammar.names());
        let e = Ghost(Set::<Token>::empty());
        assert(cells_hold_claims(table.cells(), rules, 0, e@, e@));
        let nrules = grammar.rule_count();
        let mut i: usize = 0;
        while i < nrules
            invariant
                i <= nrules,
                nrules == rules.len(),
                rules == grammar.rule_seq(),
                grammar.wf(),
                grammar.follows_computed(),
                e@ == Set::<Token>::empty(),
                table.wf(),
                table.non_terminal_names() == grammar.names(),
                cells_hold_claims(table.cells(), rules, i as int, e@, e@),
            decreases nrules - i,
        {
            proof {
                grammar.lemma_consistent();
            }
            let rule = grammar.rule_at(i);
            let ghost start = rule.start.lexem->NonTerminal_0 as nat;
            proof {
                assert(rules[i as int].start.lexem is NonTerminal);
                assert(lexem_in_range(rules[i as int].start.lexem, grammar.names().len()));
                assert forall|k: int| 0 <= k < rule.production@.len() implies lexem_in_range(
                    (#[trigger] rule.production@[k]).lexem,
                    grammar.firsts_known(),
                ) && lexem_in_range(rule.production@[k].lexem, grammar.nullable_known())
                    && lexem_in_range(rule.production@[k].lexem, grammar.names().len()) by {
                    assert(rules[i as int].production@[k] == rule.production@[k]);
                }
            }
            assert(word_in_range(lexems_of(rule.production@), grammar.names().len()));
            let firsts = grammar.get_word_firsts_unmut(rule.production.as_slice());
            let ghost mut fset = Set::<Token>::empty();
            let mut k: usize = 0;
            while k < NUM_TOKENS
                invariant
                    k <= NUM_TOKENS,
                    0 <= i < rules.len(),
                    rules == grammar.rule_seq(),
                    *rule == rules[i as int],
                    rule_of(rules[i as int], start),
                    start < table.non_terminal_count(),
                    word_in_range(lexems_of(rule.production@), table.non_terminal_count()),
                    e@ == Set::<Token>::empty(),
                    table.wf(),
                    table.non_terminal_names() == grammar.names(),
                    firsts@ == word_first(rules, first_fn(rules), rhs(rules[i as int])),
                    forall|t: Token| fset.contains(t) <==> (firsts@.contains(t) && t.index() < k),
                    cells_hold_claims(table.cells(), rules, i as int, fset, e@),
                decreases NUM_TOKENS - k,
            {
                let tok = Token::from_id(k);
                if firsts.contains(&tok) {
                    let ghost before = table.cells();
                    match table.try_set(&rule.start, &tok, &rule.production) {
                        Err(err) => {
                            proof {
                                lemma_conflict(before, rules, i as int, fset, e@, start, tok, false);
                            }
                            return Err(err);
                        },
                        Ok(()) => {
                            proof {
                                lemma_add_claim(before, table.cells(), rules, i as int, fset, e@, fset.insert(tok), e@, start, tok);
                                fset = fset.insert(tok);
                            }
                        },
                    }
                }
                k = k + 1;
            }
            let ghost mut wset = Set::<Token>::empty();
            if grammar.word_produces_empty_word_unmut(rule.production.as_slice()) {
                let follows = grammar.get_follows_unmut(&rule.start);
                let mut k: usize = 0;
                while k < NUM_TOKENS
                    invariant
                        k <= NUM_TOKENS,
                        0 <= i < rules.len(),
                        rules == grammar.rule_seq(),
                        *rule == rules[i as int],
                        rule_of(rules[i as int], start),
                        start < table.non_terminal_count(),
                        word_in_range(lexems_of(rule.production@), table.non_terminal_count()),
                        table.wf(),
                        table.non_terminal_names() == grammar.names(),
                        word_nullable(rules, rhs(rules[i as int])),
                        follows@ == follow(rules, start),
                        forall|t: Token| fset.contains(t) <==> word_first(rules, first_fn(rules), rhs(rules[i as int])).contains(t),
                        forall|t: Token| wset.contains(t) <==> (follows@.contains(t) && t.index() < k),
                        cells_hold_claims(table.cells(), rules, i as int, fset, wset),
                    decreases NUM_TOKENS - k,
                {
                    let tok = Token::from_id(k);
                    if follows.contains(&tok) {
                        let ghost before = table.cells();
                        match table.try_set(&rule.start, &tok, &rule.production) {
                            Err(err) => {
                                proof {
                                    lemma_conflict(before, rules, i as int, fset, wset, start, tok, true);
                                }
                                return Err(err);
                            },
                            Ok(()) => {
                                proof {
                                    lemma_add_claim(before, table.cells(), rules, i as int, fset, wset, fset, wset.insert(tok), start, tok);
                                    wset = wset.insert(tok);
                                }
                            },
                        }
                    }
                    k = k + 1;
                }
            }
            proof {
                lemma_next_rule(table.cells(), rules, i as int, fset, wset, start);
            }
            i = i + 1;
        }
        proof {
            lemma_final(table.cells(), rules);
            assert forall|a: nat, t: Token| #[trigger] table.cell(a, t) == table_cell(rules, a, t) by {
                assert(table.cells()(a, t) == table.cell(a, t));
            }
        }
        Ok(table)
    }
}

} // verus!
