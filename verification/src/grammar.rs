use vstd::prelude::*;

use crate::derivation::{
    follow, follow_closed, follow_sound, follow_step, contribution, first, first_fn, first_closed, first_sound, lemma_total_size_bound, lemma_total_size_update,
    lemma_word_first_iff, set_fn, total_size, views, word_first, bool_set, lemma_not_nullable_beyond, lemma_word_in_mono, lexem_nullable, lexems_of, nullable,
    nullable_closed, prefix_nullable, rhs, rule_respects, word_in, word_nullable,
};
use crate::text::{chars_eq, chars_of, decimal, decimal_chars, str_eq_chars, string_of_chars};
use crate::token::{
    count_true, lemma_count_true_bound, lemma_count_true_update, lemma_reserved_spelling, lemma_spellings_distinct,
    reserved_spellings, token_at, Token, TokenSet, NUM_TOKENS,
};

verus! {

/// A symbol of a grammar: a terminal token kind, or a non-terminal given by its number.
#[derive(PartialEq, Eq, Structural, Clone, Copy, Debug)]
pub enum Lexem {
    Terminal(Token),
    NonTerminal(usize),
}

/// A symbol as it was read from a grammar: its name in the grammar and the symbol itself.
#[derive(Clone, Debug)]
pub struct ParsedLexem {
    /// Name of the symbol in the grammar file.
    pub name: String,
    /// The symbol.
    pub lexem: Lexem,
}

impl ParsedLexem {
    /// A copy of this symbol.
    pub fn duplicate(&self) -> (r: ParsedLexem)
        ensures
            r == *self,
    {
        ParsedLexem { name: self.name.clone(), lexem: self.lexem }
    }
}

/// A production rule `start -> production` of a grammar.
#[derive(Debug)]
pub struct Rule {
    /// Position of the rule in the grammar when it was created.
    pub id: usize,
    /// Left-hand side of the rule.
    pub start: ParsedLexem,
    /// Right-hand side of the rule (empty for a rule producing the empty word).
    pub production: Vec<ParsedLexem>,
}

/// The names of the symbols of `w`, one after the other.
pub open spec fn names_text(w: Seq<ParsedLexem>) -> Seq<char>
    decreases w.len(),
{
    if w.len() == 0 {
        Seq::empty()
    } else {
        names_text(w.drop_last()) + w.last().name@
    }
}

/// How a rule is shown: `(id) start -> ` followed by the names of its symbols.
pub open spec fn rule_text(r: Rule) -> Seq<char> {
    seq!['('] + decimal(r.id as nat) + seq![')', ' '] + r.start.name@ + seq![' ', '-', '>', ' '] + names_text(r.production@)
}

impl Rule {
    /// The rule as it is shown (see `rule_text`).
    pub fn to_text(&self) -> (s: String)
        ensures
            s@ == rule_text(*self),
    {
        let mut v: Vec<char> = Vec::new();
        v.push('(');
        let mut d = decimal_chars(self.id);
        v.append(&mut d);
        v.push(')');
        v.push(' ');
        let mut n = chars_of(self.start.name.as_str());
        v.append(&mut n);
        v.push(' ');
        v.push('-');
        v.push('>');
        v.push(' ');
        let ghost head = v@;
        let mut k: usize = 0;
        while k < self.production.len()
            invariant
                k <= self.production@.len(),
                v@ == head + names_text(self.production@.take(k as int)),
            decreases self.production@.len() - k,
        {
            proof {
                assert(self.production@.take(k + 1).drop_last() =~= self.production@.take(k as int));
            }
            let mut p = chars_of(self.production[k].name.as_str());
            v.append(&mut p);
            k = k + 1;
        }
        assert(self.production@.take(self.production@.len() as int) =~= self.production@);
        assert(v@ =~= rule_text(*self));
        string_of_chars(v.as_slice())
    }
}

/// The token kind spelled `name` in grammar files, searching from position `i` of the enumeration.
pub open spec fn find_terminal(name: Seq<char>, i: nat) -> Option<Token>
    decreases NUM_TOKENS - i,
{
    if i >= NUM_TOKENS {
        None
    } else if token_at(i).grammar_name() == name {
        Some(token_at(i))
    } else {
        find_terminal(name, i + 1)
    }
}

/// The token kind spelled `name` in grammar files, if any.
pub open spec fn terminal_of_name(name: Seq<char>) -> Option<Token> {
    find_terminal(name, 0)
}

/// The symbol that the name `name` stands for, given the names of the
/// non-terminals known so far (a new non-terminal when the name is unknown).
pub open spec fn lexem_for_name(names: Seq<Seq<char>>, name: Seq<char>) -> Lexem {
    match terminal_of_name(name) {
        Some(t) => Lexem::Terminal(t),
        None => if names.contains(name) {
            Lexem::NonTerminal(names.index_of(name) as usize)
        } else {
            Lexem::NonTerminal(names.len() as usize)
        },
    }
}

/// The names of the non-terminals once the name `name` has been looked up.
pub open spec fn names_after(names: Seq<Seq<char>>, name: Seq<char>) -> Seq<Seq<char>> {
    if terminal_of_name(name) is Some || names.contains(name) {
        names
    } else {
        names.push(name)
    }
}

/// Looks up the names `ps` in order: the non-terminal names afterwards and the symbols found.
pub open spec fn resolve_names(names: Seq<Seq<char>>, ps: Seq<Seq<char>>) -> (Seq<Seq<char>>, Seq<Lexem>)
    decreases ps.len(),
{
    if ps.len() == 0 {
        (names, Seq::empty())
    } else {
        let (n1, ls) = resolve_names(names, ps.drop_last());
        (names_after(n1, ps.last()), ls.push(lexem_for_name(n1, ps.last())))
    }
}

/// The non-terminal number that a symbol names, if it is one.
pub open spec fn lexem_in_range(l: Lexem, n: nat) -> bool {
    match l {
        Lexem::Terminal(_) => true,
        Lexem::NonTerminal(id) => id < n,
    }
}

/// Every non-terminal that the rules mention is below `n`.
pub open spec fn rules_in_range(rules: Seq<Rule>, n: nat) -> bool {
    &&& forall|i: int| 0 <= i < rules.len() ==> lexem_in_range((#[trigger] rules[i]).start.lexem, n)
    &&& forall|i: int, k: int|
        #![trigger rules[i].production@[k]]
        0 <= i < rules.len() && 0 <= k < rules[i].production@.len() ==> lexem_in_range(
            rules[i].production@[k].lexem,
            n,
        )
}

/// Every rule has a non-terminal on its left-hand side.
pub open spec fn starts_are_nonterminals(rules: Seq<Rule>) -> bool {
    forall|i: int| 0 <= i < rules.len() ==> (#[trigger] rules[i]).start.lexem is NonTerminal
}

/// A grammar: its rules, its non-terminals, and the analyses computed on it.
pub struct Grammar {
    /// The rules of the grammar, in the order they were created.
    pub rules: Vec<Rule>,
    /// The non-terminals of the grammar; the one at position `i` is numbered `i`.
    pub non_terminal_lexems: Vec<ParsedLexem>,
    next_non_terminal_id: usize,
    empty_word_producers: Vec<ParsedLexem>,
    empty_word_producers_ids: Vec<bool>,
    empty_word_producers_computed: bool,
    firsts: Vec<TokenSet>,
    firsts_computed: bool,
    follows: Vec<TokenSet>,
    follows_computed: bool,
}

impl Grammar {
    /// The rules, in order (the field `rules`; `rule_at` reads it).
    pub closed spec fn rule_seq(&self) -> Seq<Rule> {
        self.rules@
    }

    /// The non-terminals, by number (the field `non_terminal_lexems`; `non_terminal_at`
    /// reads it).
    pub closed spec fn nt_seq(&self) -> Seq<ParsedLexem> {
        self.non_terminal_lexems@
    }

    /// Names of the non-terminals, by number.
    pub closed spec fn names(&self) -> Seq<Seq<char>> {
        self.non_terminal_lexems@.map_values(|p: ParsedLexem| p.name@)
    }

    /// Whether the non-terminals producing the empty word are up to date.
    pub closed spec fn nullable_computed(&self) -> bool {
        self.empty_word_producers_computed
    }

    /// Whether the FIRST sets are up to date.
    pub closed spec fn firsts_computed(&self) -> bool {
        self.firsts_computed
    }

    /// Whether the FOLLOW sets are up to date.
    pub closed spec fn follows_computed(&self) -> bool {
        self.follows_computed
    }

    /// Number of non-terminals covered by the last computation of empty-word producers.
    pub closed spec fn nullable_known(&self) -> nat {
        self.empty_word_producers_ids@.len()
    }

    /// Number of non-terminals covered by the last computation of FIRST sets.
    pub closed spec fn firsts_known(&self) -> nat {
        self.firsts@.len()
    }

    /// The FOLLOW sets stored by the last computation, by non-terminal.
    pub closed spec fn follows_store(&self) -> Seq<Set<Token>> {
        self.follows@.map_values(|s: TokenSet| s@)
    }

    /// The grammar is consistent: non-terminal `i` is numbered `i`, names are unique
    /// and distinct from token spellings, rules only mention known non-terminals,
    /// and the stored analyses agree with the rules when they are marked up to date.
    pub closed spec fn wf(&self) -> bool {
        let nts = self.non_terminal_lexems@;
        &&& forall|i: int|
            0 <= i < nts.len() ==> (#[trigger] nts[i]).lexem == Lexem::NonTerminal(i as usize)
        &&& self.names().no_duplicates()
        &&& forall|i: int| 0 <= i < nts.len() ==> terminal_of_name(#[trigger] self.names()[i]) is None
        &&& self.next_non_terminal_id == nts.len()
        &&& rules_in_range(self.rules@, nts.len())
        &&& self.analyses_agree()
    }

    closed spec fn analyses_agree(&self) -> bool {
        let nts = self.non_terminal_lexems@;
        let ids = self.empty_word_producers_ids@;
        let rules = self.rules@;
        &&& self.empty_word_producers_computed ==> {
            &&& ids.len() <= nts.len()
            &&& rules_in_range(rules, ids.len())
            &&& starts_are_nonterminals(rules)
            &&& forall|a: int| 0 <= a < ids.len() ==> ids[a] == nullable(rules, a as nat)
            &&& self.empty_word_producers@ == nts.take(ids.len() as int).filter(
                |p: ParsedLexem| lexem_nullable(rules, p.lexem),
            )
        }
        &&& self.firsts_computed ==> {
            &&& self.empty_word_producers_computed
            &&& self.firsts@.len() <= nts.len()
            &&& rules_in_range(rules, self.firsts@.len())
            &&& forall|a: int| 0 <= a < self.firsts@.len() ==> (#[trigger] self.firsts@[a])@ == first(rules, a as nat)
        }
        &&& self.follows_computed ==> {
            &&& self.firsts_computed
            &&& self.follows@.len() <= nts.len()
            &&& rules_in_range(rules, self.follows@.len())
            &&& forall|a: int| 0 <= a < self.follows@.len() ==> (#[trigger] self.follows@[a])@ == follow(rules, a as nat)
        }
    }

    /// An empty grammar.
    pub fn new() -> (g: Self)
        ensures
            g.wf(),
            g.rule_seq().len() == 0,
            g.names().len() == 0,
            !g.nullable_computed(),
            !g.firsts_computed(),
            !g.follows_computed(),
            g.follows_store().len() == 0,
            g.nullable_known() == 0,
            g.firsts_known() == 0,
            g.nt_seq().len() == 0,
    {
        let g = Grammar {
            rules: Vec::new(),
            next_non_terminal_id: 0,
            non_terminal_lexems: Vec::new(),
            empty_word_producers: Vec::new(),
            empty_word_producers_ids: Vec::new(),
            empty_word_producers_computed: false,
            firsts: Vec::new(),
            firsts_computed: false,
            follows: Vec::new(),
            follows_computed: false,
        };
        assert(g.names() =~= Seq::<Seq<char>>::empty());
        assert(g.follows_store() =~= Seq::<Set<Token>>::empty());
        g
    }

    /// The symbol named `name`: a terminal when `name` spells a token kind, else the
    /// non-terminal of that name, which is created (with the next number) when unknown.
    pub fn get_lexem(&mut self, name: &str) -> (l: ParsedLexem)
        requires
            old(self).wf(),
        ensures
            final(self).wf(),
            l.name@ == name@,
            l.lexem == lexem_for_name(old(self).names(), name@),
            final(self).names() == names_after(old(self).names(), name@),
            final(self).rule_seq() == old(self).rule_seq(),
            final(self).nullable_computed() == old(self).nullable_computed(),
            final(self).firsts_computed() == old(self).firsts_computed(),
            final(self).follows_computed() == old(self).follows_computed(),
            final(self).follows_store() == old(self).follows_store(),
            final(self).nullable_known() == old(self).nullable_known(),
            final(self).firsts_known() == old(self).firsts_known(),
    {
        let chars = chars_of(name);
        match terminal_named(chars.as_slice()) {
            Some(t) => {
                return ParsedLexem { name: name.to_owned(), lexem: Lexem::Terminal(t) };
            },
            None => {},
        }
        let n = self.non_terminal_lexems.len();
        let mut i: usize = 0;
        while i < n
            invariant
                n == self.non_terminal_lexems@.len(),
                i <= n,
                chars@ == name@,
                self.wf(),
                terminal_of_name(name@) is None,
                *self == *old(self),
                forall|j: int| 0 <= j < i ==> self.names()[j] != name@,
            decreases n - i,
        {
            if str_eq_chars(self.non_terminal_lexems[i].name.as_str(), chars.as_slice()) {
                proof {
                    assert(self.names()[i as int] == name@);
                    assert(self.names().contains(name@));
                    assert(self.names().index_of(name@) == i);
                }
                return self.non_terminal_lexems[i].duplicate();
            }
            i = i + 1;
        }
        proof {
            assert(!self.names().contains(name@));
        }
        let id = self.next_non_terminal_id;
        self.non_terminal_lexems.push(ParsedLexem { name: name.to_owned(), lexem: Lexem::NonTerminal(id) });
        self.next_non_terminal_id = self.non_terminal_lexems.len();
        proof {
            assert(self.names() =~= old(self).names().push(name@));
            if self.empty_word_producers_computed {
                let k = self.empty_word_producers_ids@.len() as int;
                assert(self.non_terminal_lexems@.take(k) =~= old(self).non_terminal_lexems@.take(k));
            }
        }
        self.non_terminal_lexems[id].duplicate()
    }

    /// Computes which non-terminals derive the empty word: the least set of
    /// non-terminals closed under the rules, found by iterating until nothing changes.
    pub fn compute_empty_word_producers(&mut self)
        requires
            old(self).wf(),
            starts_are_nonterminals(old(self).rule_seq()),
        ensures
            final(self).wf(),
            final(self).nullable_computed(),
            final(self).nullable_known() == final(self).names().len(),
            final(self).rule_seq() == old(self).rule_seq(),
            final(self).names() == old(self).names(),
            final(self).firsts_computed() == old(self).firsts_computed(),
            final(self).follows_computed() == old(self).follows_computed(),
            final(self).firsts_known() == old(self).firsts_known(),
            final(self).follows_store() == old(self).follows_store(),
    {
        let n = self.non_terminal_lexems.len();
        let ghost rules = self.rules@;
        let mut producers: Vec<bool> = Vec::new();
        let mut a: usize = 0;
        while a < n
            invariant
                a <= n,
                producers@.len() == a,
                forall|j: int| 0 <= j < a ==> !producers@[j],
            decreases n - a,
        {
            producers.push(false);
            a = a + 1;
        }
        assert(bool_set(producers@) =~= Set::<nat>::empty());
        loop
            invariant
                producers@.len() == n,
                n == self.non_terminal_lexems@.len(),
                self.wf(),
                *self == *old(self),
                rules == self.rules@,
                starts_are_nonterminals(rules),
                forall|s: Set<nat>| #[trigger] nullable_closed(rules, s) ==> bool_set(producers@).subset_of(s),
            ensures
                nullable_closed(rules, bool_set(producers@)),
            decreases n - count_true(producers@),
        {
            let ghost start_p = producers@;
            let mut changed = false;
            let mut i: usize = 0;
            while i < self.rules.len()
                invariant
                    i <= rules.len(),
                    producers@.len() == n,
                    n == self.non_terminal_lexems@.len(),
                    self.wf(),
                    *self == *old(self),
                    rules == self.rules@,
                    starts_are_nonterminals(rules),
                    forall|s: Set<nat>| #[trigger] nullable_closed(rules, s) ==> bool_set(producers@).subset_of(s),
                    count_true(producers@) >= count_true(start_p),
                    changed ==> count_true(producers@) > count_true(start_p),
                    !changed ==> producers@ == start_p,
                    !changed ==> forall|j: int| 0 <= j < i ==> rule_respects(#[trigger] rules[j], bool_set(producers@)),
                decreases rules.len() - i,
            {
                let start_id = nonterminal_number(&self.rules[i].start.lexem);
                proof {
                    assert(lexem_in_range(rules[i as int].start.lexem, n as nat));
                }
                if !producers[start_id] {
                    let all = word_marked(&self.rules[i].production, &producers);
                    if all {
                        let ghost old_p = producers@;
                        proof {
                            lemma_count_true_update(producers@, start_id as int);
                        }
                        producers.set(start_id, true);
                        changed = true;
                        proof {
                            assert(bool_set(producers@) =~= bool_set(old_p).insert(start_id as nat));
                            assert forall|s: Set<nat>| #[trigger] nullable_closed(rules, s) implies bool_set(
                                producers@,
                            ).subset_of(s) by {
                                assert(bool_set(old_p).subset_of(s));
                                lemma_word_in_mono(rhs(rules[i as int]), bool_set(old_p), s);
                                assert(rule_respects(rules[i as int], s));
                            }
                        }
                    }
                }
                i = i + 1;
            }
            if !changed {
                break;
            }
            proof {
                lemma_count_true_bound(producers@);
            }
        }
        proof {
            assert forall|a: int| 0 <= a < n implies producers@[a] == nullable(rules, a as nat) by {
                if nullable(rules, a as nat) {
                    assert(bool_set(producers@).contains(a as nat));
                }
                if producers@[a] {
                    assert forall|s: Set<nat>| #[trigger] nullable_closed(rules, s) implies s.contains(a as nat) by {
                        assert(bool_set(producers@).contains(a as nat));
                    }
                }
            }
        }
        let ghost pred = |p: ParsedLexem| lexem_nullable(rules, p.lexem);
        let mut producing: Vec<ParsedLexem> = Vec::new();
        let mut k: usize = 0;
        while k < n
            invariant
                k <= n,
                n == self.non_terminal_lexems@.len(),
                producers@.len() == n,
                self.wf(),
                *self == *old(self),
                rules == self.rules@,
                pred == (|p: ParsedLexem| lexem_nullable(rules, p.lexem)),
                forall|a: int| 0 <= a < n ==> producers@[a] == nullable(rules, a as nat),
                producing@ == self.non_terminal_lexems@.take(k as int).filter(pred),
            decreases n - k,
        {
            proof {
                let nts = self.non_terminal_lexems@;
                assert(nts.take(k + 1) =~= nts.take(k as int).push(nts[k as int]));
                nts.take(k as int).lemma_filter_push(nts[k as int], pred);
            }
            if producers[k] {
                producing.push(self.non_terminal_lexems[k].duplicate());
            }
            k = k + 1;
        }
        self.empty_word_producers = producing;
        self.empty_word_producers_ids = producers;
        self.empty_word_producers_computed = true;
        proof {
            assert(self.names() == old(self).names());
        }
    }

    /// The non-terminals that derive the empty word (computing them first when they
    /// are not up to date), by number.
    pub fn empty_word_producers(&mut self) -> (r: &Vec<ParsedLexem>)
        requires
            old(self).wf(),
            old(self).nullable_computed() || starts_are_nonterminals(old(self).rule_seq()),
        ensures
            final(self).wf(),
            final(self).nullable_computed(),
            r@ == final(self).nt_seq().take(final(self).nullable_known() as int).filter(
                |p: ParsedLexem| lexem_nullable(final(self).rule_seq(), p.lexem),
            ),
            !old(self).nullable_computed() ==> final(self).nullable_known() == final(self).names().len(),
            old(self).nullable_computed() ==> final(self).nullable_known() == old(self).nullable_known(),
            final(self).rule_seq() == old(self).rule_seq(),
            final(self).names() == old(self).names(),
            final(self).firsts_computed() == old(self).firsts_computed(),
            final(self).follows_computed() == old(self).follows_computed(),
            final(self).firsts_known() == old(self).firsts_known(),
            final(self).follows_store() == old(self).follows_store(),
    {
        if !self.empty_word_producers_computed {
            self.compute_empty_word_producers();
        }
        &self.empty_word_producers
    }

    /// Whether the symbol derives the empty word (never for a terminal).
    pub fn produces_empty_word_unmut(&self, lexem: &Lexem) -> (r: bool)
        requires
            self.wf(),
            self.nullable_computed(),
        ensures
            r == lexem_nullable(self.rule_seq(), *lexem),
    {
        match lexem {
            Lexem::Terminal(_) => false,
            Lexem::NonTerminal(id) => {
                if *id < self.empty_word_producers_ids.len() {
                    self.empty_word_producers_ids[*id]
                } else {
                    proof {
                        lemma_not_nullable_beyond(self.rules@, self.empty_word_producers_ids@.len(), *id as nat);
                    }
                    false
                }
            },
        }
    }

    /// Whether the word derives the empty word.
    pub fn word_produces_empty_word_unmut(&self, word: &[ParsedLexem]) -> (r: bool)
        requires
            self.wf(),
            self.nullable_computed(),
            forall|k: int|
                0 <= k < word@.len() && prefix_nullable(self.rule_seq(), lexems_of(word@), k)
                    ==> lexem_in_range(#[trigger] word@[k].lexem, self.nullable_known()),
        ensures
            r == word_nullable(self.rule_seq(), lexems_of(word@)),
    {
        let ghost w = lexems_of(word@);
        let mut k: usize = 0;
        while k < word.len()
            invariant
                k <= word@.len(),
                w == lexems_of(word@),
                self.wf(),
                self.nullable_computed(),
                forall|j: int|
                    0 <= j < word@.len() && prefix_nullable(self.rule_seq(), w, j)
                        ==> lexem_in_range(#[trigger] word@[j].lexem, self.nullable_known()),
                prefix_nullable(self.rule_seq(), w, k as int),
            decreases word@.len() - k,
        {
            assert(w[k as int] == word@[k as int].lexem);
            match word[k].lexem {
                Lexem::Terminal(_) => {
                    return false;
                },
                Lexem::NonTerminal(id) => {
                    if !self.empty_word_producers_ids[id] {
                        return false;
                    }
                },
            }
            k = k + 1;
        }
        true
    }

    /// Computes the FIRST set of every non-terminal (computing the empty-word producers
    /// first when they are not up to date): the least family of sets closed under the
    /// rules, found by iterating until nothing changes.
    pub fn compute_firsts(&mut self)
        requires
            old(self).wf(),
            old(self).nullable_computed() || starts_are_nonterminals(old(self).rule_seq()),
        ensures
            final(self).wf(),
            final(self).firsts_computed(),
            final(self).nullable_computed(),
            final(self).firsts_known() == final(self).names().len(),
            !old(self).nullable_computed() ==> final(self).nullable_known() == final(self).names().len(),
            old(self).nullable_computed() ==> final(self).nullable_known() == old(self).nullable_known(),
            final(self).rule_seq() == old(self).rule_seq(),
            final(self).names() == old(self).names(),
            final(self).follows_computed() == old(self).follows_computed(),
            final(self).follows_store() == old(self).follows_store(),
    {
        let n = self.non_terminal_lexems.len();
        let mut firsts: Vec<TokenSet> = Vec::new();
        let mut a: usize = 0;
        while a < n
            invariant
                a <= n,
                firsts@.len() == a,
                forall|j: int| 0 <= j < a ==> (#[trigger] firsts@[j])@ == Set::<Token>::empty(),
                forall|j: int| 0 <= j < a ==> (#[trigger] firsts@[j]).size() <= NUM_TOKENS,
            decreases n - a,
        {
            firsts.push(TokenSet::new());
            a = a + 1;
        }
        if !self.empty_word_producers_computed {
            self.compute_empty_word_producers();
        }
        let ghost rules = self.rules@;
        proof {
            assert forall|f: spec_fn(nat) -> Set<Token>| #[trigger] first_closed(rules, f) implies forall|a: int|
                0 <= a < views(firsts@).len() ==> (#[trigger] views(firsts@)[a]).subset_of(f(a as nat)) by {
                assert forall|a: int| 0 <= a < views(firsts@).len() implies (#[trigger] views(firsts@)[a]).subset_of(f(a as nat)) by {
                    assert(views(firsts@)[a] == firsts@[a]@);
                }
            }
        }
        loop
            invariant
                firsts@.len() == n,
                n == self.non_terminal_lexems@.len(),
                self.wf(),
                self.nullable_computed(),
                rules == self.rules@,
                self.names() == old(self).names(),
                self.firsts_computed() == old(self).firsts_computed(),
                self.follows_computed() == old(self).follows_computed(),
                self.follows_store() == old(self).follows_store(),
                !old(self).nullable_computed() ==> self.nullable_known() == self.names().len(),
                old(self).nullable_computed() ==> self.nullable_known() == old(self).nullable_known(),
                rules == old(self).rule_seq(),
                forall|a: int| 0 <= a < firsts@.len() ==> (#[trigger] firsts@[a]).size() <= NUM_TOKENS,
                first_sound(rules, views(firsts@)),
            ensures
                forall|i: int| 0 <= i < rules.len() ==> ({
                    let c = set_fn(views(firsts@));
                    let a = (#[trigger] rules[i]).start.lexem->NonTerminal_0 as nat;
                    word_first(rules, c, rhs(rules[i])).subset_of(c(a))
                }),
            decreases n * NUM_TOKENS - total_size(firsts@),
        {
            let ghost start_views = views(firsts@);
            let ghost start_total = total_size(firsts@);
            let mut changed = false;
            let mut i: usize = 0;
            while i < self.rules.len()
                invariant
                    i <= rules.len(),
                    firsts@.len() == n,
                    n == self.non_terminal_lexems@.len(),
                    self.wf(),
                    self.nullable_computed(),
                    rules == self.rules@,
                    forall|a: int| 0 <= a < firsts@.len() ==> (#[trigger] firsts@[a]).size() <= NUM_TOKENS,
                    first_sound(rules, views(firsts@)),
                    total_size(firsts@) >= start_total,
                    changed ==> total_size(firsts@) > start_total,
                    !changed ==> views(firsts@) == start_views,
                    !changed ==> forall|j: int| 0 <= j < i ==> ({
                        let c = set_fn(views(firsts@));
                        let a = (#[trigger] rules[j]).start.lexem->NonTerminal_0 as nat;
                        word_first(rules, c, rhs(rules[j])).subset_of(c(a))
                    }),
                decreases rules.len() - i,
            {
                let grew = self.add_rule_firsts(&mut firsts, i);
                if grew {
                    changed = true;
                }
                i = i + 1;
            }
            if !changed {
                break;
            }
            proof {
                lemma_total_size_bound(firsts@, NUM_TOKENS as nat);
            }
        }
        proof {
            let c = set_fn(views(firsts@));
            assert(first_closed(rules, c)) by {
                assert forall|i: int| 0 <= i < rules.len() implies match (#[trigger] rules[i]).start.lexem {
                    Lexem::NonTerminal(a) => word_first(rules, c, rhs(rules[i])).subset_of(c(a as nat)),
                    Lexem::Terminal(_) => true,
                } by {
                    assert(rules[i].start.lexem is NonTerminal);
                }
            }
            assert forall|a: int| 0 <= a < n implies (#[trigger] firsts@[a])@ == first(rules, a as nat) by {
                assert(views(firsts@)[a] == firsts@[a]@);
                assert forall|t: Token| firsts@[a]@.contains(t) implies first(rules, a as nat).contains(t) by {
                    assert forall|f: spec_fn(nat) -> Set<Token>| #[trigger] first_closed(rules, f) implies f(a as nat).contains(t) by {
                        assert(views(firsts@)[a].subset_of(f(a as nat)));
                    }
                }
                assert forall|t: Token| first(rules, a as nat).contains(t) implies firsts@[a]@.contains(t) by {
                    assert(c(a as nat).contains(t));
                }
                assert(firsts@[a]@ =~= first(rules, a as nat));
            }
        }
        self.firsts = firsts;
        self.firsts_computed = true;
    }

    /// The FIRST sets of the non-terminals, by number (computing them first when they
    /// are not up to date).
    pub fn firsts(&mut self) -> (r: &Vec<TokenSet>)
        requires
            old(self).wf(),
            old(self).firsts_computed() || old(self).nullable_computed() || starts_are_nonterminals(
                old(self).rule_seq(),
            ),
        ensures
            final(self).wf(),
            final(self).firsts_computed(),
            r@.len() == final(self).firsts_known(),
            forall|a: int| 0 <= a < r@.len() ==> (#[trigger] r@[a])@ == first(final(self).rule_seq(), a as nat),
            !old(self).firsts_computed() ==> final(self).firsts_known() == final(self).names().len(),
            old(self).firsts_computed() ==> final(self).firsts_known() == old(self).firsts_known(),
            final(self).nullable_computed(),
            !old(self).nullable_computed() ==> final(self).nullable_known() == final(self).names().len(),
            old(self).nullable_computed() ==> final(self).nullable_known() == old(self).nullable_known(),
            final(self).rule_seq() == old(self).rule_seq(),
            final(self).names() == old(self).names(),
            final(self).follows_computed() == old(self).follows_computed(),
            final(self).follows_store() == old(self).follows_store(),
    {
        if !self.firsts_computed {
            self.compute_firsts();
        }
        &self.firsts
    }

    /// The FIRST set of a non-terminal.
    pub fn get_firsts_unmut(&self, lexem: &Lexem) -> (r: &TokenSet)
        requires
            self.wf(),
            self.firsts_computed(),
            lexem is NonTerminal,
            lexem->NonTerminal_0 < self.firsts_known(),
        ensures
            r@ == first(self.rule_seq(), lexem->NonTerminal_0 as nat),
    {
        let id = nonterminal_number(lexem);
        &self.firsts[id]
    }

    /// The tokens that can begin a word derived from `word`.
    pub fn get_word_firsts_unmut(&self, word: &[ParsedLexem]) -> (r: TokenSet)
        requires
            self.wf(),
            self.firsts_computed(),
            forall|k: int|
                0 <= k < word@.len() && prefix_nullable(self.rule_seq(), lexems_of(word@), k)
                    ==> lexem_in_range(#[trigger] word@[k].lexem, self.firsts_known()),
        ensures
            r@ == word_first(self.rule_seq(), first_fn(self.rule_seq()), lexems_of(word@)),
            r.size() <= NUM_TOKENS,
    {
        let ghost rules = self.rules@;
        let ghost w = lexems_of(word@);
        let ghost f = first_fn(rules);
        let mut firsts = TokenSet::new();
        let mut k: usize = 0;
        while k < word.len()
            invariant_except_break
                prefix_nullable(rules, w, k as int),
                forall|t: Token| firsts@.contains(t) <==> exists|j: int| 0 <= j < k && #[trigger] contribution(f, w[j]).contains(t),
            invariant
                k <= word@.len(),
                w == lexems_of(word@),
                rules == self.rules@,
                f == first_fn(rules),
                self.wf(),
                self.firsts_computed(),
                forall|j: int|
                    0 <= j < word@.len() && prefix_nullable(rules, w, j)
                        ==> lexem_in_range(#[trigger] word@[j].lexem, self.firsts_known()),
                firsts.size() <= NUM_TOKENS,
            ensures
                firsts.size() <= NUM_TOKENS,
                forall|t: Token| firsts@.contains(t) <==> exists|j: int|
                    0 <= j < w.len() && prefix_nullable(rules, w, j) && #[trigger] contribution(f, w[j]).contains(t),
            decreases word@.len() - k,
        {
            let lexem = word[k].lexem;
            assert(w[k as int] == lexem);
            let ghost before = firsts@;
            match lexem {
                Lexem::Terminal(t) => {
                    firsts.insert(t);
                    proof {
                        assert forall|j: int| 0 <= j < w.len() && prefix_nullable(rules, w, j) implies j <= k by {
                            if j > k {
                                assert(lexem_nullable(rules, w[k as int]));
                            }
                        }
                        assert forall|u: Token| firsts@.contains(u) implies exists|j: int|
                            0 <= j < w.len() && prefix_nullable(rules, w, j) && #[trigger] contribution(f, w[j]).contains(u) by {
                            if u == t {
                                assert(contribution(f, w[k as int]).contains(u));
                            } else {
                                assert(before.contains(u));
                            }
                        }
                        assert forall|u: Token| (exists|j: int|
                            0 <= j < w.len() && prefix_nullable(rules, w, j) && #[trigger] contribution(f, w[j]).contains(u)) implies firsts@.contains(u) by {
                            let j = choose|j: int|
                                0 <= j < w.len() && prefix_nullable(rules, w, j) && #[trigger] contribution(f, w[j]).contains(u);
                            if j < k {
                                assert(before.contains(u));
                            }
                        }
                    }
                    break;
                },
                Lexem::NonTerminal(_) => {
                    proof {
                        assert(lexem_in_range(word@[k as int].lexem, self.firsts_known()));
                    }
                    let set = self.get_firsts_unmut(&lexem);
                    firsts.extend(set);
                    if !self.produces_empty_word_unmut(&lexem) {
                        proof {
                            assert forall|j: int| 0 <= j < w.len() && prefix_nullable(rules, w, j) implies j <= k by {
                                if j > k {
                                    assert(lexem_nullable(rules, w[k as int]));
                                }
                            }
                            assert forall|u: Token| firsts@.contains(u) implies exists|j: int|
                                0 <= j < w.len() && prefix_nullable(rules, w, j) && #[trigger] contribution(f, w[j]).contains(u) by {
                                if set@.contains(u) {
                                    assert(contribution(f, w[k as int]).contains(u));
                                } else {
                                    assert(before.contains(u));
                                }
                            }
                            assert forall|u: Token| (exists|j: int|
                                0 <= j < w.len() && prefix_nullable(rules, w, j) && #[trigger] contribution(f, w[j]).contains(u)) implies firsts@.contains(u) by {
                                let j = choose|j: int|
                                    0 <= j < w.len() && prefix_nullable(rules, w, j) && #[trigger] contribution(f, w[j]).contains(u);
                                if j < k {
                                    assert(before.contains(u));
                                }
                            }
                        }
                        break;
                    }
                    proof {
                        assert forall|u: Token| firsts@.contains(u) implies exists|j: int| 0 <= j < k + 1 && #[trigger] contribution(f, w[j]).contains(u) by {
                            if set@.contains(u) {
                                assert(contribution(f, w[k as int]).contains(u));
                            } else {
                                assert(before.contains(u));
                            }
                        }
                        assert forall|u: Token| (exists|j: int| 0 <= j < k + 1 && #[trigger] contribution(f, w[j]).contains(u)) implies firsts@.contains(u) by {
                            let j = choose|j: int| 0 <= j < k + 1 && #[trigger] contribution(f, w[j]).contains(u);
                            if j < k {
                                assert(before.contains(u));
                            }
                        }
                    }
                },
            }
            k = k + 1;
        }
        proof {
            assert forall|t: Token| firsts@.contains(t) <==> word_first(rules, f, w).contains(t) by {
                lemma_word_first_iff(rules, f, w, t);
            }
            assert(firsts@ =~= word_first(rules, f, w));
        }
        firsts
    }

    /// Computes the FOLLOW set of every non-terminal (computing the FIRST sets and the
    /// empty-word producers first when they are not up to date): the least family of
    /// sets, closed under the rules, in which the end of input follows non-terminal 0.
    pub fn compute_follows(&mut self)
        requires
            old(self).wf(),
            old(self).names().len() > 0,
            old(self).firsts_computed() || old(self).nullable_computed() || starts_are_nonterminals(
                old(self).rule_seq(),
            ),
        ensures
            final(self).wf(),
            final(self).follows_computed(),
            final(self).firsts_computed(),
            final(self).nullable_computed(),
            final(self).follows_store().len() == final(self).names().len(),
            forall|a: int|
                0 <= a < final(self).follows_store().len() ==> #[trigger] final(self).follows_store()[a] == follow(
                    final(self).rule_seq(),
                    a as nat,
                ),
            !old(self).firsts_computed() ==> final(self).firsts_known() == final(self).names().len(),
            old(self).firsts_computed() ==> final(self).firsts_known() == old(self).firsts_known(),
            old(self).nullable_computed() ==> final(self).nullable_known() == old(self).nullable_known(),
            final(self).rule_seq() == old(self).rule_seq(),
            final(self).names() == old(self).names(),
    {
        let n = self.non_terminal_lexems.len();
        let mut follows: Vec<TokenSet> = Vec::new();
        let mut a: usize = 0;
        while a < n
            invariant
                a <= n,
                follows@.len() == a,
                forall|j: int| 0 <= j < a ==> (#[trigger] follows@[j])@ == Set::<Token>::empty(),
                forall|j: int| 0 <= j < a ==> (#[trigger] follows@[j]).size() <= NUM_TOKENS,
            decreases n - a,
        {
            follows.push(TokenSet::new());
            a = a + 1;
        }
        if !self.firsts_computed {
            self.compute_firsts();
        }
        if !self.empty_word_producers_computed {
            self.compute_empty_word_producers();
        }
        let ghost rules = self.rules@;
        follows[0].insert(Token::EOF);
        proof {
            assert forall|g: spec_fn(nat) -> Set<Token>| #[trigger] follow_closed(rules, g) implies forall|a: int|
                0 <= a < views(follows@).len() ==> (#[trigger] views(follows@)[a]).subset_of(g(a as nat)) by {
                assert forall|a: int| 0 <= a < views(follows@).len() implies (#[trigger] views(follows@)[a]).subset_of(g(a as nat)) by {
                    assert(views(follows@)[a] == follows@[a]@);
                }
            }
        }
        loop
            invariant
                follows@.len() == n,
                n == self.non_terminal_lexems@.len(),
                n > 0,
                self.wf(),
                self.firsts_computed(),
                rules == self.rules@,
                self.names() == old(self).names(),
                !old(self).firsts_computed() ==> self.firsts_known() == self.names().len(),
                old(self).firsts_computed() ==> self.firsts_known() == old(self).firsts_known(),
                old(self).nullable_computed() ==> self.nullable_known() == old(self).nullable_known(),
                rules == old(self).rule_seq(),
                follows@[0]@.contains(Token::EOF),
                forall|a: int| 0 <= a < follows@.len() ==> (#[trigger] follows@[a]).size() <= NUM_TOKENS,
                follow_sound(rules, views(follows@)),
            ensures
                forall|i: int, k: int|
                    0 <= i < rules.len() && 0 <= k < rhs(rules[i]).len() ==> #[trigger] follow_step(
                        rules,
                        set_fn(views(follows@)),
                        rules[i],
                        k,
                    ),
            decreases n * NUM_TOKENS - total_size(follows@),
        {
            let ghost start_views = views(follows@);
            let ghost start_total = total_size(follows@);
            let mut changed = false;
            let mut i: usize = 0;
            while i < self.rules.len()
                invariant
                    i <= rules.len(),
                    follows@.len() == n,
                    n == self.non_terminal_lexems@.len(),
                    n > 0,
                    self.wf(),
                    self.firsts_computed(),
                    rules == self.rules@,
                    follows@[0]@.contains(Token::EOF),
                    forall|a: int| 0 <= a < follows@.len() ==> (#[trigger] follows@[a]).size() <= NUM_TOKENS,
                    follow_sound(rules, views(follows@)),
                    total_size(follows@) >= start_total,
                    changed ==> total_size(follows@) > start_total,
                    !changed ==> views(follows@) == start_views,
                    !changed ==> forall|j: int, k: int|
                        0 <= j < i && 0 <= k < rhs(rules[j]).len() ==> #[trigger] follow_step(
                            rules,
                            set_fn(views(follows@)),
                            rules[j],
                            k,
                        ),
                decreases rules.len() - i,
            {
                let ghost before = follows@;
                let grew = self.add_rule_follows(&mut follows, i);
                proof {
                    assert(before[0]@.subset_of(follows@[0]@));
                }
                if grew {
                    changed = true;
                }
                i = i + 1;
            }
            if !changed {
                break;
            }
            proof {
                lemma_total_size_bound(follows@, NUM_TOKENS as nat);
            }
        }
        proof {
            let c = set_fn(views(follows@));
            assert(views(follows@)[0] == follows@[0]@);
            assert(follow_closed(rules, c));
            assert forall|a: int| 0 <= a < n implies (#[trigger] follows@[a])@ == follow(rules, a as nat) by {
                assert(views(follows@)[a] == follows@[a]@);
                assert forall|t: Token| follows@[a]@.contains(t) implies follow(rules, a as nat).contains(t) by {
                    assert forall|g: spec_fn(nat) -> Set<Token>| #[trigger] follow_closed(rules, g) implies g(a as nat).contains(t) by {
                        assert(views(follows@)[a].subset_of(g(a as nat)));
                    }
                }
                assert forall|t: Token| follow(rules, a as nat).contains(t) implies follows@[a]@.contains(t) by {
                    assert(c(a as nat).contains(t));
                }
                assert(follows@[a]@ =~= follow(rules, a as nat));
            }
        }
        self.follows = follows;
        self.follows_computed = true;
        proof {
            assert forall|a: int| 0 <= a < self.follows_store().len() implies #[trigger] self.follows_store()[a] == follow(rules, a as nat) by {
                assert(self.follows_store()[a] == self.follows@[a]@);
            }
        }
    }

    /// The FOLLOW sets of the non-terminals, by number (computing them first when they
    /// are not up to date).
    pub fn follows(&mut self) -> (r: &Vec<TokenSet>)
        requires
            old(self).wf(),
            old(self).follows_computed() || old(self).names().len() > 0,
            old(self).follows_computed() || old(self).firsts_computed() || old(self).nullable_computed()
                || starts_are_nonterminals(old(self).rule_seq()),
        ensures
            final(self).wf(),
            final(self).follows_computed(),
            views(r@) == final(self).follows_store(),
            forall|a: int| 0 <= a < r@.len() ==> (#[trigger] r@[a])@ == follow(final(self).rule_seq(), a as nat),
            !old(self).follows_computed() ==> r@.len() == final(self).names().len(),
            old(self).follows_computed() ==> final(self).follows_store() == old(self).follows_store(),
            final(self).nullable_computed(),
            final(self).firsts_computed(),
            old(self).nullable_computed() ==> final(self).nullable_known() == old(self).nullable_known(),
            old(self).firsts_computed() ==> final(self).firsts_known() == old(self).firsts_known(),
            final(self).rule_seq() == old(self).rule_seq(),
            final(self).names() == old(self).names(),
    {
        if !self.follows_computed {
            self.compute_follows();
        }
        proof {
            assert(views(self.follows@) =~= self.follows_store());
        }
        &self.follows
    }

    /// The FOLLOW set of a non-terminal; the FOLLOW sets must be up to date.
    pub fn get_follows_unmut(&self, non_terminal: &ParsedLexem) -> (r: &TokenSet)
        requires
            self.wf(),
            self.follows_computed(),
            non_terminal.lexem is NonTerminal,
            non_terminal.lexem->NonTerminal_0 < self.follows_store().len(),
        ensures
            r@ == self.follows_store()[non_terminal.lexem->NonTerminal_0 as int],
            r@ == follow(self.rule_seq(), non_terminal.lexem->NonTerminal_0 as nat),
    {
        let id = nonterminal_number(&non_terminal.lexem);
        &self.follows[id]
    }

    /// Adds to the FOLLOW sets `follows` what the positions of rule `i` require;
    /// returns whether a set grew.
    fn add_rule_follows(&self, follows: &mut Vec<TokenSet>, i: usize) -> (changed: bool)
        requires
            self.wf(),
            self.firsts_computed(),
            i < self.rule_seq().len(),
            old(follows)@.len() == self.nt_seq().len(),
            forall|a: int| 0 <= a < old(follows)@.len() ==> (#[trigger] old(follows)@[a]).size() <= NUM_TOKENS,
            follow_sound(self.rule_seq(), views(old(follows)@)),
        ensures
            final(follows)@.len() == old(follows)@.len(),
            forall|a: int| 0 <= a < final(follows)@.len() ==> (#[trigger] final(follows)@[a]).size() <= NUM_TOKENS,
            follow_sound(self.rule_seq(), views(final(follows)@)),
            forall|a: int| 0 <= a < old(follows)@.len() ==> (#[trigger] old(follows)@[a])@.subset_of(final(follows)@[a]@),
            total_size(final(follows)@) >= total_size(old(follows)@),
            changed ==> total_size(final(follows)@) > total_size(old(follows)@),
            !changed ==> views(final(follows)@) == views(old(follows)@),
            !changed ==> forall|k: int|
                0 <= k < rhs(self.rule_seq()[i as int]).len() ==> #[trigger] follow_step(
                    self.rule_seq(),
                    set_fn(views(final(follows)@)),
                    self.rule_seq()[i as int],
                    k,
                ),
    {
        let ghost rules = self.rules@;
        let ghost w = rhs(rules[i as int]);
        let ghost n = self.non_terminal_lexems@.len();
        proof {
            assert(lexem_in_range(rules[i as int].start.lexem, n as nat));
            assert(rules[i as int].start.lexem is NonTerminal);
        }
        let start_id = nonterminal_number(&self.rules[i].start.lexem);
        let len = self.rules[i].production.len();
        let mut changed = false;
        let mut k: usize = 0;
        while k < len
            invariant
                k <= len,
                len == w.len(),
                w == rhs(rules[i as int]),
                rules == self.rules@,
                n == self.non_terminal_lexems@.len(),
                self.wf(),
                self.firsts_computed(),
                i < rules.len(),
                start_id < n,
                rules[i as int].start.lexem == Lexem::NonTerminal(start_id),
                follows@.len() == n,
                old(follows)@.len() == n,
                forall|a: int| 0 <= a < follows@.len() ==> (#[trigger] follows@[a]).size() <= NUM_TOKENS,
                follow_sound(rules, views(follows@)),
                forall|a: int| 0 <= a < old(follows)@.len() ==> (#[trigger] old(follows)@[a])@.subset_of(follows@[a]@),
                total_size(follows@) >= total_size(old(follows)@),
                changed ==> total_size(follows@) > total_size(old(follows)@),
                !changed ==> views(follows@) == views(old(follows)@),
                !changed ==> forall|j: int|
                    0 <= j < k ==> #[trigger] follow_step(rules, set_fn(views(follows@)), rules[i as int], j),
            decreases len - k,
        {
            let lexem = self.rules[i].production[k].lexem;
            proof {
                assert(w[k as int] == lexem);
            }
            match lexem {
                Lexem::Terminal(_) => {},
                Lexem::NonTerminal(b) => {
                    proof {
                        assert(lexem_in_range(rules[i as int].production@[k as int].lexem, n as nat));
                    }
                    let prod = self.rules[i].production.as_slice();
                    let (_, suffix) = prod.split_at(k + 1);
                    proof {
                        assert(lexems_of(suffix@) =~= w.skip(k + 1));
                        assert forall|j: int| 0 <= j < suffix@.len() implies lexem_in_range(
                            #[trigger] suffix@[j].lexem,
                            self.firsts_known(),
                        ) && lexem_in_range(suffix@[j].lexem, self.nullable_known()) by {
                            assert(suffix@[j] == rules[i as int].production@[k + 1 + j]);
                        }
                    }
                    let fs = self.get_word_firsts_unmut(suffix);
                    let ghost before = follows@;
                    let grew = follows[b].extend(&fs);
                    proof {
                        lemma_total_size_update(before, b as int, follows@[b as int]);
                        assert(follows@ == before.update(b as int, follows@[b as int]));
                        assert forall|a: int| 0 <= a < old(follows)@.len() implies (#[trigger] old(follows)@[a])@.subset_of(follows@[a]@) by {
                            assert(old(follows)@[a]@.subset_of(before[a]@));
                            if a != b {
                                assert(follows@[a] == before[a]);
                            }
                        }
                        assert forall|g: spec_fn(nat) -> Set<Token>| #[trigger] follow_closed(rules, g) implies forall|a: int|
                            0 <= a < views(follows@).len() ==> (#[trigger] views(follows@)[a]).subset_of(g(a as nat)) by {
                            assert(rhs(rules[i as int])[k as int] == lexem);
                            assert(follow_step(rules, g, rules[i as int], k as int));
                            assert forall|a: int| 0 <= a < views(follows@).len() implies (#[trigger] views(follows@)[a]).subset_of(g(a as nat)) by {
                                assert(views(before)[a].subset_of(g(a as nat)));
                            }
                        }
                        if !grew {
                            assert(follows@[b as int]@ =~= before[b as int]@);
                            assert forall|a: int| 0 <= a < n implies views(follows@)[a] == views(before)[a] by {
                                if a != b {
                                    assert(follows@[a] == before[a]);
                                }
                            }
                            assert(views(follows@) =~= views(before));
                        }
                    }
                    if grew {
                        changed = true;
                    }
                    if self.word_produces_empty_word_unmut(suffix) {
                        let copy = follows[start_id].duplicate();
                        let ghost before2 = follows@;
                        let grew2 = follows[b].extend(&copy);
                        proof {
                            lemma_total_size_update(before2, b as int, follows@[b as int]);
                            assert(follows@ == before2.update(b as int, follows@[b as int]));
                        assert forall|a: int| 0 <= a < old(follows)@.len() implies (#[trigger] old(follows)@[a])@.subset_of(follows@[a]@) by {
                            assert(old(follows)@[a]@.subset_of(before2[a]@));
                            if a != b {
                                assert(follows@[a] == before2[a]);
                            }
                        }
                            assert forall|g: spec_fn(nat) -> Set<Token>| #[trigger] follow_closed(rules, g) implies forall|a: int|
                                0 <= a < views(follows@).len() ==> (#[trigger] views(follows@)[a]).subset_of(g(a as nat)) by {
                                assert(rhs(rules[i as int])[k as int] == lexem);
                                assert(follow_step(rules, g, rules[i as int], k as int));
                                assert(views(before2)[start_id as int].subset_of(g(start_id as nat)));
                                assert forall|a: int| 0 <= a < views(follows@).len() implies (#[trigger] views(follows@)[a]).subset_of(g(a as nat)) by {
                                    assert(views(before2)[a].subset_of(g(a as nat)));
                                }
                            }
                            if !grew2 {
                                assert(follows@[b as int]@ =~= before2[b as int]@);
                                assert forall|a: int| 0 <= a < n implies views(follows@)[a] == views(before2)[a] by {
                                    if a != b {
                                        assert(follows@[a] == before2[a]);
                                    }
                                }
                                assert(views(follows@) =~= views(before2));
                            }
                        }
                        if grew2 {
                            changed = true;
                        }
                    }
                },
            }
            proof {
                if !changed {
                    let c = set_fn(views(follows@));
                    assert(follow_step(rules, c, rules[i as int], k as int));
                }
            }
            k = k + 1;
        }
        changed
    }

    /// Adds to the FIRST sets `firsts` what rule `i` contributes to its left-hand side;
    /// returns whether a set grew.
    fn add_rule_firsts(&self, firsts: &mut Vec<TokenSet>, i: usize) -> (changed: bool)
        requires
            self.wf(),
            self.nullable_computed(),
            i < self.rule_seq().len(),
            old(firsts)@.len() == self.nt_seq().len(),
            forall|a: int| 0 <= a < old(firsts)@.len() ==> (#[trigger] old(firsts)@[a]).size() <= NUM_TOKENS,
            first_sound(self.rule_seq(), views(old(firsts)@)),
        ensures
            final(firsts)@.len() == old(firsts)@.len(),
            forall|a: int| 0 <= a < final(firsts)@.len() ==> (#[trigger] final(firsts)@[a]).size() <= NUM_TOKENS,
            first_sound(self.rule_seq(), views(final(firsts)@)),
            total_size(final(firsts)@) >= total_size(old(firsts)@),
            changed ==> total_size(final(firsts)@) > total_size(old(firsts)@),
            !changed ==> views(final(firsts)@) == views(old(firsts)@),
            !changed ==> ({
                let rules = self.rule_seq();
                let c = set_fn(views(final(firsts)@));
                let a = rules[i as int].start.lexem->NonTerminal_0 as nat;
                word_first(rules, c, rhs(rules[i as int])).subset_of(c(a))
            }),
    {
        let ghost rules = self.rules@;
        let ghost w = rhs(rules[i as int]);
        let ghost n = self.non_terminal_lexems@.len();
        proof {
            assert(lexem_in_range(rules[i as int].start.lexem, n as nat));
        }
        let start_id = nonterminal_number(&self.rules[i].start.lexem);
        let len = self.rules[i].production.len();
        let mut changed = false;
        let mut k: usize = 0;
        while k < len
            invariant_except_break
                prefix_nullable(rules, w, k as int),
            invariant
                k <= len,
                len == w.len(),
                w == rhs(rules[i as int]),
                rules == self.rules@,
                n == self.non_terminal_lexems@.len(),
                self.wf(),
                self.nullable_computed(),
                i < rules.len(),
                start_id < n,
                rules[i as int].start.lexem == Lexem::NonTerminal(start_id),
                firsts@.len() == n,
                forall|a: int| 0 <= a < firsts@.len() ==> (#[trigger] firsts@[a]).size() <= NUM_TOKENS,
                first_sound(rules, views(firsts@)),
                total_size(firsts@) >= total_size(old(firsts)@),
                changed ==> total_size(firsts@) > total_size(old(firsts)@),
                !changed ==> views(firsts@) == views(old(firsts)@),
                !changed ==> forall|j: int|
                    0 <= j < k && prefix_nullable(rules, w, j) ==> contribution(set_fn(views(firsts@)), #[trigger] w[j]).subset_of(
                        set_fn(views(firsts@))(start_id as nat),
                    ),
            ensures
                firsts@.len() == n,
                forall|a: int| 0 <= a < firsts@.len() ==> (#[trigger] firsts@[a]).size() <= NUM_TOKENS,
                first_sound(rules, views(firsts@)),
                total_size(firsts@) >= total_size(old(firsts)@),
                changed ==> total_size(firsts@) > total_size(old(firsts)@),
                !changed ==> views(firsts@) == views(old(firsts)@),
                !changed ==> forall|j: int|
                    0 <= j < w.len() && prefix_nullable(rules, w, j) ==> contribution(set_fn(views(firsts@)), #[trigger] w[j]).subset_of(
                        set_fn(views(firsts@))(start_id as nat),
                    ),
            decreases len - k,
        {
            let lexem = self.rules[i].production[k].lexem;
            proof {
                assert(w[k as int] == lexem);
                assert(lexem_in_range(rules[i as int].production@[k as int].lexem, n as nat));
            }
            let ghost before = firsts@;
            match lexem {
                Lexem::Terminal(t) => {
                    let added = firsts[start_id].insert(t);
                    proof {
                        lemma_total_size_update(before, start_id as int, firsts@[start_id as int]);
                        assert(firsts@ == before.update(start_id as int, firsts@[start_id as int]));
                        assert forall|f: spec_fn(nat) -> Set<Token>| #[trigger] first_closed(rules, f) implies forall|a: int|
                            0 <= a < views(firsts@).len() ==> (#[trigger] views(firsts@)[a]).subset_of(f(a as nat)) by {
                            assert(contribution(f, w[k as int]).contains(t));
                            lemma_word_first_iff(rules, f, w, t);
                            assert(word_first(rules, f, w).subset_of(f(start_id as nat)));
                            assert forall|a: int| 0 <= a < views(firsts@).len() implies (#[trigger] views(firsts@)[a]).subset_of(f(a as nat)) by {
                                assert(views(before)[a].subset_of(f(a as nat)));
                            }
                        }
                        if !added {
                            assert(firsts@[start_id as int]@ =~= before[start_id as int]@);
                            assert forall|a: int| 0 <= a < n implies views(firsts@)[a] == views(before)[a] by {
                                if a != start_id {
                                    assert(firsts@[a] == before[a]);
                                }
                            }
                            assert(views(firsts@) =~= views(before));
                        }
                        assert forall|j: int| 0 <= j < w.len() && prefix_nullable(rules, w, j) implies j <= k by {
                            if j > k {
                                assert(lexem_nullable(rules, w[k as int]));
                            }
                        }
                    }
                    if added {
                        changed = true;
                    }
                    break;
                },
                Lexem::NonTerminal(b) => {
                    let copy = firsts[b].duplicate();
                    let grew = firsts[start_id].extend(&copy);
                    proof {
                        lemma_total_size_update(before, start_id as int, firsts@[start_id as int]);
                        assert(firsts@ == before.update(start_id as int, firsts@[start_id as int]));
                        assert forall|f: spec_fn(nat) -> Set<Token>| #[trigger] first_closed(rules, f) implies forall|a: int|
                            0 <= a < views(firsts@).len() ==> (#[trigger] views(firsts@)[a]).subset_of(f(a as nat)) by {
                            assert(views(before)[b as int].subset_of(f(b as nat)));
                            assert forall|t: Token| copy@.contains(t) implies f(start_id as nat).contains(t) by {
                                assert(contribution(f, w[k as int]).contains(t));
                                lemma_word_first_iff(rules, f, w, t);
                                assert(word_first(rules, f, w).subset_of(f(start_id as nat)));
                            }
                            assert forall|a: int| 0 <= a < views(firsts@).len() implies (#[trigger] views(firsts@)[a]).subset_of(f(a as nat)) by {
                                assert(views(before)[a].subset_of(f(a as nat)));
                            }
                        }
                        if !grew {
                            assert(firsts@[start_id as int]@ =~= before[start_id as int]@);
                            assert forall|a: int| 0 <= a < n implies views(firsts@)[a] == views(before)[a] by {
                                if a != start_id {
                                    assert(firsts@[a] == before[a]);
                                }
                            }
                            assert(views(firsts@) =~= views(before));
                        }
                    }
                    if grew {
                        changed = true;
                    }
                    if !self.produces_empty_word_unmut(&lexem) {
                        proof {
                            assert forall|j: int| 0 <= j < w.len() && prefix_nullable(rules, w, j) implies j <= k by {
                                if j > k {
                                    assert(lexem_nullable(rules, w[k as int]));
                                }
                            }
                        }
                        break;
                    }
                },
            }
            k = k + 1;
        }
        proof {
            if !changed {
                let c = set_fn(views(firsts@));
                assert forall|t: Token| word_first(rules, c, w).contains(t) implies c(start_id as nat).contains(t) by {
                    lemma_word_first_iff(rules, c, w, t);
                }
            }
        }
        changed
    }

    /// What a consistent grammar keeps of its rules and of its stored analyses: the
    /// rules only name known non-terminals, and each analysis marked up to date covers
    /// the non-terminals the rules name (the FOLLOW sets being FOLLOW itself).
    pub proof fn lemma_consistent(&self)
        requires
            self.wf(),
        ensures
            self.names().len() == self.nt_seq().len(),
            forall|i: int| 0 <= i < self.nt_seq().len() ==> (#[trigger] self.nt_seq()[i]).lexem == Lexem::NonTerminal(i as usize),
            forall|i: int| 0 <= i < self.nt_seq().len() ==> (#[trigger] self.nt_seq()[i]).name@ == self.names()[i],
            rules_in_range(self.rule_seq(), self.names().len()),
            self.nullable_computed() ==> starts_are_nonterminals(self.rule_seq()),
            self.nullable_computed() ==> rules_in_range(self.rule_seq(), self.nullable_known()),
            self.firsts_computed() ==> self.nullable_computed(),
            self.firsts_computed() ==> rules_in_range(self.rule_seq(), self.firsts_known()),
            self.follows_computed() ==> self.firsts_computed(),
            self.follows_computed() ==> rules_in_range(self.rule_seq(), self.follows_store().len()),
            self.follows_computed() ==> forall|a: int|
                0 <= a < self.follows_store().len() ==> #[trigger] self.follows_store()[a] == follow(self.rule_seq(), a as nat),
    {
        if self.follows_computed() {
            assert forall|a: int| 0 <= a < self.follows_store().len() implies #[trigger] self.follows_store()[a] == follow(
                self.rule_seq(),
                a as nat,
            ) by {
                assert(self.follows_store()[a] == self.follows@[a]@);
            }
        }
    }

    /// Number of rules.
    pub fn rule_count(&self) -> (n: usize)
        ensures
            n == self.rule_seq().len(),
    {
        self.rules.len()
    }

    /// The rule at position `i`.
    pub fn rule_at(&self, i: usize) -> (r: &Rule)
        requires
            i < self.rule_seq().len(),
        ensures
            *r == self.rule_seq()[i as int],
    {
        &self.rules[i]
    }

    /// The non-terminal numbered `i`.
    pub fn non_terminal_at(&self, i: usize) -> (p: &ParsedLexem)
        requires
            i < self.nt_seq().len(),
        ensures
            *p == self.nt_seq()[i as int],
    {
        &self.non_terminal_lexems[i]
    }

    /// Number of non-terminals.
    pub fn non_terminal_count(&self) -> (n: usize)
        ensures
            n == self.names().len(),
            n == self.nt_seq().len(),
    {
        self.non_terminal_lexems.len()
    }

    /// Whether every rule has a non-terminal on its left-hand side.
    pub(crate) fn starts_with_nonterminals(&self) -> (b: bool)
        ensures
            b == starts_are_nonterminals(self.rule_seq()),
    {
        let mut i: usize = 0;
        while i < self.rules.len()
            invariant
                i <= self.rules@.len(),
                forall|j: int| 0 <= j < i ==> (#[trigger] self.rules@[j]).start.lexem is NonTerminal,
            decreases self.rules@.len() - i,
        {
            match self.rules[i].start.lexem {
                Lexem::Terminal(_) => {
                    return false;
                },
                Lexem::NonTerminal(_) => {},
            }
            i = i + 1;
        }
        true
    }

    /// Adds the rule `start -> products`, looking up (and creating where needed) the
    /// symbols of `start` and then of each product in order. The analyses must be
    /// computed again afterwards.
    pub fn create_rule(&mut self, start: &str, products: Vec<String>)
        requires
            old(self).wf(),
        ensures
            final(self).wf(),
            ({
                let n1 = names_after(old(self).names(), start@);
                let ps = products@.map_values(|s: String| s@);
                let res = resolve_names(n1, ps);
                let r = final(self).rule_seq().last();
                &&& final(self).names() == res.0
                &&& final(self).rule_seq().len() == old(self).rule_seq().len() + 1
                &&& final(self).rule_seq().drop_last() == old(self).rule_seq()
                &&& r.id == old(self).rule_seq().len()
                &&& r.start.name@ == start@
                &&& r.start.lexem == lexem_for_name(old(self).names(), start@)
                &&& r.production@.map_values(|p: ParsedLexem| p.name@) == ps
                &&& rhs(r) == res.1
            }),
            !final(self).nullable_computed(),
            !final(self).firsts_computed(),
            !final(self).follows_computed(),
            final(self).follows_store() == old(self).follows_store(),
    {
        let ghost ps = products@.map_values(|s: String| s@);
        let id = self.rules.len();
        let start_lexem = self.get_lexem(start);
        proof {
            lemma_lexem_for_name_in_range(old(self).names(), start@);
        }
        let ghost n1 = self.names();
        let mut production: Vec<ParsedLexem> = Vec::new();
        let mut k: usize = 0;
        while k < products.len()
            invariant
                k <= products@.len(),
                ps == products@.map_values(|s: String| s@),
                self.wf(),
                n1.len() <= self.names().len(),
                lexem_in_range(start_lexem.lexem, self.names().len()),
                self.names() == resolve_names(n1, ps.take(k as int)).0,
                production@.map_values(|p: ParsedLexem| p.lexem) == resolve_names(n1, ps.take(k as int)).1,
                production@.map_values(|p: ParsedLexem| p.name@) == ps.take(k as int),
                forall|j: int| 0 <= j < production@.len() ==> lexem_in_range(#[trigger] production@[j].lexem, self.names().len()),
                self.rule_seq() == old(self).rule_seq(),
                self.follows_store() == old(self).follows_store(),
                id == old(self).rule_seq().len(),
            decreases products@.len() - k,
        {
            let ghost before = self.names();
            let l = self.get_lexem(products[k].as_str());
            proof {
                lemma_lexem_for_name_in_range(before, ps[k as int]);
                assert(ps.take(k + 1).drop_last() =~= ps.take(k as int));
            }
            production.push(l);
            proof {
                assert(production@.map_values(|p: ParsedLexem| p.lexem) =~= resolve_names(n1, ps.take(k + 1)).1);
                assert(production@.map_values(|p: ParsedLexem| p.name@) =~= ps.take(k + 1));
            }
            k = k + 1;
        }
        proof {
            assert(ps.take(k as int) =~= ps);
        }
        self.rules.push(Rule { id, start: start_lexem, production });
        self.empty_word_producers_computed = false;
        self.firsts_computed = false;
        self.follows_computed = false;
        proof {
            assert(self.rule_seq().drop_last() =~= old(self).rule_seq());
            let rs = self.rule_seq();
            let n = self.non_terminal_lexems@.len();
            assert forall|i: int, j: int|
                0 <= i < rs.len() && 0 <= j < rs[i].production@.len() implies lexem_in_range(
                    #[trigger] rs[i].production@[j].lexem,
                    n,
                ) by {
                if i < rs.len() - 1 {
                    assert(rs[i] == old(self).rule_seq()[i]);
                }
            }
            assert forall|i: int| 0 <= i < rs.len() implies lexem_in_range((#[trigger] rs[i]).start.lexem, n) by {
                if i < rs.len() - 1 {
                    assert(rs[i] == old(self).rule_seq()[i]);
                }
            }
        }
    }
}

/// The number of the non-terminal `l`.
fn nonterminal_number(l: &Lexem) -> (id: usize)
    requires
        l is NonTerminal,
    ensures
        *l == Lexem::NonTerminal(id),
{
    match l {
        Lexem::NonTerminal(id) => *id,
        Lexem::Terminal(_) => 0,
    }
}

/// Whether every symbol of `word` is a non-terminal marked in `marks`.
fn word_marked(word: &Vec<ParsedLexem>, marks: &Vec<bool>) -> (r: bool)
    requires
        forall|k: int| 0 <= k < word@.len() ==> lexem_in_range(#[trigger] word@[k].lexem, marks@.len()),
    ensures
        r == word_in(lexems_of(word@), bool_set(marks@)),
{
    let mut k: usize = 0;
    while k < word.len()
        invariant
            k <= word@.len(),
            forall|j: int| 0 <= j < word@.len() ==> lexem_in_range(#[trigger] word@[j].lexem, marks@.len()),
            forall|j: int|
                0 <= j < k ==> match #[trigger] lexems_of(word@)[j] {
                    Lexem::Terminal(_) => false,
                    Lexem::NonTerminal(id) => bool_set(marks@).contains(id as nat),
                },
        decreases word@.len() - k,
    {
        match word[k].lexem {
            Lexem::Terminal(_) => {
                assert(lexems_of(word@)[k as int] == word@[k as int].lexem);
                return false;
            },
            Lexem::NonTerminal(id) => {
                assert(lexems_of(word@)[k as int] == word@[k as int].lexem);
                if !marks[id] {
                    return false;
                }
            },
        }
        k = k + 1;
    }
    true
}

proof fn lemma_lexem_for_name_in_range(names: Seq<Seq<char>>, name: Seq<char>)
    ensures
        lexem_in_range(lexem_for_name(names, name), names_after(names, name).len()),
        names.len() <= names_after(names, name).len(),
{
    if terminal_of_name(name) is None && names.contains(name) {
        let i = names.index_of(name);
        assert(0 <= i < names.len());
    }
}

/// The token kind spelled `name` in grammar files, if any.
fn terminal_named(name: &[char]) -> (r: Option<Token>)
    ensures
        r == terminal_of_name(name@),
{
    let mut i: usize = 0;
    while i < NUM_TOKENS
        invariant
            i <= NUM_TOKENS,
            find_terminal(name@, 0) == find_terminal(name@, i as nat),
        decreases NUM_TOKENS - i,
    {
        let t = Token::from_id(i);
        let spelled = chars_of(t.repr());
        if chars_eq(spelled.as_slice(), name) {
            return Some(t);
        }
        i = i + 1;
    }
    None
}

/// Looking a name up a second time gives the symbol the first lookup gave and adds no
/// non-terminal (what `Grammar::get_lexem` does, given unique names).
pub proof fn lemma_lookup_idempotent(names: Seq<Seq<char>>, name: Seq<char>)
    requires
        names.no_duplicates(),
    ensures
        names_after(names_after(names, name), name) == names_after(names, name),
        lexem_for_name(names_after(names, name), name) == lexem_for_name(names, name),
        names_after(names, name).no_duplicates(),
{
    if terminal_of_name(name) is None && !names.contains(name) {
        let n1 = names.push(name);
        assert(n1[names.len() as int] == name);
        assert(n1.contains(name));
        let i = n1.index_of(name);
        assert(0 <= i < n1.len() && n1[i] == name);
        if i < names.len() {
            assert(names[i] == name);
        }
        assert(n1.no_duplicates()) by {
            assert forall|j: int, k: int| 0 <= j < n1.len() && 0 <= k < n1.len() && j != k implies n1[j] != n1[k] by {
                if j < names.len() && k < names.len() {
                } else if j < names.len() {
                    assert(names[j] != name);
                } else if k < names.len() {
                    assert(names[k] != name);
                }
            }
        }
    }
}

/// Searching the token kinds from position `i` finds `t` when `i` does not pass it.
proof fn lemma_find_terminal(t: Token, i: nat)
    requires
        i <= t.index(),
    ensures
        find_terminal(t.grammar_name(), i) == Some(t),
    decreases t.index() - i,
{
    crate::token::lemma_token_index_bijection();
    if i < t.index() {
        assert(token_at(i) != t);
        lemma_spellings_distinct(token_at(i), t);
        lemma_find_terminal(t, i + 1);
    }
}

/// Each reserved spelling names its own token kind, whatever the non-terminals known so
/// far: `get_lexem` gives that terminal and adds no non-terminal.
pub proof fn lemma_reserved_name_resolves(names: Seq<Seq<char>>, t: Token)
    ensures
        terminal_of_name(reserved_spellings()[t.index() as int]) == Some(t),
        lexem_for_name(names, reserved_spellings()[t.index() as int]) == Lexem::Terminal(t),
        names_after(names, reserved_spellings()[t.index() as int]) == names,
{
    lemma_reserved_spelling(t);
    lemma_find_terminal(t, 0);
}

} // verus!
