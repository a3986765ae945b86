use vstd::prelude::*;

use crate::grammar::{lexem_in_range, rules_in_range, Lexem, ParsedLexem, Rule};
use crate::token::{Token, TokenSet};

verus! {

/// The symbols of the right-hand side of a rule.
pub open spec fn rhs(r: Rule) -> Seq<Lexem> {
    lexems_of(r.production@)
}

/// The symbols of a word of parsed symbols.
pub open spec fn lexems_of(w: Seq<ParsedLexem>) -> Seq<Lexem> {
    w.map_values(|p: ParsedLexem| p.lexem)
}

/// Every symbol of `w` is a non-terminal that belongs to `s`.
pub open spec fn word_in(w: Seq<Lexem>, s: Set<nat>) -> bool {
    forall|k: int|
        0 <= k < w.len() ==> match #[trigger] w[k] {
            Lexem::Terminal(_) => false,
            Lexem::NonTerminal(id) => s.contains(id as nat),
        }
}

/// `s` is closed under the rules: whenever all the symbols of a right-hand side are
/// non-terminals of `s`, the left-hand side belongs to `s`.
pub open spec fn nullable_closed(rules: Seq<Rule>, s: Set<nat>) -> bool {
    forall|i: int|
        0 <= i < rules.len() && word_in(rhs(#[trigger] rules[i]), s) ==> match rules[i].start.lexem {
            Lexem::NonTerminal(a) => s.contains(a as nat),
            Lexem::Terminal(_) => true,
        }
}

/// Non-terminal `a` derives the empty word: it belongs to every set closed under the rules.
pub open spec fn nullable(rules: Seq<Rule>, a: nat) -> bool {
    forall|s: Set<nat>| #[trigger] nullable_closed(rules, s) ==> s.contains(a)
}

/// The symbol is a non-terminal that derives the empty word.
pub open spec fn lexem_nullable(rules: Seq<Rule>, l: Lexem) -> bool {
    match l {
        Lexem::Terminal(_) => false,
        Lexem::NonTerminal(a) => nullable(rules, a as nat),
    }
}

/// The first `k` symbols of `w` are non-terminals deriving the empty word.
pub open spec fn prefix_nullable(rules: Seq<Rule>, w: Seq<Lexem>, k: int) -> bool {
    forall|j: int| 0 <= j < k ==> lexem_nullable(rules, #[trigger] w[j])
}

/// The word `w` derives the empty word.
pub open spec fn word_nullable(rules: Seq<Rule>, w: Seq<Lexem>) -> bool {
    prefix_nullable(rules, w, w.len() as int)
}

/// The set of positions holding `true`.
pub open spec fn bool_set(p: Seq<bool>) -> Set<nat> {
    Set::new(|a: nat| a < p.len() && p[a as int])
}

/// The rule's right-hand side lies in `s` only if its left-hand side does.
pub open spec fn rule_respects(r: Rule, s: Set<nat>) -> bool {
    word_in(rhs(r), s) ==> match r.start.lexem {
        Lexem::NonTerminal(a) => s.contains(a as nat),
        Lexem::Terminal(_) => true,
    }
}

pub proof fn lemma_word_in_mono(w: Seq<Lexem>, s1: Set<nat>, s2: Set<nat>)
    requires
        word_in(w, s1),
        s1.subset_of(s2),
    ensures
        word_in(w, s2),
{
    assert forall|k: int| 0 <= k < w.len() implies match #[trigger] w[k] {
        Lexem::Terminal(_) => false,
        Lexem::NonTerminal(id) => s2.contains(id as nat),
    } by {
        assert(match w[k] {
            Lexem::Terminal(_) => false,
            Lexem::NonTerminal(id) => s1.contains(id as nat),
        });
    }
}

/// A non-terminal that no rule mentions does not derive the empty word.
pub proof fn lemma_not_nullable_beyond(rules: Seq<Rule>, m: nat, a: nat)
    requires
        rules_in_range(rules, m),
        a >= m,
    ensures
        !nullable(rules, a),
{
    let s = Set::new(|b: nat| b < m);
    assert forall|i: int| 0 <= i < rules.len() && word_in(rhs(#[trigger] rules[i]), s) implies match rules[i].start.lexem {
        Lexem::NonTerminal(b) => s.contains(b as nat),
        Lexem::Terminal(_) => true,
    } by {
        assert(lexem_in_range(rules[i].start.lexem, m));
    }
    assert(nullable_closed(rules, s));
}


/// What the symbol `l` contributes to the tokens that can begin a word, given the
/// FIRST sets `f` of the non-terminals.
pub open spec fn contribution(f: spec_fn(nat) -> Set<Token>, l: Lexem) -> Set<Token> {
    match l {
        Lexem::Terminal(t) => Set::empty().insert(t),
        Lexem::NonTerminal(b) => f(b as nat),
    }
}

/// The tokens that can begin a word derived from `w`, given FIRST sets `f` of the
/// non-terminals: the contributions of each symbol of `w` up to the first one that
/// does not derive the empty word.
pub open spec fn word_first(rules: Seq<Rule>, f: spec_fn(nat) -> Set<Token>, w: Seq<Lexem>) -> Set<Token>
    decreases w.len(),
{
    if w.len() == 0 {
        Set::empty()
    } else if lexem_nullable(rules, w[0]) {
        contribution(f, w[0]).union(word_first(rules, f, w.skip(1)))
    } else {
        contribution(f, w[0])
    }
}

/// `f` is closed under the rules: the tokens that can begin each right-hand side
/// belong to the set of its left-hand side.
pub open spec fn first_closed(rules: Seq<Rule>, f: spec_fn(nat) -> Set<Token>) -> bool {
    forall|i: int|
        0 <= i < rules.len() ==> match (#[trigger] rules[i]).start.lexem {
            Lexem::NonTerminal(a) => word_first(rules, f, rhs(rules[i])).subset_of(f(a as nat)),
            Lexem::Terminal(_) => true,
        }
}

/// FIRST(a): the tokens that belong to the set of `a` in every family closed under the rules.
pub open spec fn first(rules: Seq<Rule>, a: nat) -> Set<Token> {
    Set::new(
        |t: Token|
            forall|f: spec_fn(nat) -> Set<Token>| #[trigger] first_closed(rules, f) ==> f(a).contains(t),
    )
}

/// The FIRST sets of all non-terminals.
pub open spec fn first_fn(rules: Seq<Rule>) -> spec_fn(nat) -> Set<Token> {
    |a: nat| first(rules, a)
}

/// A family of sets given by a sequence (empty beyond its end).
pub open spec fn set_fn(v: Seq<Set<Token>>) -> spec_fn(nat) -> Set<Token> {
    |a: nat| if a < v.len() { v[a as int] } else { Set::<Token>::empty() }
}

/// The sets that a sequence of token sets holds.
pub open spec fn views(v: Seq<TokenSet>) -> Seq<Set<Token>> {
    v.map_values(|s: TokenSet| s@)
}

/// Every set of `v` lies within the set of the same non-terminal in every family closed
/// under the rules.
pub open spec fn first_sound(rules: Seq<Rule>, v: Seq<Set<Token>>) -> bool {
    forall|f: spec_fn(nat) -> Set<Token>|
        #[trigger] first_closed(rules, f) ==> forall|a: int| 0 <= a < v.len() ==> (#[trigger] v[a]).subset_of(f(a as nat))
}

/// Token `t` can begin `w` exactly when some symbol of `w`, preceded only by symbols
/// deriving the empty word, contributes it.
pub proof fn lemma_word_first_iff(rules: Seq<Rule>, f: spec_fn(nat) -> Set<Token>, w: Seq<Lexem>, t: Token)
    ensures
        word_first(rules, f, w).contains(t) <==> exists|k: int|
            0 <= k < w.len() && prefix_nullable(rules, w, k) && #[trigger] contribution(f, w[k]).contains(t),
    decreases w.len(),
{
    if w.len() > 0 {
        let w1 = w.skip(1);
        lemma_word_first_iff(rules, f, w1, t);
        if word_first(rules, f, w).contains(t) {
            if contribution(f, w[0]).contains(t) {
                assert(prefix_nullable(rules, w, 0));
            } else {
                let k1 = choose|k1: int|
                    0 <= k1 < w1.len() && prefix_nullable(rules, w1, k1) && #[trigger] contribution(f, w1[k1]).contains(t);
                assert forall|j: int| 0 <= j < k1 + 1 implies lexem_nullable(rules, #[trigger] w[j]) by {
                    if j > 0 {
                        assert(w[j] == w1[j - 1]);
                    }
                }
                assert(w1[k1] == w[k1 + 1]);
                assert(contribution(f, w[k1 + 1]).contains(t));
            }
        }
        if exists|k: int| 0 <= k < w.len() && prefix_nullable(rules, w, k) && #[trigger] contribution(f, w[k]).contains(t) {
            let k = choose|k: int|
                0 <= k < w.len() && prefix_nullable(rules, w, k) && #[trigger] contribution(f, w[k]).contains(t);
            if k > 0 {
                assert(lexem_nullable(rules, w[0]));
                assert forall|j: int| 0 <= j < k - 1 implies lexem_nullable(rules, #[trigger] w1[j]) by {
                    assert(w1[j] == w[j + 1]);
                }
                assert(w1[k - 1] == w[k]);
                assert(contribution(f, w1[k - 1]).contains(t));
            }
        }
    }
}

/// What position `k` of rule `r` requires of a family `g` of FOLLOW sets: when it holds
/// non-terminal `b`, the tokens that can begin the rest of the rule follow `b`, and
/// when the rest can vanish, whatever follows the left-hand side follows `b`.
pub open spec fn follow_step(rules: Seq<Rule>, g: spec_fn(nat) -> Set<Token>, r: Rule, k: int) -> bool {
    let w = rhs(r);
    match w[k] {
        Lexem::Terminal(_) => true,
        Lexem::NonTerminal(b) => {
            &&& word_first(rules, first_fn(rules), w.skip(k + 1)).subset_of(g(b as nat))
            &&& word_nullable(rules, w.skip(k + 1)) ==> match r.start.lexem {
                Lexem::NonTerminal(a) => g(a as nat).subset_of(g(b as nat)),
                Lexem::Terminal(_) => true,
            }
        },
    }
}

/// `g` is closed under the rules: the end of input follows non-terminal 0 (the axiom),
/// and every position of every rule respects `follow_step`.
pub open spec fn follow_closed(rules: Seq<Rule>, g: spec_fn(nat) -> Set<Token>) -> bool {
    &&& g(0).contains(Token::EOF)
    &&& forall|i: int, k: int|
        #![trigger rhs(rules[i])[k]]
        0 <= i < rules.len() && 0 <= k < rhs(rules[i]).len() ==> follow_step(rules, g, rules[i], k)
}

/// FOLLOW(a): the tokens that belong to the set of `a` in every family closed under the rules.
pub open spec fn follow(rules: Seq<Rule>, a: nat) -> Set<Token> {
    Set::new(
        |t: Token|
            forall|g: spec_fn(nat) -> Set<Token>| #[trigger] follow_closed(rules, g) ==> g(a).contains(t),
    )
}

/// Every set of `v` lies within the set of the same non-terminal in every family closed
/// under the rules.
pub open spec fn follow_sound(rules: Seq<Rule>, v: Seq<Set<Token>>) -> bool {
    forall|g: spec_fn(nat) -> Set<Token>|
        #[trigger] follow_closed(rules, g) ==> forall|a: int| 0 <= a < v.len() ==> (#[trigger] v[a]).subset_of(g(a as nat))
}

/// Sum of the sizes of a sequence of token sets.
pub open spec fn total_size(v: Seq<TokenSet>) -> nat
    decreases v.len(),
{
    if v.len() == 0 {
        0
    } else {
        total_size(v.drop_last()) + v.last().size()
    }
}

pub proof fn lemma_total_size_update(v: Seq<TokenSet>, a: int, x: TokenSet)
    requires
        0 <= a < v.len(),
    ensures
        total_size(v.update(a, x)) + v[a].size() == total_size(v) + x.size(),
    decreases v.len(),
{
    let u = v.update(a, x);
    if a == v.len() - 1 {
        assert(u.drop_last() =~= v.drop_last());
    } else {
        assert(u.drop_last() =~= v.drop_last().update(a, x));
        lemma_total_size_update(v.drop_last(), a, x);
    }
}

pub proof fn lemma_total_size_bound(v: Seq<TokenSet>, m: nat)
    requires
        forall|a: int| 0 <= a < v.len() ==> (#[trigger] v[a]).size() <= m,
    ensures
        total_size(v) <= v.len() * m,
    decreases v.len(),
{
    if v.len() > 0 {
        lemma_total_size_bound(v.drop_last(), m);
        assert(v.last().size() <= m);
        assert(total_size(v) <= (v.len() - 1) * m + m);
        assert((v.len() - 1) * m + m == v.len() * m) by (nonlinear_arith);
    }
}

/// Rule `r` has non-terminal `a` on its left-hand side.
pub open spec fn rule_of(r: Rule, a: nat) -> bool {
    r.start.lexem is NonTerminal && r.start.lexem->NonTerminal_0 as nat == a
}

/// The non-terminals deriving the empty word, as a set.
pub open spec fn nullable_set(rules: Seq<Rule>) -> Set<nat> {
    Set::new(|a: nat| nullable(rules, a))
}

/// The set of non-terminals deriving the empty word is itself closed under the rules:
/// whenever every symbol of a right-hand side derives the empty word, so does its
/// left-hand side. Being included in every closed set, it is the least one.
pub proof fn lemma_nullable_closed(rules: Seq<Rule>)
    ensures
        nullable_closed(rules, nullable_set(rules)),
        forall|s: Set<nat>| #[trigger] nullable_closed(rules, s) ==> nullable_set(rules).subset_of(s),
{
    let n = nullable_set(rules);
    assert forall|s: Set<nat>| #[trigger] nullable_closed(rules, s) implies n.subset_of(s) by {
        assert forall|a: nat| n.contains(a) implies s.contains(a) by {
            assert(nullable(rules, a));
        }
    }
    assert forall|i: int| 0 <= i < rules.len() && word_in(rhs(#[trigger] rules[i]), n) implies match rules[i].start.lexem {
        Lexem::NonTerminal(a) => n.contains(a as nat),
        Lexem::Terminal(_) => true,
    } by {
        if let Lexem::NonTerminal(a) = rules[i].start.lexem {
            assert forall|s: Set<nat>| #[trigger] nullable_closed(rules, s) implies s.contains(a as nat) by {
                assert(n.subset_of(s));
                lemma_word_in_mono(rhs(rules[i]), n, s);
            }
        }
    }
}

/// A word derives the empty word exactly when all its symbols are non-terminals that do.
pub proof fn lemma_word_nullable_in(rules: Seq<Rule>, w: Seq<Lexem>)
    ensures
        word_nullable(rules, w) <==> word_in(w, nullable_set(rules)),
{
    if word_nullable(rules, w) {
        assert forall|k: int| 0 <= k < w.len() implies match #[trigger] w[k] {
            Lexem::Terminal(_) => false,
            Lexem::NonTerminal(id) => nullable_set(rules).contains(id as nat),
        } by {
            assert(lexem_nullable(rules, w[k]));
        }
    }
    if word_in(w, nullable_set(rules)) {
        assert forall|j: int| 0 <= j < w.len() implies lexem_nullable(rules, #[trigger] w[j]) by {
            assert(match w[j] {
                Lexem::Terminal(_) => false,
                Lexem::NonTerminal(id) => nullable_set(rules).contains(id as nat),
            });
        }
    }
}

/// A non-terminal derives the empty word exactly when one of its rules has a
/// right-hand side that derives the empty word.
pub proof fn lemma_nullable_equation(rules: Seq<Rule>, a: nat)
    ensures
        nullable(rules, a) <==> exists|i: int|
            0 <= i < rules.len() && rule_of(#[trigger] rules[i], a) && word_nullable(rules, rhs(rules[i])),
{
    lemma_nullable_closed(rules);
    let m = Set::new(
        |b: nat|
            exists|i: int|
                0 <= i < rules.len() && rule_of(#[trigger] rules[i], b) && word_nullable(rules, rhs(rules[i])),
    );
    assert forall|i: int| 0 <= i < rules.len() && word_in(rhs(#[trigger] rules[i]), m) implies match rules[i].start.lexem {
        Lexem::NonTerminal(b) => m.contains(b as nat),
        Lexem::Terminal(_) => true,
    } by {
        if let Lexem::NonTerminal(b) = rules[i].start.lexem {
            assert(m.subset_of(nullable_set(rules))) by {
                assert forall|c: nat| m.contains(c) implies nullable_set(rules).contains(c) by {
                    let j = choose|j: int|
                        0 <= j < rules.len() && rule_of(#[trigger] rules[j], c) && word_nullable(rules, rhs(rules[j]));
                    lemma_word_nullable_in(rules, rhs(rules[j]));
                }
            }
            lemma_word_in_mono(rhs(rules[i]), m, nullable_set(rules));
            lemma_word_nullable_in(rules, rhs(rules[i]));
        }
    }
    assert(nullable_closed(rules, m));
    if nullable(rules, a) {
        assert(nullable_set(rules).contains(a));
        assert(m.contains(a));
    }
    if exists|i: int|
        0 <= i < rules.len() && rule_of(#[trigger] rules[i], a) && word_nullable(rules, rhs(rules[i])) {
        let i = choose|i: int|
            0 <= i < rules.len() && rule_of(#[trigger] rules[i], a) && word_nullable(rules, rhs(rules[i]));
        lemma_word_nullable_in(rules, rhs(rules[i]));
        assert(nullable_set(rules).contains(a));
    }
}

/// Larger FIRST sets give larger sets of tokens that can begin a word.
pub proof fn lemma_word_first_mono(rules: Seq<Rule>, f1: spec_fn(nat) -> Set<Token>, f2: spec_fn(nat) -> Set<Token>, w: Seq<Lexem>)
    requires
        forall|a: nat| #[trigger] f1(a).subset_of(f2(a)),
    ensures
        word_first(rules, f1, w).subset_of(word_first(rules, f2, w)),
    decreases w.len(),
{
    if w.len() > 0 {
        lemma_word_first_mono(rules, f1, f2, w.skip(1));
        if let Lexem::NonTerminal(b) = w[0] {
            assert(f1(b as nat).subset_of(f2(b as nat)));
        }
    }
}

/// The FIRST sets are themselves closed under the rules: the tokens that can begin a
/// right-hand side belong to FIRST of its left-hand side. Being included in every
/// closed family, they are the least one.
pub proof fn lemma_first_closed(rules: Seq<Rule>)
    ensures
        first_closed(rules, first_fn(rules)),
        forall|f: spec_fn(nat) -> Set<Token>, a: nat| #[trigger] first_closed(rules, f) ==> first(rules, a).subset_of(#[trigger] f(a)),
{
    let ff = first_fn(rules);
    assert forall|f: spec_fn(nat) -> Set<Token>, a: nat| #[trigger] first_closed(rules, f) implies first(rules, a).subset_of(#[trigger] f(a)) by {
        assert forall|t: Token| first(rules, a).contains(t) implies f(a).contains(t) by {
            assert(forall|g: spec_fn(nat) -> Set<Token>| #[trigger] first_closed(rules, g) ==> g(a).contains(t));
        }
    }
    assert forall|i: int| 0 <= i < rules.len() implies match (#[trigger] rules[i]).start.lexem {
        Lexem::NonTerminal(a) => word_first(rules, ff, rhs(rules[i])).subset_of(ff(a as nat)),
        Lexem::Terminal(_) => true,
    } by {
        if let Lexem::NonTerminal(a) = rules[i].start.lexem {
            assert forall|t: Token| word_first(rules, ff, rhs(rules[i])).contains(t) implies ff(a as nat).contains(t) by {
                assert forall|f: spec_fn(nat) -> Set<Token>| #[trigger] first_closed(rules, f) implies f(a as nat).contains(t) by {
                    assert forall|b: nat| #[trigger] ff(b).subset_of(f(b)) by {
                        assert(first(rules, b).subset_of(f(b)));
                    }
                    lemma_word_first_mono(rules, ff, f, rhs(rules[i]));
                    assert(match rules[i].start.lexem {
                        Lexem::NonTerminal(a) => word_first(rules, f, rhs(rules[i])).subset_of(f(a as nat)),
                        Lexem::Terminal(_) => true,
                    });
                }
            }
        }
    }
}

/// FIRST of a non-terminal is exactly what can begin the right-hand side of one of its
/// rules.
pub proof fn lemma_first_equation(rules: Seq<Rule>, a: nat, t: Token)
    ensures
        first(rules, a).contains(t) <==> exists|i: int|
            0 <= i < rules.len() && rule_of(#[trigger] rules[i], a) && word_first(rules, first_fn(rules), rhs(rules[i])).contains(t),
{
    lemma_first_closed(rules);
    let ff = first_fn(rules);
    let g = |b: nat|
        Set::new(
            |u: Token|
                exists|i: int|
                    0 <= i < rules.len() && rule_of(#[trigger] rules[i], b) && word_first(rules, ff, rhs(rules[i])).contains(u),
        );
    assert forall|b: nat| #[trigger] g(b).subset_of(ff(b)) by {
        assert forall|u: Token| #[trigger] g(b).contains(u) implies ff(b).contains(u) by {
            let i = choose|i: int|
                0 <= i < rules.len() && rule_of(#[trigger] rules[i], b) && word_first(rules, ff, rhs(rules[i])).contains(u);
            assert(match rules[i].start.lexem {
                Lexem::NonTerminal(a) => word_first(rules, ff, rhs(rules[i])).subset_of(ff(a as nat)),
                Lexem::Terminal(_) => true,
            });
        }
    }
    assert forall|i: int| 0 <= i < rules.len() implies match (#[trigger] rules[i]).start.lexem {
        Lexem::NonTerminal(b) => word_first(rules, g, rhs(rules[i])).subset_of(g(b as nat)),
        Lexem::Terminal(_) => true,
    } by {
        if let Lexem::NonTerminal(b) = rules[i].start.lexem {
            lemma_word_first_mono(rules, g, ff, rhs(rules[i]));
            assert forall|u: Token| #[trigger] word_first(rules, g, rhs(rules[i])).contains(u) implies g(b as nat).contains(u) by {
                assert(rule_of(rules[i], b as nat));
            }
        }
    }
    assert(first_closed(rules, g));
    if first(rules, a).contains(t) {
        assert(first(rules, a).subset_of(g(a)));
    }
}

/// The FOLLOW sets of all non-terminals.
pub open spec fn follow_fn(rules: Seq<Rule>) -> spec_fn(nat) -> Set<Token> {
    |a: nat| follow(rules, a)
}

/// The FOLLOW sets are themselves closed under the rules: the end of input follows the
/// axiom, and every position of every rule respects `follow_step`. Being included in
/// every closed family, they are the least one.
pub proof fn lemma_follow_closed(rules: Seq<Rule>)
    ensures
        follow_closed(rules, follow_fn(rules)),
        forall|g: spec_fn(nat) -> Set<Token>, a: nat| #[trigger] follow_closed(rules, g) ==> follow(rules, a).subset_of(#[trigger] g(a)),
{
    let fw = follow_fn(rules);
    assert forall|g: spec_fn(nat) -> Set<Token>, a: nat| #[trigger] follow_closed(rules, g) implies follow(rules, a).subset_of(#[trigger] g(a)) by {
        assert forall|t: Token| follow(rules, a).contains(t) implies g(a).contains(t) by {
            assert(forall|h: spec_fn(nat) -> Set<Token>| #[trigger] follow_closed(rules, h) ==> h(a).contains(t));
        }
    }
    assert(fw(0).contains(Token::EOF));
    assert forall|i: int, k: int|
        #![trigger rhs(rules[i])[k]]
        0 <= i < rules.len() && 0 <= k < rhs(rules[i]).len() implies follow_step(rules, fw, rules[i], k) by {
        let w = rhs(rules[i]);
        if let Lexem::NonTerminal(b) = w[k] {
            assert forall|t: Token| #[trigger] word_first(rules, first_fn(rules), w.skip(k + 1)).contains(t) implies fw(b as nat).contains(t) by {
                assert forall|g: spec_fn(nat) -> Set<Token>| #[trigger] follow_closed(rules, g) implies g(b as nat).contains(t) by {
                    assert(follow_step(rules, g, rules[i], k));
                }
            }
            if word_nullable(rules, w.skip(k + 1)) {
                if let Lexem::NonTerminal(a) = rules[i].start.lexem {
                    assert forall|t: Token| #[trigger] fw(a as nat).contains(t) implies fw(b as nat).contains(t) by {
                        assert forall|g: spec_fn(nat) -> Set<Token>| #[trigger] follow_closed(rules, g) implies g(b as nat).contains(t) by {
                            assert(follow_step(rules, g, rules[i], k));
                            assert(follow(rules, a as nat).subset_of(g(a as nat)));
                        }
                    }
                }
            }
        }
    }
}

} // verus!
