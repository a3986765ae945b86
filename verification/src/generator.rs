use vstd::prelude::*;
use vstd::string::StrSliceExecFns;

use crate::grammar::{
    lexem_for_name, names_after, resolve_names, starts_are_nonterminals, Grammar, Lexem,
    ParsedLexem, Rule,
};
use crate::derivation::rhs;
use crate::token::Token;
use crate::analysis_table::{table_of_grammar, AnalysisTable};
use crate::text::{
    chars_of, count_char, join_with, lemma_split_on_joins, split_chars, split_on, string_of_chars, strip_comment_lines,
    strip_comments, texts,
};

verus! {

/// Positions of the double quotes in `s`, in increasing order.
pub open spec fn quote_indices(s: Seq<char>) -> Seq<int>
    decreases s.len(),
{
    if s.len() == 0 {
        Seq::empty()
    } else {
        let q = quote_indices(s.drop_last());
        if s.last() == '"' {
            q.push(s.len() - 1)
        } else {
            q
        }
    }
}

/// The positions of the quotes lie in `s`, hold quotes, and increase; every quote is listed.
pub proof fn lemma_quote_indices(s: Seq<char>)
    ensures
        forall|k: int| 0 <= k < quote_indices(s).len() ==> 0 <= #[trigger] quote_indices(s)[k] < s.len(),
        forall|k: int| 0 <= k < quote_indices(s).len() ==> s[#[trigger] quote_indices(s)[k]] == '"',
        forall|k: int, l: int|
            0 <= k < l < quote_indices(s).len() ==> #[trigger] quote_indices(s)[k] < #[trigger] quote_indices(s)[l],
        forall|i: int| 0 <= i < s.len() && s[i] == '"' ==> quote_indices(s).contains(i),
    decreases s.len(),
{
    if s.len() > 0 {
        lemma_quote_indices(s.drop_last());
        let q = quote_indices(s.drop_last());
        assert forall|i: int| 0 <= i < s.len() && s[i] == '"' implies quote_indices(s).contains(i) by {
            if i < s.len() - 1 {
                assert(s.drop_last()[i] == s[i]);
                let k = choose|k: int| 0 <= k < q.len() && q[k] == i;
                assert(quote_indices(s)[k] == i);
            } else {
                assert(quote_indices(s)[quote_indices(s).len() - 1] == i);
            }
        }
    }
}

/// The names written between pairs of double quotes in `s`: the text between the first
/// and second quote, then between the third and fourth, and so on.
pub open spec fn quoted_names(s: Seq<char>) -> Seq<Seq<char>> {
    let q = quote_indices(s);
    Seq::new(q.len() / 2, |j: int| s.subrange(q[2 * j] + 1, q[2 * j + 1]))
}

/// The name that `parse_lexem_name` reads is the first of those that
/// `parse_all_lexem_names` reads.
pub proof fn lemma_first_quoted_name(s: Seq<char>)
    requires
        quote_indices(s).len() >= 2,
    ensures
        quoted_names(s).len() >= 1,
        quoted_names(s)[0] == s.subrange(quote_indices(s)[0] + 1, quote_indices(s)[1]),
{
}

/// Positions of the double quotes in `cs`, in increasing order.
fn quote_positions(cs: &[char]) -> (v: Vec<usize>)
    ensures
        v@.len() == quote_indices(cs@).len(),
        forall|k: int| 0 <= k < v@.len() ==> v@[k] as int == #[trigger] quote_indices(cs@)[k],
{
    let mut v: Vec<usize> = Vec::new();
    let mut i: usize = 0;
    while i < cs.len()
        invariant
            i <= cs@.len(),
            v@.len() == quote_indices(cs@.take(i as int)).len(),
            forall|k: int| 0 <= k < v@.len() ==> v@[k] as int == #[trigger] quote_indices(cs@.take(i as int))[k],
        decreases cs@.len() - i,
    {
        assert(cs@.take(i + 1).drop_last() =~= cs@.take(i as int));
        if cs[i] == '"' {
            v.push(i);
        }
        i = i + 1;
    }
    assert(cs@.take(cs@.len() as int) =~= cs@);
    v
}

/// The first name written between double quotes in `name`: the text between its
/// first and second double quote.
pub fn parse_lexem_name(name: &str) -> (r: &str)
    requires
        quote_indices(name@).len() >= 2,
    ensures
        r@ == name@.subrange(quote_indices(name@)[0] + 1, quote_indices(name@)[1]),
{
    let cs = chars_of(name);
    let q = quote_positions(cs.as_slice());
    proof {
        lemma_quote_indices(name@);
        assert(q@[0] as int == quote_indices(name@)[0]);
        assert(q@[1] as int == quote_indices(name@)[1]);
        assert(quote_indices(name@)[0] < quote_indices(name@)[1]);
    }
    name.substring_char(q[0] + 1, q[1])
}

/// All the names written between pairs of double quotes in `names_str`.
pub fn parse_all_lexem_names(names_str: &str) -> (names: Vec<String>)
    requires
        quote_indices(names_str@).len() % 2 == 0,
    ensures
        names@.len() == quoted_names(names_str@).len(),
        forall|j: int| 0 <= j < names@.len() ==> (#[trigger] names@[j])@ == quoted_names(names_str@)[j],
{
    let cs = chars_of(names_str);
    let q = quote_positions(cs.as_slice());
    proof {
        lemma_quote_indices(names_str@);
    }
    let mut names: Vec<String> = Vec::new();
    let mut j: usize = 0;
    while j < q.len() / 2
        invariant
            cs@ == names_str@,
            q@.len() == quote_indices(names_str@).len(),
            q@.len() % 2 == 0,
            forall|k: int| 0 <= k < q@.len() ==> q@[k] as int == #[trigger] quote_indices(names_str@)[k],
            forall|k: int| 0 <= k < quote_indices(names_str@).len() ==> 0 <= #[trigger] quote_indices(names_str@)[k] < names_str@.len(),
            forall|k: int, l: int|
                0 <= k < l < quote_indices(names_str@).len() ==> #[trigger] quote_indices(names_str@)[k] < #[trigger] quote_indices(names_str@)[l],
            j <= q@.len() / 2,
            names@.len() == j,
            forall|i: int| 0 <= i < j ==> (#[trigger] names@[i])@ == quoted_names(names_str@)[i],
        decreases q@.len() / 2 - j,
    {
        proof {
            assert(q@[2 * j as int] as int == quote_indices(names_str@)[2 * j as int]);
            assert(q@[2 * j + 1] as int == quote_indices(names_str@)[2 * j + 1]);
            assert(quote_indices(names_str@)[2 * j as int] < quote_indices(names_str@)[2 * j + 1]);
        }
        let from = q[2 * j] + 1;
        let to = q[2 * j + 1];
        let piece = names_str.substring_char(from, to);
        names.push(piece.to_owned());
        j = j + 1;
    }
    names
}


/// Why a grammar text is refused.
#[derive(PartialEq, Eq, Structural, Clone, Copy, Debug)]
pub enum GrammarError {
    /// The rule set with this number has no `:` between its left-hand side and its productions.
    MissingRuleSeparator(usize),
    /// The left-hand side of the rule set with this number holds no quoted name.
    InvalidLexemName(usize),
    /// A production of the rule set with this number has an unterminated quote.
    UnterminatedQuote(usize),
    /// A rule has a terminal on its left-hand side.
    TerminalOnLeft,
    /// The grammar has no non-terminal, so it has no axiom.
    NoNonTerminal,
    /// The grammar is not LL(1): two claims on the cell of this non-terminal and token.
    NotLL1(usize, Token),
}

/// Position of the first occurrence of `c` in `s`, if any.
pub open spec fn first_index(s: Seq<char>, c: char) -> Option<int>
    decreases s.len(),
{
    if s.len() == 0 {
        None
    } else {
        match first_index(s.drop_last(), c) {
            Some(i) => Some(i),
            None => if s.last() == c {
                Some(s.len() - 1)
            } else {
                None
            },
        }
    }
}

/// A rule set `"A" : "x" "y" | "z"` read as its left-hand side name and, for each
/// production, the names it holds; `i` is the number of the rule set, for errors.
pub open spec fn read_rule_set(rs: Seq<char>, i: nat) -> Result<(Seq<char>, Seq<Seq<Seq<char>>>), GrammarError> {
    match first_index(rs, ':') {
        None => Err(GrammarError::MissingRuleSeparator(i as usize)),
        Some(c) => {
            let start_part = rs.take(c);
            let prods = split_on(rs.skip(c + 1), '|');
            if quote_indices(start_part).len() < 2 {
                Err(GrammarError::InvalidLexemName(i as usize))
            } else if exists|k: int| 0 <= k < prods.len() && #[trigger] quote_indices(prods[k]).len() % 2 != 0 {
                Err(GrammarError::UnterminatedQuote(i as usize))
            } else {
                let q = quote_indices(start_part);
                Ok((start_part.subrange(q[0] + 1, q[1]), prods.map_values(|p: Seq<char>| quoted_names(p))))
            }
        },
    }
}

/// `c` is the position of the first `:` of `rs`.
pub open spec fn first_colon_at(rs: Seq<char>, c: int) -> bool {
    0 <= c < rs.len() && rs[c] == ':' && forall|j: int| 0 <= j < c ==> rs[j] != ':'
}

/// The position found by `first_index` is that of the first occurrence.
proof fn lemma_first_index_is_first(s: Seq<char>, ch: char)
    ensures
        match first_index(s, ch) {
            Some(c) => 0 <= c < s.len() && s[c] == ch && forall|j: int| 0 <= j < c ==> s[j] != ch,
            None => forall|j: int| 0 <= j < s.len() ==> s[j] != ch,
        },
    decreases s.len(),
{
    if s.len() > 0 {
        lemma_first_index_is_first(s.drop_last(), ch);
        assert forall|j: int| 0 <= j < s.len() - 1 implies s[j] == s.drop_last()[j] by {}
    }
}

/// A rule set read without error has one alternative for each piece of what follows
/// its first `:` cut at every `|`: with `k` separators `|` there, `k + 1`
/// alternatives, the `j`-th holding the quoted names of the `j`-th piece (the pieces
/// hold no `|` and give back that text when joined with `|`).
pub proof fn lemma_rule_set_alternatives(rs: Seq<char>, i: nat)
    requires
        read_rule_set(rs, i) is Ok,
    ensures
        exists|c: int| #[trigger] first_colon_at(rs, c) && {
            let after = rs.skip(c + 1);
            let prods = read_rule_set(rs, i)->Ok_0.1;
            &&& prods.len() == count_char(after, '|') + 1
            &&& exists|pieces: Seq<Seq<char>>|
                #[trigger] join_with(pieces, '|') == after && pieces.len() == prods.len()
                    && (forall|k: int| 0 <= k < pieces.len() ==> !(#[trigger] pieces[k]).contains('|'))
                    && (forall|k: int| 0 <= k < pieces.len() ==> prods[k] == quoted_names(#[trigger] pieces[k]))
        },
{
    lemma_first_index_is_first(rs, ':');
    let c = first_index(rs, ':')->Some_0;
    let after = rs.skip(c + 1);
    let pieces = split_on(after, '|');
    lemma_split_on_joins(after, '|');
    assert(first_colon_at(rs, c));
    assert(join_with(pieces, '|') == after);
}

/// The rule sets of a grammar text (its pieces between `;`), skipping empty pieces;
/// the first refused rule set gives the error.
pub open spec fn read_rule_sets(pieces: Seq<Seq<char>>) -> Result<Seq<(Seq<char>, Seq<Seq<Seq<char>>>)>, GrammarError>
    decreases pieces.len(),
{
    if pieces.len() == 0 {
        Ok(Seq::empty())
    } else {
        match read_rule_sets(pieces.drop_last()) {
            Err(e) => Err(e),
            Ok(acc) => if pieces.last().len() == 0 {
                Ok(acc)
            } else {
                match read_rule_set(pieces.last(), acc.len()) {
                    Err(e) => Err(e),
                    Ok(r) => Ok(acc.push(r)),
                }
            },
        }
    }
}

/// The rules that a sequence of rule sets describes, in order: one rule per production.
pub open spec fn rule_texts(sets: Seq<(Seq<char>, Seq<Seq<Seq<char>>>)>) -> Seq<(Seq<char>, Seq<Seq<char>>)>
    decreases sets.len(),
{
    if sets.len() == 0 {
        Seq::empty()
    } else {
        rule_texts(sets.drop_last()) + sets.last().1.map_values(|p: Seq<Seq<char>>| (sets.last().0, p))
    }
}

/// A rule seen as its left-hand side name and symbol and its right-hand side names and symbols.
pub open spec fn rule_shape(r: Rule) -> (Seq<char>, Lexem, Seq<Seq<char>>, Seq<Lexem>) {
    (r.start.name@, r.start.lexem, r.production@.map_values(|p: ParsedLexem| p.name@), rhs(r))
}

/// The non-terminal names and the rules obtained by creating the rules `rts` in order,
/// starting from the non-terminal names `names`.
pub open spec fn build_rules(names: Seq<Seq<char>>, rts: Seq<(Seq<char>, Seq<Seq<char>>)>) -> (Seq<Seq<char>>, Seq<(Seq<char>, Lexem, Seq<Seq<char>>, Seq<Lexem>)>)
    decreases rts.len(),
{
    if rts.len() == 0 {
        (names, Seq::empty())
    } else {
        let (n0, shapes) = build_rules(names, rts.drop_last());
        let start = rts.last().0;
        let ps = rts.last().1;
        let n1 = names_after(n0, start);
        let res = resolve_names(n1, ps);
        (res.0, shapes.push((start, lexem_for_name(n0, start), ps, res.1)))
    }
}

/// The rules described by a grammar text, or why it is refused while it is read.
pub open spec fn grammar_rules_of_text(text: Seq<char>) -> Result<Seq<(Seq<char>, Seq<Seq<char>>)>, GrammarError> {
    match read_rule_sets(split_on(strip_comments(text), ';')) {
        Err(e) => Err(e),
        Ok(sets) => Ok(rule_texts(sets)),
    }
}


/// Position of the first occurrence of `c` in `cs`, if any.
fn first_position(cs: &[char], c: char) -> (r: Option<usize>)
    ensures
        r is None <==> first_index(cs@, c) is None,
        r matches Some(i) ==> first_index(cs@, c) == Some(i as int) && i < cs@.len(),
{
    let mut i: usize = 0;
    while i < cs.len()
        invariant
            i <= cs@.len(),
            first_index(cs@.take(i as int), c) is None,
        decreases cs@.len() - i,
    {
        assert(cs@.take(i + 1).drop_last() =~= cs@.take(i as int));
        if cs[i] == c {
            proof {
                lemma_first_index_extend(cs@, c, i as int + 1);
            }
            return Some(i);
        }
        i = i + 1;
    }
    assert(cs@.take(cs@.len() as int) =~= cs@);
    None
}

/// Once `c` occurs in the first `k` characters, its first position in `s` is found there.
pub proof fn lemma_first_index_extend(s: Seq<char>, c: char, k: int)
    requires
        0 <= k <= s.len(),
        first_index(s.take(k), c) is Some,
    ensures
        first_index(s, c) == first_index(s.take(k), c),
    decreases s.len() - k,
{
    if k < s.len() {
        assert(s.take(k + 1).drop_last() =~= s.take(k));
        lemma_first_index_extend(s, c, k + 1);
    } else {
        assert(s.take(k) =~= s);
    }
}

/// Reads a rule set: its left-hand side name and the names of each production.
fn read_rule_set_chars(rs: &[char], i: usize) -> (r: Result<(String, Vec<Vec<String>>), GrammarError>)
    ensures
        match read_rule_set(rs@, i as nat) {
            Err(e) => r == Err::<(String, Vec<Vec<String>>), GrammarError>(e),
            Ok(spec) => r is Ok && r->Ok_0.0@ == spec.0 && r->Ok_0.1@.len() == spec.1.len()
                && forall|k: int| 0 <= k < spec.1.len() ==> texts(#[trigger] r->Ok_0.1@[k]@) == spec.1[k],
        },
{
    let found = first_position(rs, ':');
    let c = match found {
        None => {
            return Err(GrammarError::MissingRuleSeparator(i));
        },
        Some(c) => c,
    };
    assert(first_index(rs@, ':') == Some(c as int));
    let (start_chars, rest) = rs.split_at(c);
    let (_, prods_chars) = rest.split_at(1);
    proof {
        assert(start_chars@ =~= rs@.take(c as int));
        assert(prods_chars@ =~= rs@.skip(c + 1));
    }
    if quote_positions(start_chars).len() < 2 {
        proof {
            assert(first_index(rs@, ':') == Some(c as int));
            assert(quote_indices(rs@.take(c as int)).len() < 2);
        }
        return Err(GrammarError::InvalidLexemName(i));
    }
    assert(quote_indices(rs@.take(c as int)).len() >= 2);
    let start_text = string_of_chars(start_chars);
    let start = parse_lexem_name(start_text.as_str()).to_owned();
    let pieces = split_chars(prods_chars, '|');
    let ghost prods = split_on(rs@.skip(c + 1), '|');
    let mut products: Vec<Vec<String>> = Vec::new();
    let mut k: usize = 0;
    while k < pieces.len()
        invariant
            k <= pieces@.len(),
            texts(pieces@) == prods,
            prods == split_on(rs@.skip(c as int + 1), '|'),
            first_index(rs@, ':') == Some(c as int),
            quote_indices(rs@.take(c as int)).len() >= 2,
            products@.len() == k,
            forall|j: int| 0 <= j < k ==> quote_indices(#[trigger] prods[j]).len() % 2 == 0,
            forall|j: int| 0 <= j < k ==> texts(#[trigger] products@[j]@) == quoted_names(prods[j]),
        decreases pieces@.len() - k,
    {
        assert(pieces@[k as int]@ == prods[k as int]);
        let chars = chars_of(pieces[k].as_str());
        if quote_positions(chars.as_slice()).len() % 2 != 0 {
            proof {
                assert(first_index(rs@, ':') == Some(c as int));
                assert(quote_indices(prods[k as int]).len() % 2 != 0);
                assert(prods == split_on(rs@.skip(c as int + 1), '|'));
            }
            return Err(GrammarError::UnterminatedQuote(i));
        }
        let names = parse_all_lexem_names(pieces[k].as_str());
        proof {
            assert(texts(names@) =~= quoted_names(prods[k as int]));
        }
        products.push(names);
        k = k + 1;
    }
    proof {
        assert(first_index(rs@, ':') == Some(c as int));
        assert(!(exists|j: int| 0 <= j < prods.len() && #[trigger] quote_indices(prods[j]).len() % 2 != 0));
        let q = quote_indices(rs@.take(c as int));
        assert(read_rule_set(rs@, i as nat) == Ok::<(Seq<char>, Seq<Seq<Seq<char>>>), GrammarError>(
            (rs@.take(c as int).subrange(q[0] + 1, q[1]), prods.map_values(|p: Seq<char>| quoted_names(p))),
        ));
    }
    Ok((start, products))
}


/// `g` is the grammar built from the rules `built`, with all its analyses up to date.
pub open spec fn grammar_built(g: Grammar, built: (Seq<Seq<char>>, Seq<(Seq<char>, Lexem, Seq<Seq<char>>, Seq<Lexem>)>)) -> bool {
    &&& g.wf()
    &&& g.names() == built.0
    &&& g.rule_seq().map_values(|r: Rule| rule_shape(r)) == built.1
    &&& forall|k: int| 0 <= k < g.rule_seq().len() ==> (#[trigger] g.rule_seq()[k]).id == k
}

/// The non-terminal names and the rules described by a grammar text, or why it is
/// refused: while it is read, for a terminal on the left of a rule, or for want of a
/// non-terminal.
pub open spec fn parsed_grammar(text: Seq<char>) -> Result<(Seq<Seq<char>>, Seq<(Seq<char>, Lexem, Seq<Seq<char>>, Seq<Lexem>)>), GrammarError> {
    match grammar_rules_of_text(text) {
        Err(e) => Err(e),
        Ok(rts) => {
            let built = build_rules(Seq::empty(), rts);
            if exists|k: int| 0 <= k < built.1.len() && (#[trigger] built.1[k]).1 is Terminal {
                Err(GrammarError::TerminalOnLeft)
            } else if built.0.len() == 0 {
                Err(GrammarError::NoNonTerminal)
            } else {
                Ok(built)
            }
        },
    }
}

/// Reads a grammar written in grammophone notation (`"A" : "x" "B" | ;` rule sets
/// separated by `;`, `#` comment lines), creates its rules in order, and computes the
/// empty-word producers, the FIRST sets and the FOLLOW sets; non-terminal 0 (the left-hand
/// side of the first rule) is the axiom.
pub fn parse_grammar(text: &str) -> (r: Result<Grammar, GrammarError>)
    ensures
        match parsed_grammar(text@) {
            Err(e) => r == Err::<Grammar, GrammarError>(e),
            Ok(built) => {
                &&& r is Ok
                &&& grammar_built(r->Ok_0, built)
                &&& r->Ok_0.nullable_computed()
                &&& r->Ok_0.firsts_computed()
                &&& r->Ok_0.follows_computed()
                &&& r->Ok_0.nullable_known() == built.0.len()
                &&& r->Ok_0.firsts_known() == built.0.len()
                &&& r->Ok_0.follows_store().len() == built.0.len()
            },
        },
{
    let stripped = strip_comment_lines(text);
    let cs = chars_of(stripped.as_str());
    let pieces = split_chars(cs.as_slice(), ';');
    let ghost all = split_on(strip_comments(text@), ';');
    let mut g = Grammar::new();
    let mut i: usize = 0;
    let mut p: usize = 0;
    proof {
        assert(texts(pieces@).take(0) =~= Seq::<Seq<char>>::empty());
        assert(g.rule_seq().map_values(|r: Rule| rule_shape(r)) =~= Seq::empty());
        assert(g.names() =~= Seq::<Seq<char>>::empty());
        assert(all.take(0) =~= Seq::<Seq<char>>::empty());
    }
    while p < pieces.len()
        invariant
            p <= pieces@.len(),
            texts(pieces@) == all,
            all == split_on(strip_comments(text@), ';'),
            read_rule_sets(all.take(p as int)) is Ok,
            read_rule_sets(all.take(p as int))->Ok_0.len() == i,
            i <= p,
            !g.nullable_computed(),
            !g.firsts_computed(),
            !g.follows_computed(),
            grammar_built(g, build_rules(Seq::empty(), rule_texts(read_rule_sets(all.take(p as int))->Ok_0))),
        decreases pieces@.len() - p,
    {
        let ghost acc = read_rule_sets(all.take(p as int))->Ok_0;
        proof {
            assert(all.take(p + 1).drop_last() =~= all.take(p as int));
            assert(all.take(p + 1).last() == pieces@[p as int]@);
        }
        let rs = chars_of(pieces[p].as_str());
        if rs.len() == 0 {
            p = p + 1;
            continue;
        }
        let read = read_rule_set_chars(rs.as_slice(), i);
        match read {
            Err(e) => {
                proof {
                    lemma_read_rule_sets_error(all, p as int + 1);
                }
                return Err(e);
            },
            Ok((start, products)) => {
                let ghost r = read_rule_set(pieces@[p as int]@, i as nat)->Ok_0;
                let ghost base = rule_texts(acc);
                proof {
                    assert(read_rule_sets(all.take(p + 1)) == Ok::<Seq<(Seq<char>, Seq<Seq<Seq<char>>>)>, GrammarError>(acc.push(r)));
                    assert(acc.push(r).drop_last() =~= acc);
                    assert(rule_texts(acc.push(r)) == base + r.1.map_values(|q: Seq<Seq<char>>| (r.0, q)));
                    assert(base + r.1.take(0).map_values(|q: Seq<Seq<char>>| (r.0, q)) =~= base);
                }
                let mut k: usize = 0;
                while k < products.len()
                    invariant
                        k <= products@.len(),
                        start@ == r.0,
                        products@.len() == r.1.len(),
                        forall|j: int| 0 <= j < r.1.len() ==> texts(#[trigger] products@[j]@) == r.1[j],
                        !g.nullable_computed(),
                        !g.firsts_computed(),
                        !g.follows_computed(),
                        grammar_built(g, build_rules(Seq::empty(), base + r.1.take(k as int).map_values(|q: Seq<Seq<char>>| (r.0, q)))),
                    decreases products@.len() - k,
                {
                    let ghost before = base + r.1.take(k as int).map_values(|q: Seq<Seq<char>>| (r.0, q));
                    let ghost after = base + r.1.take(k + 1).map_values(|q: Seq<Seq<char>>| (r.0, q));
                    let ghost old_g = g;
                    let names = products[k].clone();
                    proof {
                        assert(names@ =~= products@[k as int]@);
                        assert(after =~= before.push((r.0, r.1[k as int])));
                        assert(after.drop_last() =~= before);
                    }
                    g.create_rule(start.as_str(), names);
                    proof {
                        assert(g.rule_seq().map_values(|x: Rule| rule_shape(x)) =~= old_g.rule_seq().map_values(|x: Rule| rule_shape(x)).push(rule_shape(g.rule_seq().last())));
                        assert forall|j: int| 0 <= j < g.rule_seq().len() implies (#[trigger] g.rule_seq()[j]).id == j by {
                            if j < g.rule_seq().len() - 1 {
                                assert(g.rule_seq()[j] == old_g.rule_seq()[j]);
                            }
                        }
                    }
                    k = k + 1;
                }
                proof {
                    assert(r.1.take(r.1.len() as int) =~= r.1);
                }
                i = i + 1;
            },
        }
        p = p + 1;
    }
    proof {
        assert(all.take(all.len() as int) =~= all);
    }
    let ghost built = build_rules(Seq::empty(), rule_texts(read_rule_sets(all)->Ok_0));
    if !g.starts_with_nonterminals() {
        proof {
            let k = choose|k: int| 0 <= k < g.rule_seq().len() && (#[trigger] g.rule_seq()[k]).start.lexem is Terminal;
            assert(built.1[k] == rule_shape(g.rule_seq()[k]));
        }
        return Err(GrammarError::TerminalOnLeft);
    }
    proof {
        assert forall|k: int| 0 <= k < built.1.len() implies !((#[trigger] built.1[k]).1 is Terminal) by {
            assert(built.1[k] == rule_shape(g.rule_seq()[k]));
        }
    }
    g.empty_word_producers();
    g.firsts();
    if g.non_terminal_count() == 0 {
        return Err(GrammarError::NoNonTerminal);
    }
    g.follows();
    Ok(g)
}

/// Reads a grammar text and builds its LL(1) analysis table. A text that cannot be read
/// as a grammar, or a grammar that is not LL(1), is refused with the error saying why.
pub fn generate_analysis_table(text: &str) -> (r: Result<AnalysisTable, GrammarError>)
    ensures
        match parsed_grammar(text@) {
            Err(e) => r == Err::<AnalysisTable, GrammarError>(e),
            Ok(built) => exists|g: Grammar| #[trigger] grammar_built(g, built) && g.follows_computed() && table_of_grammar(g, r),
        },
{
    match parse_grammar(text) {
        Err(e) => Err(e),
        Ok(grammar) => AnalysisTable::try_from_grammar(&grammar),
    }
}

/// A refused rule set makes every longer sequence of pieces refused with the same error.
proof fn lemma_read_rule_sets_error(all: Seq<Seq<char>>, p: int)
    requires
        0 <= p <= all.len(),
        read_rule_sets(all.take(p)) is Err,
    ensures
        read_rule_sets(all) == read_rule_sets(all.take(p)),
    decreases all.len() - p,
{
    if p < all.len() {
        assert(all.take(p + 1).drop_last() =~= all.take(p));
        lemma_read_rule_sets_error(all, p + 1);
    } else {
        assert(all.take(p) =~= all);
    }
}

} // verus!
