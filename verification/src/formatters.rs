use vstd::prelude::*;

use crate::analysis_table::AnalysisTable;
use crate::grammar::Lexem;
use crate::text::{chars_of, string_of_chars, texts};
use crate::token::{sorted_tokens, Token};

verus! {

/// The non-terminals whose row holds at least one production, in increasing order.
pub open spec fn filled_rows(t: AnalysisTable) -> Seq<nat> {
    Seq::new(t.non_terminal_count(), |a: int| a as nat).filter(|a: nat| t.row_filled(a))
}

/// The non-terminals whose row is empty, in increasing order.
pub open spec fn empty_rows(t: AnalysisTable) -> Seq<nat> {
    Seq::new(t.non_terminal_count(), |a: int| a as nat).filter(|a: nat| !t.row_filled(a))
}

/// The order in which the non-terminals are listed: those with a filled row first.
pub open spec fn row_order(t: AnalysisTable) -> Seq<nat> {
    filled_rows(t) + empty_rows(t)
}

/// The token kinds that get a column, in enumeration order.
pub open spec fn columns(t: AnalysisTable) -> Seq<Token> {
    sorted_tokens(t.used_tokens())
}

/// The header of each column: the spelling of its token kind.
pub open spec fn column_names(t: AnalysisTable) -> Seq<Seq<char>> {
    columns(t).map_values(|tok: Token| tok.grammar_name())
}

/// How a symbol is written in a cell: a non-terminal by its name, a token kind by its
/// spelling.
pub open spec fn symbol_text(names: Seq<Seq<char>>, l: Lexem) -> Seq<char> {
    match l {
        Lexem::NonTerminal(a) => names[a as int],
        Lexem::Terminal(tok) => tok.grammar_name(),
    }
}

/// How a production is written in a cell: its symbols, one after the other.
pub open spec fn word_text(names: Seq<Seq<char>>, w: Seq<Lexem>) -> Seq<char>
    decreases w.len(),
{
    if w.len() == 0 {
        Seq::empty()
    } else {
        word_text(names, w.drop_last()) + symbol_text(names, w.last())
    }
}

/// The text of the cell of non-terminal `a` and token kind `tok` (empty when the cell is).
pub open spec fn cell_text(t: AnalysisTable, a: nat, tok: Token) -> Seq<char> {
    match t.cell(a, tok) {
        Some(w) => word_text(t.non_terminal_names(), w),
        None => Seq::empty(),
    }
}

/// The texts of the cells: one row per non-terminal with a filled row (in the order of
/// `filled_rows`), one entry per column.
pub open spec fn string_table(t: AnalysisTable) -> Seq<Seq<Seq<char>>> {
    filled_rows(t).map_values(|a: nat| columns(t).map_values(|tok: Token| cell_text(t, a, tok)))
}

/// Appends the characters `s` to `out`.
fn push_chars(out: &mut Vec<char>, s: &[char])
    ensures
        final(out)@ == old(out)@ + s@,
{
    let mut i: usize = 0;
    while i < s.len()
        invariant
            i <= s@.len(),
            out@ == old(out)@ + s@.take(i as int),
        decreases s@.len() - i,
    {
        out.push(s[i]);
        assert(s@.take(i + 1) =~= s@.take(i as int).push(s@[i as int]));
        i = i + 1;
    }
    assert(s@.take(s@.len() as int) =~= s@);
}

/// The text of production `w` of `t`.
fn word_chars(t: &AnalysisTable, w: &Vec<Lexem>) -> (v: Vec<char>)
    requires
        t.wf(),
        crate::analysis_table::word_in_range(w@, t.non_terminal_count()),
    ensures
        v@ == word_text(t.non_terminal_names(), w@),
{
    let mut v: Vec<char> = Vec::new();
    let mut k: usize = 0;
    while k < w.len()
        invariant
            k <= w@.len(),
            t.wf(),
            crate::analysis_table::word_in_range(w@, t.non_terminal_count()),
            v@ == word_text(t.non_terminal_names(), w@.take(k as int)),
        decreases w@.len() - k,
    {
        proof {
            assert(w@.take(k + 1).drop_last() =~= w@.take(k as int));
            assert(crate::grammar::lexem_in_range(w@[k as int], t.non_terminal_count()));
        }
        let piece = match w[k] {
            Lexem::NonTerminal(a) => chars_of(t.non_terminal_name(a).as_str()),
            Lexem::Terminal(tok) => chars_of(tok.repr()),
        };
        push_chars(&mut v, piece.as_slice());
        k = k + 1;
    }
    assert(w@.take(w@.len() as int) =~= w@);
    v
}

/// The texts of the table: the cells (one row per non-terminal with a filled row, one
/// entry per column), the column headers, and the order of the non-terminals (those
/// with a filled row first, each group in increasing order).
pub fn construct_string_table(t: &AnalysisTable) -> (r: (Vec<Vec<String>>, Vec<String>, Vec<usize>))
    requires
        t.wf(),
    ensures
        r.0@.map_values(|row: Vec<String>| texts(row@)) == string_table(*t),
        texts(r.1@) == column_names(*t),
        r.2@.map_values(|a: usize| a as nat) == row_order(*t),
        forall|k: int| 0 <= k < r.2@.len() ==> #[trigger] r.2@[k] < t.non_terminal_count(),
{
    let cols = t.used_token_kinds();
    let mut names: Vec<String> = Vec::new();
    let mut j: usize = 0;
    while j < cols.len()
        invariant
            j <= cols@.len(),
            cols@ == columns(*t),
            texts(names@) == column_names(*t).take(j as int),
        decreases cols@.len() - j,
    {
        let name = string_of_chars(chars_of(cols[j].repr()).as_slice());
        proof {
            assert(texts(names@.push(name)) =~= texts(names@).push(name@));
            assert(column_names(*t).take(j + 1) =~= column_names(*t).take(j as int).push(column_names(*t)[j as int]));
        }
        names.push(name);
        j = j + 1;
    }
    assert(column_names(*t).take(cols@.len() as int) =~= column_names(*t));
    let n = t.count_non_terminals();
    let ghost all = Seq::new(t.non_terminal_count(), |a: int| a as nat);
    let ghost pf = |a: nat| t.row_filled(a);
    let ghost pe = |a: nat| !t.row_filled(a);
    let mut filled: Vec<usize> = Vec::new();
    let mut empty: Vec<usize> = Vec::new();
    let mut a: usize = 0;
    while a < n
        invariant
            a <= n,
            n == t.non_terminal_count(),
            t.wf(),
            all == Seq::new(t.non_terminal_count(), |a: int| a as nat),
            pf == (|a: nat| t.row_filled(a)),
            pe == (|a: nat| !t.row_filled(a)),
            filled@.map_values(|a: usize| a as nat) == all.take(a as int).filter(pf),
            empty@.map_values(|a: usize| a as nat) == all.take(a as int).filter(pe),
            forall|k: int| 0 <= k < filled@.len() ==> #[trigger] filled@[k] < a,
            forall|k: int| 0 <= k < empty@.len() ==> #[trigger] empty@[k] < a,
        decreases n - a,
    {
        proof {
            assert(all.take(a + 1) =~= all.take(a as int).push(a as nat));
            all.take(a as int).lemma_filter_push(a as nat, pf);
            all.take(a as int).lemma_filter_push(a as nat, pe);
        }
        if t.is_row_filled(a) {
            proof {
                assert(filled@.push(a).map_values(|a: usize| a as nat) =~= filled@.map_values(|a: usize| a as nat).push(a as nat));
            }
            filled.push(a);
        } else {
            proof {
                assert(empty@.push(a).map_values(|a: usize| a as nat) =~= empty@.map_values(|a: usize| a as nat).push(a as nat));
            }
            empty.push(a);
        }
        a = a + 1;
    }
    assert(all.take(n as int) =~= all);
    let mut table: Vec<Vec<String>> = Vec::new();
    let mut i: usize = 0;
    while i < filled.len()
        invariant
            i <= filled@.len(),
            t.wf(),
            cols@ == columns(*t),
            filled@.map_values(|a: usize| a as nat) == filled_rows(*t),
            forall|k: int| 0 <= k < filled@.len() ==> #[trigger] filled@[k] < t.non_terminal_count(),
            table@.map_values(|row: Vec<String>| texts(row@)) == string_table(*t).take(i as int),
        decreases filled@.len() - i,
    {
        let a = filled[i];
        let ghost want = columns(*t).map_values(|tok: Token| cell_text(*t, a as nat, tok));
        let mut row: Vec<String> = Vec::new();
        let mut j: usize = 0;
        while j < cols.len()
            invariant
                j <= cols@.len(),
                t.wf(),
                cols@ == columns(*t),
                want == columns(*t).map_values(|tok: Token| cell_text(*t, a as nat, tok)),
                texts(row@) == want.take(j as int),
            decreases cols@.len() - j,
        {
            let text = match t.get(&a, &cols[j]) {
                Some(w) => {
                    proof {
                        t.lemma_cells_in_range(a as nat, cols@[j as int]);
                    }
                    string_of_chars(word_chars(t, w).as_slice())
                },
                None => String::new(),
            };
            proof {
                assert(texts(row@.push(text)) =~= texts(row@).push(text@));
                assert(want.take(j + 1) =~= want.take(j as int).push(want[j as int]));
            }
            row.push(text);
            j = j + 1;
        }
        proof {
            assert(want.take(cols@.len() as int) =~= want);
            assert(filled@[i as int] as nat == filled_rows(*t)[i as int]);
            assert(table@.push(row).map_values(|row: Vec<String>| texts(row@)) =~= table@.map_values(|row: Vec<String>| texts(row@)).push(texts(row@)));
            assert(string_table(*t).take(i + 1) =~= string_table(*t).take(i as int).push(string_table(*t)[i as int]));
        }
        table.push(row);
        i = i + 1;
    }
    assert(string_table(*t).take(filled@.len() as int) =~= string_table(*t));
    let mut order = filled;
    let ghost f = order@;
    let mut rest = empty;
    let ghost e = rest@;
    order.append(&mut rest);
    assert forall|k: int| 0 <= k < order@.len() implies #[trigger] order@[k] < t.non_terminal_count() by {
        if k < f.len() {
            assert(order@[k] == f[k]);
        } else {
            assert(order@[k] == e[k - f.len()]);
        }
    }
    assert(order@.map_values(|a: usize| a as nat) =~= f.map_values(|a: usize| a as nat) + empty_rows(*t));
    (table, names, order)
}

/// The characters that would break a markdown table: the backslash, `|`, and `(`, `)`,
/// `[`, `]`, `<`, `>`.
pub open spec fn markdown_special(c: char) -> bool {
    c == '\\' || c == '|' || c == '(' || c == ')' || c == '[' || c == ']' || c == '<' || c == '>'
}

/// How a character is written in a markdown cell: after a backslash when it is one of
/// the characters that would break the table, as it is otherwise.
pub open spec fn escape_char(c: char) -> Seq<char> {
    if markdown_special(c) {
        seq!['\\', c]
    } else {
        seq![c]
    }
}

/// `s` with the characters that would break a markdown table escaped.
pub open spec fn escape_markdown(s: Seq<char>) -> Seq<char>
    decreases s.len(),
{
    if s.len() == 0 {
        Seq::empty()
    } else {
        escape_markdown(s.drop_last()) + escape_char(s.last())
    }
}

/// The escaped texts of `cells`, each followed by `|`.
pub open spec fn markdown_cells(cells: Seq<Seq<char>>) -> Seq<char>
    decreases cells.len(),
{
    if cells.len() == 0 {
        Seq::empty()
    } else {
        markdown_cells(cells.drop_last()) + escape_markdown(cells.last()) + seq!['|']
    }
}

/// `n` copies of `-|`.
pub open spec fn markdown_rule(n: nat) -> Seq<char>
    decreases n,
{
    if n == 0 {
        Seq::empty()
    } else {
        markdown_rule((n - 1) as nat) + seq!['-', '|']
    }
}

/// One line per row: `|`, the escaped name of the row's non-terminal, `|`, the cells.
pub open spec fn markdown_rows(names: Seq<Seq<char>>, rows: Seq<Seq<Seq<char>>>) -> Seq<char>
    decreases rows.len(),
{
    if rows.len() == 0 {
        Seq::empty()
    } else {
        let i = rows.len() - 1;
        markdown_rows(names, rows.drop_last()) + seq!['|'] + escape_markdown(names[i]) + seq!['|']
            + markdown_cells(rows.last()) + seq!['\n']
    }
}

/// The names of the non-terminals, in the order they are listed.
pub open spec fn ordered_names(t: AnalysisTable) -> Seq<Seq<char>> {
    row_order(t).map_values(|a: nat| t.non_terminal_names()[a as int])
}

/// The markdown form of the table: a header line with the column names, a separator
/// line, then a line for each non-terminal with a filled row.
pub open spec fn markdown_text(t: AnalysisTable) -> Seq<char> {
    let cols = column_names(t);
    seq!['|', ' ', '|'] + markdown_cells(cols) + seq!['\n'] + seq!['|', '-', '|'] + markdown_rule(cols.len())
        + seq!['\n'] + markdown_rows(ordered_names(t), string_table(t))
}

/// `s` with every `c` replaced by `r` (as `str::replace` does with a character).
pub open spec fn replace_char(s: Seq<char>, c: char, r: Seq<char>) -> Seq<char>
    decreases s.len(),
{
    if s.len() == 0 {
        Seq::empty()
    } else {
        replace_char(s.drop_last(), c, r) + (if s.last() == c {
            r
        } else {
            seq![s.last()]
        })
    }
}

/// The escaping of a markdown cell as a chain of replacements: every backslash by
/// two, then each of `|`, `(`, `)`, `[`, `]`, `<`, `>` by itself after a backslash.
pub open spec fn markdown_replacements(s: Seq<char>) -> Seq<char> {
    let s = replace_char(s, '\\', seq!['\\', '\\']);
    let s = replace_char(s, '|', seq!['\\', '|']);
    let s = replace_char(s, '(', seq!['\\', '(']);
    let s = replace_char(s, ')', seq!['\\', ')']);
    let s = replace_char(s, '[', seq!['\\', '[']);
    let s = replace_char(s, ']', seq!['\\', ']']);
    let s = replace_char(s, '<', seq!['\\', '<']);
    replace_char(s, '>', seq!['\\', '>'])
}

proof fn lemma_replace_char_add(a: Seq<char>, b: Seq<char>, c: char, r: Seq<char>)
    ensures
        replace_char(a + b, c, r) == replace_char(a, c, r) + replace_char(b, c, r),
    decreases b.len(),
{
    if b.len() == 0 {
        assert(a + b =~= a);
        assert(replace_char(a, c, r) + replace_char(b, c, r) =~= replace_char(a, c, r));
    } else {
        lemma_replace_char_add(a, b.drop_last(), c, r);
        assert((a + b).drop_last() =~= a + b.drop_last());
        assert((a + b).last() == b.last());
    }
}

proof fn lemma_replace_char_one(x: char, c: char, r: Seq<char>)
    ensures
        replace_char(seq![x], c, r) == (if x == c { r } else { seq![x] }),
{
    assert(seq![x].drop_last() =~= Seq::<char>::empty());
    assert(seq![x].last() == x);
    assert(replace_char(Seq::<char>::empty(), c, r) == Seq::<char>::empty());
    assert(Seq::<char>::empty() + (if x == c { r } else { seq![x] }) =~= (if x == c { r } else { seq![x] }));
}

proof fn lemma_markdown_replacements_add(a: Seq<char>, b: Seq<char>)
    ensures
        markdown_replacements(a + b) == markdown_replacements(a) + markdown_replacements(b),
{
    let s1a = replace_char(a, '\\', seq!['\\', '\\']);
    let s1b = replace_char(b, '\\', seq!['\\', '\\']);
    lemma_replace_char_add(a, b, '\\', seq!['\\', '\\']);
    let s2a = replace_char(s1a, '|', seq!['\\', '|']);
    let s2b = replace_char(s1b, '|', seq!['\\', '|']);
    lemma_replace_char_add(s1a, s1b, '|', seq!['\\', '|']);
    let s3a = replace_char(s2a, '(', seq!['\\', '(']);
    let s3b = replace_char(s2b, '(', seq!['\\', '(']);
    lemma_replace_char_add(s2a, s2b, '(', seq!['\\', '(']);
    let s4a = replace_char(s3a, ')', seq!['\\', ')']);
    let s4b = replace_char(s3b, ')', seq!['\\', ')']);
    lemma_replace_char_add(s3a, s3b, ')', seq!['\\', ')']);
    let s5a = replace_char(s4a, '[', seq!['\\', '[']);
    let s5b = replace_char(s4b, '[', seq!['\\', '[']);
    lemma_replace_char_add(s4a, s4b, '[', seq!['\\', '[']);
    let s6a = replace_char(s5a, ']', seq!['\\', ']']);
    let s6b = replace_char(s5b, ']', seq!['\\', ']']);
    lemma_replace_char_add(s5a, s5b, ']', seq!['\\', ']']);
    let s7a = replace_char(s6a, '<', seq!['\\', '<']);
    let s7b = replace_char(s6b, '<', seq!['\\', '<']);
    lemma_replace_char_add(s6a, s6b, '<', seq!['\\', '<']);
    lemma_replace_char_add(s7a, s7b, '>', seq!['\\', '>']);
}

/// `r` holds no character among those the later steps replace.
proof fn lemma_replace_char_untouched(s: Seq<char>, c: char, r: Seq<char>)
    requires
        forall|i: int| 0 <= i < s.len() ==> s[i] != c,
    ensures
        replace_char(s, c, r) == s,
    decreases s.len(),
{
    if s.len() > 0 {
        lemma_replace_char_untouched(s.drop_last(), c, r);
        assert(s.drop_last().push(s.last()) =~= s);
        assert(s.drop_last() + seq![s.last()] =~= s);
    }
}

/// Replacing `c` in `w` changes nothing when `w` holds no `c`.
proof fn lemma_pair_untouched(d: char, e: char, c: char, r: Seq<char>)
    requires
        d != c,
        e != c,
    ensures
        replace_char(seq![d, e], c, r) == seq![d, e],
{
    lemma_replace_char_untouched(seq![d, e], c, r);
}

proof fn lemma_markdown_replacements_one(x: char)
    ensures
        markdown_replacements(seq![x]) == escape_char(x),
{
    let bs = '\\';
    lemma_replace_char_one(x, bs, seq![bs, bs]);
    if x == bs {
        let w = seq![bs, bs];
        lemma_pair_untouched(bs, bs, '|', seq![bs, '|']);
        lemma_pair_untouched(bs, bs, '(', seq![bs, '(']);
        lemma_pair_untouched(bs, bs, ')', seq![bs, ')']);
        lemma_pair_untouched(bs, bs, '[', seq![bs, '[']);
        lemma_pair_untouched(bs, bs, ']', seq![bs, ']']);
        lemma_pair_untouched(bs, bs, '<', seq![bs, '<']);
        lemma_pair_untouched(bs, bs, '>', seq![bs, '>']);
        assert(escape_char(x) == w);
    } else {
        lemma_replace_char_one(x, '|', seq![bs, '|']);
        lemma_pair_untouched(bs, '|', '(', seq![bs, '(']);
        lemma_pair_untouched(bs, '|', ')', seq![bs, ')']);
        lemma_pair_untouched(bs, '|', '[', seq![bs, '[']);
        lemma_pair_untouched(bs, '|', ']', seq![bs, ']']);
        lemma_pair_untouched(bs, '|', '<', seq![bs, '<']);
        lemma_pair_untouched(bs, '|', '>', seq![bs, '>']);
        lemma_replace_char_one(x, '(', seq![bs, '(']);
        lemma_pair_untouched(bs, '(', ')', seq![bs, ')']);
        lemma_pair_untouched(bs, '(', '[', seq![bs, '[']);
        lemma_pair_untouched(bs, '(', ']', seq![bs, ']']);
        lemma_pair_untouched(bs, '(', '<', seq![bs, '<']);
        lemma_pair_untouched(bs, '(', '>', seq![bs, '>']);
        lemma_replace_char_one(x, ')', seq![bs, ')']);
        lemma_pair_untouched(bs, ')', '[', seq![bs, '[']);
        lemma_pair_untouched(bs, ')', ']', seq![bs, ']']);
        lemma_pair_untouched(bs, ')', '<', seq![bs, '<']);
        lemma_pair_untouched(bs, ')', '>', seq![bs, '>']);
        lemma_replace_char_one(x, '[', seq![bs, '[']);
        lemma_pair_untouched(bs, '[', ']', seq![bs, ']']);
        lemma_pair_untouched(bs, '[', '<', seq![bs, '<']);
        lemma_pair_untouched(bs, '[', '>', seq![bs, '>']);
        lemma_replace_char_one(x, ']', seq![bs, ']']);
        lemma_pair_untouched(bs, ']', '<', seq![bs, '<']);
        lemma_pair_untouched(bs, ']', '>', seq![bs, '>']);
        lemma_replace_char_one(x, '<', seq![bs, '<']);
        lemma_pair_untouched(bs, '<', '>', seq![bs, '>']);
        lemma_replace_char_one(x, '>', seq![bs, '>']);
    }
}

/// Escaping character by character, as `escape_markdown` does, gives what the chain of
/// replacements `markdown_replacements` gives.
pub proof fn lemma_escape_markdown_is_replacements(s: Seq<char>)
    ensures
        escape_markdown(s) == markdown_replacements(s),
    decreases s.len(),
{
    if s.len() == 0 {
        assert(markdown_replacements(s) =~= Seq::<char>::empty());
    } else {
        lemma_escape_markdown_is_replacements(s.drop_last());
        assert(s.drop_last() + seq![s.last()] =~= s);
        lemma_markdown_replacements_add(s.drop_last(), seq![s.last()]);
        lemma_markdown_replacements_one(s.last());
    }
}

/// Appends the escaped form of `s` to `out`.
fn push_escaped(out: &mut Vec<char>, s: &[char])
    ensures
        final(out)@ == old(out)@ + escape_markdown(s@),
{
    let mut i: usize = 0;
    while i < s.len()
        invariant
            i <= s@.len(),
            out@ == old(out)@ + escape_markdown(s@.take(i as int)),
        decreases s@.len() - i,
    {
        let c = s[i];
        proof {
            assert(s@.take(i + 1).drop_last() =~= s@.take(i as int));
        }
        let ghost before = out@;
        if c == '\\' || c == '|' || c == '(' || c == ')' || c == '[' || c == ']' || c == '<' || c == '>' {
            out.push('\\');
            out.push(c);
        } else {
            out.push(c);
        }
        assert(out@ =~= before + escape_char(c));
        i = i + 1;
    }
    assert(s@.take(s@.len() as int) =~= s@);
}

/// Appends the escaped texts of `cells` to `out`, each followed by `|`.
fn push_markdown_cells(out: &mut Vec<char>, cells: &Vec<String>)
    ensures
        final(out)@ == old(out)@ + markdown_cells(texts(cells@)),
{
    let mut j: usize = 0;
    while j < cells.len()
        invariant
            j <= cells@.len(),
            out@ == old(out)@ + markdown_cells(texts(cells@).take(j as int)),
        decreases cells@.len() - j,
    {
        proof {
            assert(texts(cells@).take(j + 1).drop_last() =~= texts(cells@).take(j as int));
        }
        let cs = chars_of(cells[j].as_str());
        push_escaped(out, cs.as_slice());
        out.push('|');
        j = j + 1;
    }
    assert(texts(cells@).take(cells@.len() as int) =~= texts(cells@));
}

impl AnalysisTable {
    /// The table in markdown form (see `markdown_text`).
    pub fn display_markdown(&self) -> (s: String)
        requires
            self.wf(),
        ensures
            s@ == markdown_text(*self),
    {
        let (table, cols, order) = construct_string_table(self);
        let mut out: Vec<char> = Vec::new();
        out.push('|');
        out.push(' ');
        out.push('|');
        push_markdown_cells(&mut out, &cols);
        out.push('\n');
        out.push('|');
        out.push('-');
        out.push('|');
        let mut j: usize = 0;
        while j < cols.len()
            invariant
                j <= cols@.len(),
                out@ == seq!['|', ' ', '|'] + markdown_cells(texts(cols@)) + seq!['\n'] + seq!['|', '-', '|'] + markdown_rule(j as nat),
            decreases cols@.len() - j,
        {
            out.push('-');
            out.push('|');
            j = j + 1;
        }
        out.push('\n');
        let ghost names = ordered_names(*self);
        let ghost rows = string_table(*self);
        proof {
            assert(filled_rows(*self).len() <= row_order(*self).len());
        }
        let mut i: usize = 0;
        while i < table.len()
            invariant
                i <= table@.len(),
                self.wf(),
                table@.map_values(|row: Vec<String>| texts(row@)) == rows,
                order@.map_values(|a: usize| a as nat) == row_order(*self),
                forall|k: int| 0 <= k < order@.len() ==> #[trigger] order@[k] < self.non_terminal_count(),
                rows == string_table(*self),
                names == ordered_names(*self),
                rows.len() <= names.len(),
                out@ == seq!['|', ' ', '|'] + markdown_cells(texts(cols@)) + seq!['\n'] + seq!['|', '-', '|']
                    + markdown_rule(cols@.len() as nat) + seq!['\n'] + markdown_rows(names, rows.take(i as int)),
            decreases table@.len() - i,
        {
            proof {
                assert(rows.take(i + 1).drop_last() =~= rows.take(i as int));
                assert(rows[i as int] == texts(table@[i as int]@));
                assert(order@[i as int] as nat == row_order(*self)[i as int]);
            }
            let ghost before = out@;
            out.push('|');
            let name = chars_of(self.non_terminal_name(order[i]).as_str());
            push_escaped(&mut out, name.as_slice());
            out.push('|');
            push_markdown_cells(&mut out, &table[i]);
            out.push('\n');
            assert(out@ =~= before + seq!['|'] + escape_markdown(names[i as int]) + seq!['|'] + markdown_cells(rows.take(i + 1).last()) + seq!['\n']);
            i = i + 1;
        }
        assert(rows.take(table@.len() as int) =~= rows);
        string_of_chars(out.as_slice())
    }
}


/// Length in bytes of the UTF-8 encoding of `s`: the width measure of the plain table.
pub open spec fn byte_len(s: Seq<char>) -> nat {
    vstd::utf8::encode_utf8(s).len()
}

/// The largest `byte_len` of the texts of `v` (0 when there are none).
pub open spec fn max_byte_len(v: Seq<Seq<char>>) -> nat
    decreases v.len(),
{
    if v.len() == 0 {
        0
    } else {
        let m = max_byte_len(v.drop_last());
        if byte_len(v.last()) > m {
            byte_len(v.last())
        } else {
            m
        }
    }
}

/// The texts of column `j`: its header, then its cells.
pub open spec fn column_texts(cols: Seq<Seq<char>>, rows: Seq<Seq<Seq<char>>>, j: int) -> Seq<Seq<char>> {
    seq![cols[j]] + rows.map_values(|r: Seq<Seq<char>>| r[j])
}

/// The width of each column: its longest text, plus one space on each side.
pub open spec fn column_widths(cols: Seq<Seq<char>>, rows: Seq<Seq<Seq<char>>>) -> Seq<nat> {
    Seq::new(cols.len(), |j: int| max_byte_len(column_texts(cols, rows, j)) + 2)
}

/// The width of the first column: the longest non-terminal name, plus one space on each side.
pub open spec fn left_width(names: Seq<Seq<char>>) -> nat {
    max_byte_len(names) + 2
}

/// `n` copies of `c`.
pub open spec fn repeat_char(c: char, n: nat) -> Seq<char> {
    Seq::new(n, |i: int| c)
}

/// `s` centred in a field of `w` characters, as `{:^w}` does: the missing spaces split
/// in two, the smaller half on the left; `s` itself when it is not shorter than `w`.
pub open spec fn center(s: Seq<char>, w: nat) -> Seq<char> {
    if s.len() >= w {
        s
    } else {
        let p = (w - s.len()) as nat;
        repeat_char(' ', p / 2) + s + repeat_char(' ', (p + 1) / 2)
    }
}

/// The texts `cells` centred in the fields `widths`, each followed by `end`.
pub open spec fn plain_cells(cells: Seq<Seq<char>>, widths: Seq<nat>, end: char) -> Seq<char>
    decreases cells.len(),
{
    if cells.len() == 0 {
        Seq::empty()
    } else {
        plain_cells(cells.drop_last(), widths, end) + center(cells.last(), widths[cells.len() - 1]) + seq![end]
    }
}

/// For each width, that many `-` and a `+`.
pub open spec fn dash_cells(widths: Seq<nat>) -> Seq<char>
    decreases widths.len(),
{
    if widths.len() == 0 {
        Seq::empty()
    } else {
        dash_cells(widths.drop_last()) + repeat_char('-', widths.last()) + seq!['+']
    }
}

/// The line drawn between two lines of the plain table.
pub open spec fn separator_line(left: nat, widths: Seq<nat>) -> Seq<char> {
    seq!['+'] + repeat_char('-', left) + seq!['+'] + dash_cells(widths) + seq!['\n']
}

/// One line per row, each followed by the separator line.
pub open spec fn plain_rows(names: Seq<Seq<char>>, rows: Seq<Seq<Seq<char>>>, left: nat, widths: Seq<nat>) -> Seq<char>
    decreases rows.len(),
{
    if rows.len() == 0 {
        Seq::empty()
    } else {
        let i = rows.len() - 1;
        plain_rows(names, rows.drop_last(), left, widths) + seq!['|'] + center(names[i], left) + seq!['|']
            + plain_cells(rows.last(), widths, '|') + seq!['\n'] + separator_line(left, widths)
    }
}

/// The plain-text form of the table: a framed grid with the column names on top and a
/// line per non-terminal.
pub open spec fn plain_text(t: AnalysisTable) -> Seq<char> {
    let cols = column_names(t);
    let rows = string_table(t);
    let names = ordered_names(t);
    let widths = column_widths(cols, rows);
    let left = left_width(names);
    let sep = separator_line(left, widths);
    sep + seq!['+'] + repeat_char(' ', left) + seq!['+'] + plain_cells(cols, widths, '+') + seq!['\n'] + sep
        + plain_rows(names, rows, left, widths)
}

/// The largest `byte_len` is at least that of every text of `v`, and is that of one of
/// them when there is one.
pub proof fn lemma_max_byte_len(v: Seq<Seq<char>>)
    ensures
        forall|i: int| 0 <= i < v.len() ==> byte_len(#[trigger] v[i]) <= max_byte_len(v),
        v.len() > 0 ==> exists|i: int| 0 <= i < v.len() && byte_len(#[trigger] v[i]) == max_byte_len(v),
        v.len() == 0 ==> max_byte_len(v) == 0,
    decreases v.len(),
{
    if v.len() > 0 {
        let w = v.drop_last();
        lemma_max_byte_len(w);
        assert forall|i: int| 0 <= i < v.len() implies byte_len(#[trigger] v[i]) <= max_byte_len(v) by {
            if i < v.len() - 1 {
                assert(v[i] == w[i]);
            }
        }
        if byte_len(v.last()) > max_byte_len(w) {
            assert(byte_len(v[v.len() - 1]) == max_byte_len(v));
        } else if w.len() > 0 {
            let k = choose|k: int| 0 <= k < w.len() && byte_len(#[trigger] w[k]) == max_byte_len(w);
            assert(v[k] == w[k]);
        } else {
            assert(byte_len(v[v.len() - 1]) == max_byte_len(v));
        }
    }
}

/// In the plain table every non-terminal name fits in the first column with a space on
/// each side, and that column is no wider: its width is 2 more than the longest name
/// (in bytes). Likewise each other column is 2 wider than the longest of its header and
/// its cells, so all of them fit.
pub proof fn lemma_plain_widths(t: AnalysisTable)
    ensures
        forall|i: int|
            0 <= i < ordered_names(t).len() ==> byte_len(#[trigger] ordered_names(t)[i]) + 2 <= left_width(ordered_names(t)),
        ordered_names(t).len() > 0 ==> exists|i: int|
            0 <= i < ordered_names(t).len() && byte_len(#[trigger] ordered_names(t)[i]) + 2 == left_width(ordered_names(t)),
        column_widths(column_names(t), string_table(t)).len() == column_names(t).len(),
        forall|j: int|
            0 <= j < column_names(t).len() ==> byte_len(#[trigger] column_names(t)[j]) + 2 <= column_widths(column_names(t), string_table(t))[j],
        forall|i: int, j: int|
            0 <= i < string_table(t).len() && 0 <= j < column_names(t).len() ==> byte_len(#[trigger] string_table(t)[i][j]) + 2
                <= column_widths(column_names(t), string_table(t))[j],
        forall|j: int|
            0 <= j < column_names(t).len() ==> #[trigger] column_widths(column_names(t), string_table(t))[j]
                == max_byte_len(column_texts(column_names(t), string_table(t), j)) + 2,
{
    let names = ordered_names(t);
    let cols = column_names(t);
    let rows = string_table(t);
    lemma_max_byte_len(names);
    assert forall|j: int| 0 <= j < cols.len() implies byte_len(#[trigger] cols[j]) + 2 <= column_widths(cols, rows)[j] by {
        lemma_max_byte_len(column_texts(cols, rows, j));
        assert(column_texts(cols, rows, j)[0] == cols[j]);
    }
    assert forall|i: int, j: int| 0 <= i < rows.len() && 0 <= j < cols.len() implies byte_len(#[trigger] rows[i][j]) + 2
        <= column_widths(cols, rows)[j] by {
        lemma_max_byte_len(column_texts(cols, rows, j));
        assert(column_texts(cols, rows, j)[i + 1] == rows[i][j]);
    }
}

/// The widths of the plain table, each plus one, fit in a `usize`.
pub open spec fn plain_fits(t: AnalysisTable) -> bool {
    let widths = column_widths(column_names(t), string_table(t));
    &&& left_width(ordered_names(t)) < usize::MAX
    &&& forall|j: int| 0 <= j < widths.len() ==> #[trigger] widths[j] < usize::MAX
}

/// The number of bytes of the UTF-8 encoding of `s`.
fn byte_length(s: &String) -> (n: usize)
    ensures
        n == byte_len(s@),
{
    s.as_str().as_bytes().len()
}

/// Appends `n` copies of `c` to `out`.
fn push_repeat(out: &mut Vec<char>, c: char, n: usize)
    ensures
        final(out)@ == old(out)@ + repeat_char(c, n as nat),
{
    let mut i: usize = 0;
    while i < n
        invariant
            i <= n,
            out@ == old(out)@ + repeat_char(c, i as nat),
        decreases n - i,
    {
        out.push(c);
        assert(repeat_char(c, (i + 1) as nat) =~= repeat_char(c, i as nat).push(c));
        i = i + 1;
    }
}

/// Appends `s` centred in a field of `w` characters to `out`.
fn push_centered(out: &mut Vec<char>, s: &String, w: usize)
    ensures
        final(out)@ == old(out)@ + center(s@, w as nat),
{
    let cs = chars_of(s.as_str());
    if cs.len() >= w {
        push_chars(out, cs.as_slice());
    } else {
        let p = w - cs.len();
        push_repeat(out, ' ', p / 2);
        push_chars(out, cs.as_slice());
        push_repeat(out, ' ', p - p / 2);
        assert(p - p / 2 == (p + 1) / 2);
    }
}

/// Appends the texts `cells` centred in the fields `widths` to `out`, each followed by `end`.
fn push_plain_cells(out: &mut Vec<char>, cells: &Vec<String>, widths: &Vec<usize>, end: char)
    requires
        cells@.len() <= widths@.len(),
    ensures
        final(out)@ == old(out)@ + plain_cells(texts(cells@), widths@.map_values(|w: usize| w as nat), end),
{
    let ghost ws = widths@.map_values(|w: usize| w as nat);
    let mut j: usize = 0;
    while j < cells.len()
        invariant
            j <= cells@.len(),
            cells@.len() <= widths@.len(),
            ws == widths@.map_values(|w: usize| w as nat),
            out@ == old(out)@ + plain_cells(texts(cells@).take(j as int), ws, end),
        decreases cells@.len() - j,
    {
        proof {
            assert(texts(cells@).take(j + 1).drop_last() =~= texts(cells@).take(j as int));
        }
        push_centered(out, &cells[j], widths[j]);
        out.push(end);
        j = j + 1;
    }
    assert(texts(cells@).take(cells@.len() as int) =~= texts(cells@));
}

/// Appends, for each width, that many `-` and a `+` to `out`.
fn push_dash_cells(out: &mut Vec<char>, widths: &Vec<usize>)
    ensures
        final(out)@ == old(out)@ + dash_cells(widths@.map_values(|w: usize| w as nat)),
{
    let ghost ws = widths@.map_values(|w: usize| w as nat);
    let mut j: usize = 0;
    while j < widths.len()
        invariant
            j <= widths@.len(),
            ws == widths@.map_values(|w: usize| w as nat),
            out@ == old(out)@ + dash_cells(ws.take(j as int)),
        decreases widths@.len() - j,
    {
        proof {
            assert(ws.take(j + 1).drop_last() =~= ws.take(j as int));
        }
        push_repeat(out, '-', widths[j]);
        out.push('+');
        j = j + 1;
    }
    assert(ws.take(widths@.len() as int) =~= ws);
}

/// Appends a line of the plain table to `out`: the name `name` centred in the first
/// column, the texts `cells` in the others, then the separator line `sep`.
fn push_plain_row(out: &mut Vec<char>, name: &String, cells: &Vec<String>, widths: &Vec<usize>, left: usize, sep: &Vec<char>)
    requires
        cells@.len() <= widths@.len(),
    ensures
        final(out)@ == old(out)@ + seq!['|'] + center(name@, left as nat) + seq!['|']
            + plain_cells(texts(cells@), widths@.map_values(|w: usize| w as nat), '|') + seq!['\n'] + sep@,
{
    out.push('|');
    push_centered(out, name, left);
    out.push('|');
    push_plain_cells(out, cells, widths, '|');
    out.push('\n');
    push_chars(out, sep.as_slice());
}

impl AnalysisTable {
    /// The table in plain-text form (see `plain_text`). Every non-terminal must have a
    /// filled row, and there must be one.
    pub fn display_plain(&self) -> (s: String)
        requires
            self.wf(),
            self.non_terminal_count() > 0,
            forall|a: nat| a < self.non_terminal_count() ==> #[trigger] self.row_filled(a),
            plain_fits(*self),
        ensures
            s@ == plain_text(*self),
    {
        let (table, cols, order) = construct_string_table(self);
        let ghost rows = string_table(*self);
        let ghost ctexts = column_names(*self);
        let ghost names = ordered_names(*self);
        let ghost all_widths = column_widths(ctexts, rows);
        proof {
            assert(texts(cols@).len() == cols@.len());
            assert forall|i: int| 0 <= i < table@.len() implies (#[trigger] table@[i])@.len() == cols@.len() by {
                assert(texts(table@[i]@) == rows[i]);
                assert(rows.len() == table@.len());
                assert(rows[i] == columns(*self).map_values(|tok: Token| cell_text(*self, filled_rows(*self)[i], tok)));
                assert(rows[i].len() == columns(*self).len());
                assert(texts(table@[i]@).len() == table@[i]@.len());
            }
        }
        let mut widths: Vec<usize> = Vec::new();
        let mut j: usize = 0;
        while j < cols.len()
            invariant
                j <= cols@.len(),
                texts(cols@) == ctexts,
                table@.map_values(|row: Vec<String>| texts(row@)) == rows,
                forall|i: int| 0 <= i < table@.len() ==> (#[trigger] table@[i])@.len() == cols@.len(),
                all_widths == column_widths(ctexts, rows),
                forall|k: int| 0 <= k < all_widths.len() ==> #[trigger] all_widths[k] < usize::MAX,
                widths@.map_values(|w: usize| w as nat) == all_widths.take(j as int),
            decreases cols@.len() - j,
        {
            let ghost col = column_texts(ctexts, rows, j as int);
            let mut w = byte_length(&cols[j]);
            proof {
                assert(col.take(1).drop_last() =~= Seq::<Seq<char>>::empty());
                assert(col[0] == ctexts[j as int]);
                assert(cols@[j as int]@ == texts(cols@)[j as int]);
                assert(max_byte_len(Seq::<Seq<char>>::empty()) == 0);
                assert(max_byte_len(col.take(1)) == byte_len(col[0]));
            }
            let mut i: usize = 0;
            while i < table.len()
                invariant
                    i <= table@.len(),
                    j < cols@.len(),
                    table@.map_values(|row: Vec<String>| texts(row@)) == rows,
                    forall|i: int| 0 <= i < table@.len() ==> (#[trigger] table@[i])@.len() == cols@.len(),
                    col == column_texts(ctexts, rows, j as int),
                    col.len() == table@.len() + 1,
                    w as nat == max_byte_len(col.take(i + 1)),
                decreases table@.len() - i,
            {
                let b = byte_length(&table[i][j]);
                proof {
                    assert(col.take(i + 2).drop_last() =~= col.take(i + 1));
                    assert(rows[i as int] == texts(table@[i as int]@));
                    assert(col[i + 1] == rows[i as int][j as int]);
                }
                if b > w {
                    w = b;
                }
                i = i + 1;
            }
            proof {
                assert(col.take(table@.len() as int + 1) =~= col);
                assert(all_widths[j as int] == max_byte_len(col) + 2);
            }
            let cw = w + 2;
            proof {
                assert(widths@.push(cw).map_values(|w: usize| w as nat) =~= widths@.map_values(|w: usize| w as nat).push(cw as nat));
                assert(all_widths.take(j + 1) =~= all_widths.take(j as int).push(all_widths[j as int]));
            }
            widths.push(cw);
            j = j + 1;
        }
        let ghost ws = widths@.map_values(|w: usize| w as nat);
        assert(ws =~= all_widths);
        let mut m: usize = 0;
        let mut i: usize = 0;
        while i < order.len()
            invariant
                i <= order@.len(),
                self.wf(),
                order@.map_values(|a: usize| a as nat) == row_order(*self),
                forall|k: int| 0 <= k < order@.len() ==> #[trigger] order@[k] < self.non_terminal_count(),
                names == ordered_names(*self),
                m as nat == max_byte_len(names.take(i as int)),
            decreases order@.len() - i,
        {
            let b = byte_length(self.non_terminal_name(order[i]));
            proof {
                assert(names.take(i + 1).drop_last() =~= names.take(i as int));
                assert(order@[i as int] as nat == row_order(*self)[i as int]);
            }
            if b > m {
                m = b;
            }
            i = i + 1;
        }
        assert(names.take(order@.len() as int) =~= names);
        let left = m + 2;
        let mut sep: Vec<char> = Vec::new();
        sep.push('+');
        push_repeat(&mut sep, '-', left);
        sep.push('+');
        push_dash_cells(&mut sep, &widths);
        sep.push('\n');
        let ghost sep_line = separator_line(left as nat, ws);
        assert(sep@ =~= sep_line);
        let mut out: Vec<char> = Vec::new();
        push_chars(&mut out, sep.as_slice());
        out.push('+');
        push_repeat(&mut out, ' ', left);
        out.push('+');
        push_plain_cells(&mut out, &cols, &widths, '+');
        out.push('\n');
        push_chars(&mut out, sep.as_slice());
        let ghost head = out@;
        let mut i: usize = 0;
        while i < table.len()
            invariant
                i <= table@.len(),
                self.wf(),
                table@.map_values(|row: Vec<String>| texts(row@)) == rows,
                forall|i: int| 0 <= i < table@.len() ==> (#[trigger] table@[i])@.len() == cols@.len(),
                widths@.len() == cols@.len(),
                ws == widths@.map_values(|w: usize| w as nat),
                order@.map_values(|a: usize| a as nat) == row_order(*self),
                forall|k: int| 0 <= k < order@.len() ==> #[trigger] order@[k] < self.non_terminal_count(),
                names == ordered_names(*self),
                rows == string_table(*self),
                rows.len() <= names.len(),
                sep@ == separator_line(left as nat, ws),
                out@ == head + plain_rows(names, rows.take(i as int), left as nat, ws),
            decreases table@.len() - i,
        {
            proof {
                assert(rows.take(i + 1).drop_last() =~= rows.take(i as int));
                assert(rows[i as int] == texts(table@[i as int]@));
                assert(order@[i as int] as nat == row_order(*self)[i as int]);
            }
            let ghost before = out@;
            push_plain_row(&mut out, self.non_terminal_name(order[i]), &table[i], &widths, left, &sep);
            assert(out@ =~= before + seq!['|'] + center(names[i as int], left as nat) + seq!['|']
                + plain_cells(rows.take(i + 1).last(), ws, '|') + seq!['\n'] + separator_line(left as nat, ws));
            i = i + 1;
        }
        assert(rows.take(table@.len() as int) =~= rows);
        string_of_chars(out.as_slice())
    }
}

} // verus!
