use vstd::prelude::*;

verus! {

broadcast use vstd::string::group_string_axioms;

/// The characters of `s`, in order.
pub fn chars_of(s: &str) -> (v: Vec<char>)
    ensures
        v@ == s@,
{
    let mut v: Vec<char> = Vec::new();
    for c in it: s.chars()
        invariant
            it.seq() == s@,
            v@ == it.seq().take(it.index() as int),
    {
        v.push(c);
    }
    v
}


/// Whether two character sequences are equal.
pub fn chars_eq(a: &[char], b: &[char]) -> (r: bool)
    ensures
        r == (a@ == b@),
{
    if a.len() != b.len() {
        return false;
    }
    let mut i: usize = 0;
    while i < a.len()
        invariant
            i <= a@.len(),
            a@.len() == b@.len(),
            forall|j: int| 0 <= j < i ==> a@[j] == b@[j],
        decreases a@.len() - i,
    {
        if a[i] != b[i] {
            return false;
        }
        i = i + 1;
    }
    assert(a@ =~= b@);
    true
}

/// Whether the text of `s` is `cs`.
pub fn str_eq_chars(s: &str, cs: &[char]) -> (r: bool)
    ensures
        r == (s@ == cs@),
{
    let v = chars_of(s);
    chars_eq(v.as_slice(), cs)
}


/// Appends the character `c` to `s` (std's `String::push`).
#[verifier::external_body]
pub(crate) fn push_char(s: &mut String, c: char)
    ensures
        final(s)@ == old(s)@.push(c),
{
    s.push(c);
}

/// A string holding the characters `cs`.
pub fn string_of_chars(cs: &[char]) -> (s: String)
    ensures
        s@ == cs@,
{
    let mut s = String::new();
    let mut i: usize = 0;
    while i < cs.len()
        invariant
            i <= cs@.len(),
            s@ == cs@.take(i as int),
        decreases cs@.len() - i,
    {
        push_char(&mut s, cs[i]);
        assert(cs@.take(i + 1) =~= cs@.take(i as int).push(cs@[i as int]));
        i = i + 1;
    }
    assert(cs@.take(cs@.len() as int) =~= cs@);
    s
}

/// The pieces of `s` between occurrences of `sep` (one piece more than there are
/// separators, as with `str::split`).
pub open spec fn split_on(s: Seq<char>, sep: char) -> Seq<Seq<char>>
    decreases s.len(),
{
    if s.len() == 0 {
        seq![Seq::<char>::empty()]
    } else {
        let rest = split_on(s.drop_last(), sep);
        if s.last() == sep {
            rest.push(Seq::<char>::empty())
        } else {
            rest.update(rest.len() - 1, rest.last().push(s.last()))
        }
    }
}

pub proof fn lemma_split_on_nonempty(s: Seq<char>, sep: char)
    ensures
        split_on(s, sep).len() >= 1,
    decreases s.len(),
{
    if s.len() > 0 {
        lemma_split_on_nonempty(s.drop_last(), sep);
    }
}

/// The pieces `p` joined, with `sep` between two neighbours.
pub open spec fn join_with(p: Seq<Seq<char>>, sep: char) -> Seq<char>
    decreases p.len(),
{
    if p.len() == 0 {
        Seq::empty()
    } else if p.len() == 1 {
        p[0]
    } else {
        join_with(p.drop_last(), sep).push(sep) + p.last()
    }
}

/// Number of occurrences of `c` in `s`.
pub open spec fn count_char(s: Seq<char>, c: char) -> nat
    decreases s.len(),
{
    if s.len() == 0 {
        0
    } else {
        count_char(s.drop_last(), c) + (if s.last() == c { 1nat } else { 0nat })
    }
}

proof fn lemma_join_extend_last(p: Seq<Seq<char>>, sep: char, c: char)
    requires
        p.len() >= 1,
    ensures
        join_with(p.update(p.len() - 1, p.last().push(c)), sep) == join_with(p, sep).push(c),
{
    let q = p.update(p.len() - 1, p.last().push(c));
    if p.len() > 1 {
        assert(q.drop_last() =~= p.drop_last());
        assert(join_with(p.drop_last(), sep).push(sep) + p.last().push(c) =~= (join_with(p.drop_last(), sep).push(sep) + p.last()).push(c));
    }
}

/// Splitting at every `sep` gives pieces without `sep`, one more than there are
/// separators, that give back `s` when joined with `sep`.
pub proof fn lemma_split_on_joins(s: Seq<char>, sep: char)
    ensures
        join_with(split_on(s, sep), sep) == s,
        split_on(s, sep).len() == count_char(s, sep) + 1,
        forall|k: int| 0 <= k < split_on(s, sep).len() ==> !(#[trigger] split_on(s, sep)[k]).contains(sep),
    decreases s.len(),
{
    if s.len() == 0 {
        assert(split_on(s, sep)[0] =~= Seq::<char>::empty());
        assert(join_with(split_on(s, sep), sep) =~= s);
    } else {
        let w = s.drop_last();
        lemma_split_on_joins(w, sep);
        lemma_split_on_nonempty(w, sep);
        let rest = split_on(w, sep);
        if s.last() == sep {
            assert(rest.push(Seq::<char>::empty()).drop_last() =~= rest);
            assert(join_with(rest, sep).push(sep) + Seq::<char>::empty() =~= s);
            assert forall|k: int| 0 <= k < split_on(s, sep).len() implies !(#[trigger] split_on(s, sep)[k]).contains(sep) by {
                if k < rest.len() {
                    assert(split_on(s, sep)[k] == rest[k]);
                }
            }
        } else {
            lemma_join_extend_last(rest, sep, s.last());
            assert(w.push(s.last()) =~= s);
            assert forall|k: int| 0 <= k < split_on(s, sep).len() implies !(#[trigger] split_on(s, sep)[k]).contains(sep) by {
                if k < rest.len() - 1 {
                    assert(split_on(s, sep)[k] == rest[k]);
                } else {
                    let x = rest.last().push(s.last());
                    assert(split_on(s, sep)[k] == x);
                    assert(!rest[rest.len() - 1].contains(sep));
                    if x.contains(sep) {
                        let j = choose|j: int| 0 <= j < x.len() && x[j] == sep;
                        assert(rest.last()[j] == sep);
                    }
                }
            }
        }
    }
}

/// The texts of a sequence of strings.
pub open spec fn texts(v: Seq<String>) -> Seq<Seq<char>> {
    v.map_values(|s: String| s@)
}

/// The pieces of `cs` between occurrences of `sep`.
pub fn split_chars(cs: &[char], sep: char) -> (pieces: Vec<String>)
    ensures
        texts(pieces@) == split_on(cs@, sep),
{
    let mut pieces: Vec<String> = Vec::new();
    let mut cur = String::new();
    let mut i: usize = 0;
    assert(cs@.take(0) =~= Seq::<char>::empty());
    assert(texts(pieces@).push(cur@) =~= seq![Seq::<char>::empty()]);
    while i < cs.len()
        invariant
            i <= cs@.len(),
            split_on(cs@.take(i as int), sep) == texts(pieces@).push(cur@),
        decreases cs@.len() - i,
    {
        let c = cs[i];
        let ghost p = cs@.take(i as int);
        proof {
            assert(cs@.take(i + 1).drop_last() =~= p);
            assert(cs@.take(i + 1).last() == c);
            lemma_split_on_nonempty(p, sep);
        }
        if c == sep {
            let done = cur;
            pieces.push(done);
            cur = String::new();
            proof {
                assert(texts(pieces@).push(cur@) =~= split_on(p, sep).push(Seq::<char>::empty()));
            }
        } else {
            push_char(&mut cur, c);
            proof {
                let before = split_on(p, sep);
                assert(texts(pieces@).push(cur@) =~= before.update(before.len() - 1, before.last().push(c)));
            }
        }
        i = i + 1;
    }
    assert(cs@.take(cs@.len() as int) =~= cs@);
    pieces.push(cur);
    pieces
}

/// Whether a line is a comment line (it starts with `#`).
pub open spec fn is_comment(l: Seq<char>) -> bool {
    l.len() > 0 && l[0] == '#'
}

/// A line without the carriage return that ends it, if any.
pub open spec fn strip_cr(l: Seq<char>) -> Seq<char> {
    if l.len() > 0 && l.last() == '\r' {
        l.drop_last()
    } else {
        l
    }
}

/// The lines of `s`, as `str::lines` gives them: split at `\n`, with the carriage
/// return before each `\n` removed, and no empty line after a final `\n`.
pub open spec fn lines(s: Seq<char>) -> Seq<Seq<char>> {
    let pieces = split_on(s, '\n');
    let ended = pieces.drop_last().map_values(|l: Seq<char>| strip_cr(l));
    if pieces.last().len() == 0 {
        ended
    } else {
        ended.push(pieces.last())
    }
}

/// The lines of `s` that are not comment lines, joined without separators.
pub open spec fn strip_comments(s: Seq<char>) -> Seq<char> {
    lines(s).filter(|l: Seq<char>| !is_comment(l)).flatten()
}

/// The text of `text` without its comment lines, the remaining lines joined without separators.
pub fn strip_comment_lines(text: &str) -> (r: String)
    ensures
        r@ == strip_comments(text@),
{
    let cs = chars_of(text);
    let ghost keep = |l: Seq<char>| !is_comment(l);
    let ghost strip = |l: Seq<char>| strip_cr(l);
    let mut out: Vec<char> = Vec::new();
    let mut cur: Vec<char> = Vec::new();
    let mut i: usize = 0;
    assert(cs@.take(0) =~= Seq::<char>::empty());
    assert(Seq::<Seq<char>>::empty().map_values(strip).filter(keep) =~= Seq::<Seq<char>>::empty()) by {
        reveal(Seq::filter);
    }
    assert(Seq::<Seq<char>>::empty().flatten() =~= Seq::<char>::empty());
    while i < cs.len()
        invariant
            i <= cs@.len(),
            cs@ == text@,
            keep == (|l: Seq<char>| !is_comment(l)),
            strip == (|l: Seq<char>| strip_cr(l)),
            split_on(cs@.take(i as int), '\n').last() == cur@,
            split_on(cs@.take(i as int), '\n').len() >= 1,
            out@ == split_on(cs@.take(i as int), '\n').drop_last().map_values(strip).filter(keep).flatten(),
        decreases cs@.len() - i,
    {
        let c = cs[i];
        let ghost p = cs@.take(i as int);
        let ghost before = split_on(p, '\n');
        proof {
            assert(cs@.take(i + 1).drop_last() =~= p);
            assert(cs@.take(i + 1).last() == c);
            lemma_split_on_nonempty(p, '\n');
        }
        if c == '\n' {
            let n = cur.len();
            let end = if n > 0 && cur[n - 1] == '\r' { n - 1 } else { n };
            let ghost line = strip_cr(cur@);
            proof {
                if n > 0 && cur@[n - 1] == '\r' {
                    assert(line =~= cur@.take(end as int));
                } else {
                    assert(line =~= cur@.take(end as int));
                }
            }
            if !(end > 0 && cur[0] == '#') {
                let ghost out0 = out@;
                let mut k: usize = 0;
                while k < end
                    invariant
                        k <= end,
                        end <= cur@.len(),
                        out@ == out0 + cur@.take(k as int),
                    decreases end - k,
                {
                    out.push(cur[k]);
                    assert(cur@.take(k + 1) =~= cur@.take(k as int).push(cur@[k as int]));
                    k = k + 1;
                }
            }
            proof {
                let after = split_on(cs@.take(i + 1), '\n');
                assert(after == before.push(Seq::<char>::empty()));
                assert(after.drop_last() =~= before);
                assert(before =~= before.drop_last().push(cur@));
                let done = before.drop_last();
                assert(before.map_values(strip) =~= done.map_values(strip).push(strip(cur@)));
                done.map_values(strip).lemma_filter_push(strip(cur@), keep);
                done.map_values(strip).filter(keep).lemma_flatten_push(strip(cur@));
                assert(strip(cur@) == line);
                if keep(line) {
                    assert(!(end > 0 && cur@[0] == '#'));
                } else {
                    assert(end > 0 && cur@[0] == '#');
                }
            }
            cur = Vec::new();
        } else {
            cur.push(c);
            proof {
                let after = split_on(cs@.take(i + 1), '\n');
                assert(after == before.update(before.len() - 1, before.last().push(c)));
                assert(after.drop_last() =~= before.drop_last());
            }
        }
        i = i + 1;
    }
    assert(cs@.take(cs@.len() as int) =~= cs@);
    if !(cur.len() > 0 && cur[0] == '#') {
        let ghost out0 = out@;
        let mut k: usize = 0;
        while k < cur.len()
            invariant
                k <= cur@.len(),
                out@ == out0 + cur@.take(k as int),
            decreases cur@.len() - k,
        {
            out.push(cur[k]);
            assert(cur@.take(k + 1) =~= cur@.take(k as int).push(cur@[k as int]));
            k = k + 1;
        }
        assert(cur@.take(cur@.len() as int) =~= cur@);
    }
    proof {
        let pieces = split_on(text@, '\n');
        let ended = pieces.drop_last().map_values(strip);
        ended.lemma_filter_push(pieces.last(), keep);
        ended.filter(keep).lemma_flatten_push(pieces.last());
        if pieces.last().len() == 0 {
            assert(out@ =~= ended.filter(keep).flatten());
        }
        assert(lines(text@) == if pieces.last().len() == 0 { ended } else { ended.push(pieces.last()) });
    }
    string_of_chars(out.as_slice())
}

/// `p` occurs in `s` at position `i`.
pub open spec fn occurs_at(s: Seq<char>, p: Seq<char>, i: int) -> bool {
    0 <= i && i + p.len() <= s.len() && s.subrange(i, i + p.len()) == p
}

/// `p` occurs somewhere in `s` (as `str::contains` finds it).
pub open spec fn contains_seq(s: Seq<char>, p: Seq<char>) -> bool {
    exists|i: int| #[trigger] occurs_at(s, p, i)
}

/// `s` begins with `p` (as `str::starts_with` finds it).
pub open spec fn starts(s: Seq<char>, p: Seq<char>) -> bool {
    occurs_at(s, p, 0)
}

/// Whether `p` occurs in `s` at position `i`.
pub fn occurs_at_exec(s: &[char], p: &[char], i: usize) -> (b: bool)
    requires
        i <= s@.len(),
    ensures
        b == occurs_at(s@, p@, i as int),
{
    let n = s.len();
    if p.len() > n - i {
        return false;
    }
    let mut k: usize = 0;
    while k < p.len()
        invariant
            k <= p@.len(),
            n == s@.len(),
            i <= s@.len(),
            i + p@.len() <= s@.len(),
            forall|j: int| 0 <= j < k ==> s@[i + j] == p@[j],
        decreases p@.len() - k,
    {
        if s[i + k] != p[k] {
            assert(s@.subrange(i as int, i + p@.len())[k as int] != p@[k as int]);
            return false;
        }
        k = k + 1;
    }
    assert(s@.subrange(i as int, i + p@.len()) =~= p@);
    true
}

/// Whether `p` occurs in `s`.
pub fn has_exec(s: &[char], p: &[char]) -> (b: bool)
    ensures
        b == contains_seq(s@, p@),
{
    let mut i: usize = 0;
    while i < s.len()
        invariant
            i <= s@.len(),
            forall|j: int| 0 <= j < i ==> !#[trigger] occurs_at(s@, p@, j),
        decreases s@.len() - i,
    {
        if occurs_at_exec(s, p, i) {
            return true;
        }
        i = i + 1;
    }
    if occurs_at_exec(s, p, i) {
        return true;
    }
    assert forall|j: int| !#[trigger] occurs_at(s@, p@, j) by {
        if 0 <= j && j <= s@.len() {
            assert(j < i || j == i);
        }
    }
    false
}

/// Whether the text `p` occurs in `s`.
pub fn has_text(s: &[char], p: &str) -> (b: bool)
    ensures
        b == contains_seq(s@, p@),
{
    let pc = chars_of(p);
    has_exec(s, pc.as_slice())
}

/// Whether `s` begins with the text `p`.
pub fn starts_with_text(s: &[char], p: &str) -> (b: bool)
    ensures
        b == starts(s@, p@),
{
    let pc = chars_of(p);
    occurs_at_exec(s, pc.as_slice(), 0)
}

/// The characters of `a` followed by those of the text `b`.
pub fn append_text(a: Vec<char>, b: &str) -> (v: Vec<char>)
    ensures
        v@ == a@ + b@,
{
    let mut v = a;
    let mut w = chars_of(b);
    v.append(&mut w);
    v
}

/// The characters of `a` followed by those of `b`.
pub fn append_chars(a: Vec<char>, b: Vec<char>) -> (v: Vec<char>)
    ensures
        v@ == a@ + b@,
{
    let mut v = a;
    let mut w = b;
    v.append(&mut w);
    v
}

/// The decimal digit `d` (below 10).
pub open spec fn digit_char(d: nat) -> char {
    if d == 0 {
        '0'
    } else if d == 1 {
        '1'
    } else if d == 2 {
        '2'
    } else if d == 3 {
        '3'
    } else if d == 4 {
        '4'
    } else if d == 5 {
        '5'
    } else if d == 6 {
        '6'
    } else if d == 7 {
        '7'
    } else if d == 8 {
        '8'
    } else {
        '9'
    }
}

/// The decimal writing of `n`, without leading zeros.
pub open spec fn decimal(n: nat) -> Seq<char>
    decreases n,
{
    if n < 10 {
        seq![digit_char(n)]
    } else {
        decimal(n / 10).push(digit_char(n % 10))
    }
}

fn digit_of(d: usize) -> (c: char)
    requires
        d < 10,
    ensures
        c == digit_char(d as nat),
{
    if d == 0 {
        '0'
    } else if d == 1 {
        '1'
    } else if d == 2 {
        '2'
    } else if d == 3 {
        '3'
    } else if d == 4 {
        '4'
    } else if d == 5 {
        '5'
    } else if d == 6 {
        '6'
    } else if d == 7 {
        '7'
    } else if d == 8 {
        '8'
    } else {
        '9'
    }
}

/// The decimal writing of `n`.
pub fn decimal_chars(n: usize) -> (v: Vec<char>)
    ensures
        v@ == decimal(n as nat),
    decreases n,
{
    if n < 10 {
        let mut v: Vec<char> = Vec::new();
        v.push(digit_of(n));
        assert(v@ =~= seq![digit_char(n as nat)]);
        v
    } else {
        let mut v = decimal_chars(n / 10);
        v.push(digit_of(n % 10));
        v
    }
}

} // verus!
