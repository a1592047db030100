//! Splitting record lines into whitespace-separated tokens, splitting file
//! content into lines, and joining both back.
use vstd::prelude::*;
use vstd::string::*;
use crate::text::is_space_char;
use crate::text::char_is_space;

verus! {

/// A well-formed token: non-empty and free of separator characters.
pub open spec fn wf_token(t: Seq<char>) -> bool {
    t.len() > 0 && forall|k: int| 0 <= k < t.len() ==> !is_space_char(t[k])
}

/// A line has no embedded newline.
pub open spec fn no_newline(l: Seq<char>) -> bool {
    forall|k: int| 0 <= k < l.len() ==> l[k] != '\n'
}

/// Length of the leading run of non-separator characters.
pub open spec fn tok_len(s: Seq<char>) -> int
    decreases s.len(),
{
    if s.len() == 0 || is_space_char(s[0]) {
        0
    } else {
        1 + tok_len(s.drop_first())
    }
}

/// Bounds of the leading-token length.
pub proof fn lemma_tok_len_bounds(s: Seq<char>)
    ensures
        0 <= tok_len(s) <= s.len(),
        s.len() > 0 && !is_space_char(s[0]) ==> tok_len(s) >= 1,
    decreases s.len(),
{
    if s.len() > 0 && !is_space_char(s[0]) {
        lemma_tok_len_bounds(s.drop_first());
    }
}

/// The whitespace-separated tokens of a line, in order, without empties.
pub open spec fn tokens_of(s: Seq<char>) -> Seq<Seq<char>>
    decreases s.len(),
    via tokens_of_dec
{
    if s.len() == 0 {
        Seq::empty()
    } else if is_space_char(s[0]) {
        tokens_of(s.drop_first())
    } else {
        seq![s.take(tok_len(s))] + tokens_of(s.skip(tok_len(s)))
    }
}

#[via_fn]
proof fn tokens_of_dec(s: Seq<char>) {
    if s.len() > 0 && !is_space_char(s[0]) {
        lemma_tok_len_bounds(s);
    }
}

/// Length of the leading run of non-newline characters.
pub open spec fn line_len(s: Seq<char>) -> int
    decreases s.len(),
{
    if s.len() == 0 || s[0] == '\n' {
        0
    } else {
        1 + line_len(s.drop_first())
    }
}

/// Bounds of the leading-line length.
pub proof fn lemma_line_len_bounds(s: Seq<char>)
    ensures
        0 <= line_len(s) <= s.len(),
    decreases s.len(),
{
    if s.len() > 0 && s[0] != '\n' {
        lemma_line_len_bounds(s.drop_first());
    }
}

/// The lines of a text, split at newlines; a final newline ends the last
/// line rather than opening an empty one.
pub open spec fn lines_of(s: Seq<char>) -> Seq<Seq<char>>
    decreases s.len(),
    via lines_of_dec
{
    if s.len() == 0 {
        Seq::empty()
    } else {
        let k = line_len(s);
        let tail = if k < s.len() {
            s.skip(k + 1)
        } else {
            Seq::<char>::empty()
        };
        seq![s.take(k)] + lines_of(tail)
    }
}

#[via_fn]
proof fn lines_of_dec(s: Seq<char>) {
    if s.len() > 0 {
        lemma_line_len_bounds(s);
    }
}

/// Joins tokens with single separating spaces.
pub open spec fn join_spaces(toks: Seq<Seq<char>>) -> Seq<char>
    decreases toks.len(),
{
    if toks.len() == 0 {
        Seq::empty()
    } else if toks.len() == 1 {
        toks[0]
    } else {
        toks[0] + seq![' '] + join_spaces(toks.drop_first())
    }
}

/// Joins lines with single newlines, without a trailing newline.
pub open spec fn join_lines(ls: Seq<Seq<char>>) -> Seq<char>
    decreases ls.len(),
{
    if ls.len() == 0 {
        Seq::empty()
    } else if ls.len() == 1 {
        ls[0]
    } else {
        ls[0] + seq!['\n'] + join_lines(ls.drop_first())
    }
}

pub proof fn lemma_tok_len_prefix(s: Seq<char>, m: int)
    requires
        0 <= m <= s.len(),
        forall|k: int| 0 <= k < m ==> !is_space_char(s[k]),
        m == s.len() || is_space_char(s[m]),
    ensures
        tok_len(s) == m,
    decreases m,
{
    if m == 0 {
    } else {
        lemma_tok_len_prefix(s.drop_first(), m - 1);
    }
}

pub proof fn lemma_line_len_prefix(s: Seq<char>, m: int)
    requires
        0 <= m <= s.len(),
        forall|k: int| 0 <= k < m ==> s[k] != '\n',
        m == s.len() || s[m] == '\n',
    ensures
        line_len(s) == m,
    decreases m,
{
    if m == 0 {
    } else {
        lemma_line_len_prefix(s.drop_first(), m - 1);
    }
}

/// Appending text that opens with a separator does not change the leading
/// token's length.
proof fn lemma_tok_len_concat(a: Seq<char>, b: Seq<char>)
    requires
        b.len() > 0,
        is_space_char(b[0]),
    ensures
        tok_len(a + b) == tok_len(a),
    decreases a.len(),
{
    if a.len() == 0 {
        assert(a + b =~= b);
    } else if is_space_char(a[0]) {
    } else {
        assert((a + b).drop_first() =~= a.drop_first() + b);
        lemma_tok_len_concat(a.drop_first(), b);
    }
}

/// Tokenizing distributes over a split at a separator character.
pub proof fn lemma_tokens_of_concat(a: Seq<char>, b: Seq<char>)
    requires
        b.len() > 0,
        is_space_char(b[0]),
    ensures
        tokens_of(a + b) == tokens_of(a) + tokens_of(b),
    decreases a.len(),
{
    if a.len() == 0 {
        assert(a + b =~= b);
        assert(tokens_of(a) + tokens_of(b) =~= tokens_of(b));
    } else if is_space_char(a[0]) {
        assert((a + b).drop_first() =~= a.drop_first() + b);
        lemma_tokens_of_concat(a.drop_first(), b);
    } else {
        let k = tok_len(a);
        lemma_tok_len_concat(a, b);
        lemma_tok_len_bounds(a);
        assert(0 < k <= a.len());
        assert((a + b).take(k) =~= a.take(k));
        assert((a + b).skip(k) =~= a.skip(k) + b);
        lemma_tokens_of_concat(a.skip(k), b);
        assert(tokens_of(a + b) =~= tokens_of(a) + tokens_of(b));
    }
}

/// A single well-formed token tokenizes to itself.
pub proof fn lemma_tokens_of_single(t: Seq<char>)
    requires
        wf_token(t),
    ensures
        tokens_of(t) == seq![t],
{
    lemma_tok_len_prefix(t, t.len() as int);
    assert(t.take(t.len() as int) =~= t);
    assert(t.skip(t.len() as int) =~= Seq::<char>::empty());
    assert(!is_space_char(t[0]));
    assert(tokens_of(t) == seq![t.take(tok_len(t))] + tokens_of(t.skip(tok_len(t))));
    assert(tokens_of(t.skip(tok_len(t))) == Seq::<Seq<char>>::empty());
    assert(tokens_of(t) =~= seq![t]);
}

proof fn lemma_line_len_concat(a: Seq<char>, b: Seq<char>)
    requires
        no_newline(a),
        b.len() > 0,
        b[0] == '\n',
    ensures
        line_len(a + b) == a.len(),
    decreases a.len(),
{
    if a.len() == 0 {
        assert(a + b =~= b);
    } else {
        assert((a + b).drop_first() =~= a.drop_first() + b);
        lemma_line_len_concat(a.drop_first(), b);
    }
}

/// Splitting into lines distributes over a split at a newline.
pub proof fn lemma_lines_of_concat(a: Seq<char>, b: Seq<char>)
    requires
        no_newline(a),
    ensures
        lines_of(a + seq!['\n'] + b) == seq![a] + lines_of(b),
{
    let s = a + seq!['\n'] + b;
    lemma_line_len_concat(a, seq!['\n'] + b);
    assert(a + (seq!['\n'] + b) =~= s);
    assert(line_len(s) == a.len());
    assert(s.take(a.len() as int) =~= a);
    assert(line_len(s) < s.len());
    assert(s.skip(a.len() as int + 1) =~= b);
    assert(lines_of(s) =~= seq![a] + lines_of(b));
}

/// A single line without newlines splits to itself (or to nothing if empty).
pub proof fn lemma_lines_of_single(l: Seq<char>)
    requires
        no_newline(l),
        l.len() > 0,
    ensures
        lines_of(l) == seq![l],
{
    lemma_line_len_prefix(l, l.len() as int);
    assert(l.take(l.len() as int) =~= l);
    assert(lines_of(l) == seq![l.take(line_len(l))] + lines_of(Seq::<char>::empty()));
    assert(lines_of(l) =~= seq![l]);
}

/// Splitting is a left inverse of joining lines, except that one trailing
/// empty line is absorbed into the final newline.
pub proof fn lemma_lines_of_join(ls: Seq<Seq<char>>)
    requires
        forall|i: int| 0 <= i < ls.len() ==> no_newline(#[trigger] ls[i]),
    ensures
        lines_of(join_lines(ls)) == if ls.len() > 0 && ls.last().len() == 0 {
            ls.drop_last()
        } else {
            ls
        },
    decreases ls.len(),
{
    if ls.len() == 0 {
    } else if ls.len() == 1 {
        if ls[0].len() == 0 {
            assert(lines_of(join_lines(ls)) =~= ls.drop_last());
        } else {
            lemma_lines_of_single(ls[0]);
            assert(lines_of(join_lines(ls)) =~= ls);
        }
    } else {
        let a = ls[0];
        let rest = ls.drop_first();
        assert(join_lines(ls) =~= a + seq!['\n'] + join_lines(rest));
        lemma_lines_of_concat(a, join_lines(rest));
        lemma_lines_of_join(rest);
        assert(ls.last() == rest.last());
        if rest.last().len() == 0 {
            assert(seq![a] + rest.drop_last() =~= ls.drop_last());
        } else {
            assert(seq![a] + rest =~= ls);
        }
    }
}

/// The tokens of a run of space-joined parts, part by part.
pub open spec fn flat_tokens(parts: Seq<Seq<char>>) -> Seq<Seq<char>>
    decreases parts.len(),
{
    if parts.len() == 0 {
        Seq::empty()
    } else {
        tokens_of(parts[0]) + flat_tokens(parts.drop_first())
    }
}

/// The tokens of a space-joined run of parts are the tokens of the parts.
pub proof fn lemma_tokens_of_join_parts(parts: Seq<Seq<char>>)
    ensures
        tokens_of(join_spaces(parts)) == flat_tokens(parts),
    decreases parts.len(),
{
    if parts.len() == 0 {
    } else if parts.len() == 1 {
        assert(flat_tokens(parts.drop_first()) =~= Seq::<Seq<char>>::empty());
        assert(tokens_of(join_spaces(parts)) =~= flat_tokens(parts));
    } else {
        let a = parts[0];
        let b = seq![' '] + join_spaces(parts.drop_first());
        assert(join_spaces(parts) =~= a + b);
        lemma_tokens_of_concat(a, b);
        assert(b.drop_first() =~= join_spaces(parts.drop_first()));
        lemma_tokens_of_join_parts(parts.drop_first());
        assert(tokens_of(join_spaces(parts)) =~= flat_tokens(parts));
    }
}

/// A join of tokens opening with a non-empty token is non-empty.
pub proof fn lemma_join_nonempty(toks: Seq<Seq<char>>)
    requires
        toks.len() > 0,
        toks[0].len() > 0,
    ensures
        join_spaces(toks).len() > 0,
{
}

/// Joining one more token appends a separator and the token.
pub proof fn lemma_join_spaces_push(toks: Seq<Seq<char>>, t: Seq<char>)
    ensures
        join_spaces(toks.push(t)) == if toks.len() == 0 {
            t
        } else {
            join_spaces(toks) + seq![' '] + t
        },
    decreases toks.len(),
{
    if toks.len() == 0 {
        assert(toks.push(t)[0] == t);
    } else if toks.len() == 1 {
        assert(toks.push(t).drop_first() =~= toks.drop_first().push(t));
        assert(join_spaces(toks.push(t)) == toks[0] + seq![' '] + join_spaces(
            toks.drop_first().push(t),
        ));
        lemma_join_spaces_push(toks.drop_first(), t);
    } else {
        assert(toks.push(t).drop_first() =~= toks.drop_first().push(t));
        lemma_join_spaces_push(toks.drop_first(), t);
        assert(join_spaces(toks.push(t)) =~= join_spaces(toks) + seq![' '] + t);
    }
}

/// Joining one more line appends a newline and the line.
pub proof fn lemma_join_lines_push(ls: Seq<Seq<char>>, l: Seq<char>)
    ensures
        join_lines(ls.push(l)) == if ls.len() == 0 {
            l
        } else {
            join_lines(ls) + seq!['\n'] + l
        },
    decreases ls.len(),
{
    if ls.len() == 0 {
        assert(ls.push(l)[0] == l);
    } else if ls.len() == 1 {
        assert(ls.push(l).drop_first() =~= ls.drop_first().push(l));
        assert(join_lines(ls.push(l)) == ls[0] + seq!['\n'] + join_lines(
            ls.drop_first().push(l),
        ));
        lemma_join_lines_push(ls.drop_first(), l);
    } else {
        assert(ls.push(l).drop_first() =~= ls.drop_first().push(l));
        lemma_join_lines_push(ls.drop_first(), l);
        assert(join_lines(ls.push(l)) =~= join_lines(ls) + seq!['\n'] + l);
    }
}

/// Splits a line into its whitespace-separated tokens.
pub fn tokenize<'a>(line: &'a str) -> (r: Vec<&'a str>)
    ensures
        r.deep_view() == tokens_of(line@),
        forall|i: int| 0 <= i < r@.len() ==> wf_token(#[trigger] r.deep_view()[i]),
{
    let n = line.unicode_len();
    let mut r: Vec<&'a str> = Vec::new();
    let mut i: usize = 0;
    proof {
        assert(line@.skip(0) =~= line@);
        assert(r.deep_view() + tokens_of(line@) =~= tokens_of(line@));
    }
    while i < n
        invariant
            n == line@.len(),
            i <= n,
            r.deep_view() + tokens_of(line@.skip(i as int)) == tokens_of(line@),
            forall|k: int| 0 <= k < r@.len() ==> wf_token(#[trigger] r.deep_view()[k]),
        decreases n - i,
    {
        let c = line.get_char(i);
        if char_is_space(c) {
            proof {
                assert(line@.skip(i as int).drop_first() =~= line@.skip(i + 1));
            }
            i = i + 1;
        } else {
            let start = i;
            let mut j = i + 1;
            while j < n
                invariant
                    n == line@.len(),
                    start < j <= n,
                    forall|k: int| start <= k < j ==> !is_space_char(#[trigger] line@[k]),
                ensures
                    start < j <= n,
                    forall|k: int| start <= k < j ==> !is_space_char(#[trigger] line@[k]),
                    j == n || is_space_char(line@[j as int]),
                decreases n - j,
            {
                if char_is_space(line.get_char(j)) {
                    break ;
                }
                j = j + 1;
            }
            let tok = line.substring_char(start, j);
            let ghost sfx = line@.skip(start as int);
            proof {
                assert(forall|k: int|
                    0 <= k < (j - start) ==> !is_space_char(#[trigger] sfx[k]));
                if (j as int) < n {
                    assert(is_space_char(sfx[j - start]));
                }
                lemma_tok_len_prefix(sfx, j - start);
                assert(sfx.take(j - start) =~= line@.subrange(start as int, j as int));
                assert(sfx.skip(j - start) =~= line@.skip(j as int));
                assert(tokens_of(sfx) == seq![line@.subrange(start as int, j as int)] + tokens_of(
                    line@.skip(j as int),
                ));
                let ghost prev = r.deep_view();
                assert(prev.push(tok@) + tokens_of(line@.skip(j as int)) =~= prev + tokens_of(
                    sfx,
                ));
            }
            let ghost prev = r.deep_view();
            r.push(tok);
            proof {
                assert(r.deep_view() =~= prev.push(tok@));
            }
            i = j;
        }
    }
    proof {
        assert(line@.skip(n as int) =~= Seq::<char>::empty());
        assert(r.deep_view() + Seq::<Seq<char>>::empty() =~= r.deep_view());
    }
    r
}

/// Splits text into its lines.
pub fn split_lines<'a>(content: &'a str) -> (r: Vec<&'a str>)
    ensures
        r.deep_view() == lines_of(content@),
        forall|i: int| 0 <= i < r@.len() ==> no_newline(#[trigger] r.deep_view()[i]),
{
    let n = content.unicode_len();
    let mut r: Vec<&'a str> = Vec::new();
    let mut i: usize = 0;
    proof {
        assert(content@.skip(0) =~= content@);
        assert(r.deep_view() + lines_of(content@) =~= lines_of(content@));
    }
    while i < n
        invariant
            n == content@.len(),
            i <= n,
            r.deep_view() + lines_of(content@.skip(i as int)) == lines_of(content@),
            forall|k: int| 0 <= k < r@.len() ==> no_newline(#[trigger] r.deep_view()[k]),
        decreases n - i,
    {
        let start = i;
        let mut j = i;
        while j < n
            invariant
                n == content@.len(),
                start <= j <= n,
                forall|k: int| start <= k < j ==> #[trigger] content@[k] != '\n',
            ensures
                start <= j <= n,
                forall|k: int| start <= k < j ==> #[trigger] content@[k] != '\n',
                j == n || content@[j as int] == '\n',
            decreases n - j,
        {
            if content.get_char(j) == '\n' {
                break ;
            }
            j = j + 1;
        }
        let ln = content.substring_char(start, j);
        let ghost sfx = content@.skip(start as int);
        proof {
            assert(forall|k: int| 0 <= k < (j - start) ==> #[trigger] sfx[k] != '\n');
            if (j as int) < n {
                assert(sfx[j - start] == '\n');
            }
            lemma_line_len_prefix(sfx, j - start);
            assert(sfx.take(j - start) =~= content@.subrange(start as int, j as int));
            if (j as int) < n {
                assert(sfx.skip(j - start + 1) =~= content@.skip(j + 1));
            } else {
                assert(sfx.len() == j - start);
            }
        }
        let ghost prev = r.deep_view();
        r.push(ln);
        proof {
            assert(r.deep_view() =~= prev.push(ln@));
            if (j as int) < n {
                assert(prev.push(ln@) + lines_of(content@.skip(j + 1)) =~= prev + lines_of(sfx));
            } else {
                assert(lines_of(sfx) == seq![content@.subrange(start as int, j as int)]
                    + lines_of(Seq::<char>::empty()));
                assert(prev.push(ln@) + lines_of(Seq::<char>::empty()) =~= prev + lines_of(sfx));
            }
        }
        if j < n {
            i = j + 1;
        } else {
            i = n;
            proof {
                assert(content@.skip(n as int) =~= Seq::<char>::empty());
            }
        }
    }
    proof {
        assert(content@.skip(n as int) =~= Seq::<char>::empty());
        assert(r.deep_view() + Seq::<Seq<char>>::empty() =~= r.deep_view());
    }
    r
}

/// Joins lines back into file content with newline separators.
pub fn join_lines_exec(ls: &Vec<String>) -> (r: String)
    ensures
        r@ == join_lines(ls.deep_view()),
{
    let mut r = String::new();
    let mut i: usize = 0;
    while i < ls.len()
        invariant
            i <= ls@.len(),
            r@ == join_lines(ls.deep_view().take(i as int)),
        decreases ls@.len() - i,
    {
        if i > 0 {
            r.append("\n");
            proof {
                reveal_strlit("\n");
            }
        }
        r.append(ls[i].as_str());
        proof {
            lemma_join_lines_push(ls.deep_view().take(i as int), ls.deep_view()[i as int]);
            assert(ls.deep_view().take(i as int).push(ls.deep_view()[i as int]) =~= ls.deep_view()
                .take(i + 1));
            if i == 0 {
                assert(r@ =~= join_lines(ls.deep_view().take(i + 1)));
            } else {
                assert(r@ =~= join_lines(ls.deep_view().take(i + 1)));
            }
        }
        i = i + 1;
    }
    proof {
        assert(ls.deep_view().take(ls@.len() as int) =~= ls.deep_view());
    }
    r
}

} // verus!
