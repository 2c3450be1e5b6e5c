//! Quote-aware lexical analysis: splitting a command line into pipeline
//! subcommands on unquoted pipe characters, and tokenizing one subcommand
//! into whitespace-separated, quote-stripped words.
//!
//! Both scans track the same quote state: either quote character (`"` or
//! `'`) toggles the state, without remembering which kind opened it. A
//! line whose quote is never closed is accepted leniently: the rest of the
//! line counts as quoted text.

use vstd::prelude::*;

verus! {

/// A character that toggles the quote state during scanning.
pub open spec fn is_quote_char(c: char) -> bool {
    c == '"' || c == '\''
}

/// A word separator inside one subcommand: space or tab.
pub open spec fn is_word_sep(c: char) -> bool {
    c == ' ' || c == '\t'
}

/// A blank character for the purpose of trimming a whole input line.
pub open spec fn is_blank(c: char) -> bool {
    c == ' ' || c == '\t' || c == '\n' || c == '\r'
}

/// The input line with its leading blanks removed.
pub open spec fn drop_leading_blanks(s: Seq<char>) -> Seq<char>
    decreases s.len(),
{
    if s.len() > 0 && is_blank(s[0]) {
        drop_leading_blanks(s.drop_first())
    } else {
        s
    }
}

/// The input line with its trailing blanks removed.
pub open spec fn drop_trailing_blanks(s: Seq<char>) -> Seq<char>
    decreases s.len(),
{
    if s.len() > 0 && is_blank(s.last()) {
        drop_trailing_blanks(s.drop_last())
    } else {
        s
    }
}

/// The input line with leading and trailing blanks removed.
pub open spec fn spec_trim(s: Seq<char>) -> Seq<char> {
    drop_trailing_blanks(drop_leading_blanks(s))
}

/// One step of the splitter scan, starting in quote state `inq` with the
/// span accumulated since the last split point in `cur`. An unquoted pipe
/// ends the current span (an empty span is not emitted); every other
/// character, quote characters included, stays in the span.
pub open spec fn split_rec(s: Seq<char>, cur: Seq<char>, inq: bool) -> Seq<Seq<char>>
    decreases s.len(),
{
    if s.len() == 0 {
        if cur.len() > 0 {
            seq![cur]
        } else {
            Seq::empty()
        }
    } else {
        let c = s[0];
        if c == '|' && !inq {
            if cur.len() > 0 {
                seq![cur] + split_rec(s.drop_first(), Seq::empty(), false)
            } else {
                split_rec(s.drop_first(), Seq::empty(), false)
            }
        } else {
            split_rec(s.drop_first(), cur.push(c), if is_quote_char(c) { !inq } else { inq })
        }
    }
}

/// The subcommands of a command line: the nonempty spans between unquoted
/// pipe characters, in order, with quote characters preserved.
pub open spec fn spec_split(s: Seq<char>) -> Seq<Seq<char>> {
    split_rec(s, Seq::empty(), false)
}

/// One step of the tokenizer scan, starting in quote state `inq` with the
/// content of the word being accumulated in `cur`. Unquoted whitespace ends
/// the current word (a word with no content is not emitted); quote
/// characters toggle the state and are stripped from the content; every
/// other character becomes content.
pub open spec fn tok_rec(s: Seq<char>, cur: Seq<char>, inq: bool) -> Seq<Seq<char>>
    decreases s.len(),
{
    if s.len() == 0 {
        if cur.len() > 0 {
            seq![cur]
        } else {
            Seq::empty()
        }
    } else {
        let c = s[0];
        if is_word_sep(c) && !inq {
            if cur.len() > 0 {
                seq![cur] + tok_rec(s.drop_first(), Seq::empty(), false)
            } else {
                tok_rec(s.drop_first(), Seq::empty(), false)
            }
        } else if is_quote_char(c) {
            tok_rec(s.drop_first(), cur, !inq)
        } else {
            tok_rec(s.drop_first(), cur.push(c), inq)
        }
    }
}

/// The tokens of one subcommand: the quote-stripped words between runs of
/// unquoted whitespace, in order. No emitted token is empty.
pub open spec fn spec_tokenize(s: Seq<char>) -> Seq<Seq<char>> {
    tok_rec(s, Seq::empty(), false)
}

/// Relies on String::push: appends the given character to the end of the
/// string.
#[verifier::external_body]
fn push_char(s: &mut String, c: char)
    ensures
        final(s)@ == old(s)@.push(c),
{
    s.push(c);
}

proof fn lemma_skip_step(s: Seq<char>, i: int)
    requires
        0 <= i < s.len(),
    ensures
        s.skip(i).len() == s.len() - i,
        s.skip(i)[0] == s[i],
        s.skip(i).drop_first() =~= s.skip(i + 1),
{
}

/// Splits a command line into its pipeline subcommands on unquoted pipe
/// characters. Quote characters are kept in the emitted subcommands, and
/// whitespace inside a subcommand is preserved; empty spans (consecutive
/// pipes, or a pipe at either end of the line) are dropped.
pub fn split_subcommands(line: &str) -> (r: Vec<String>)
    ensures
        r.deep_view() == spec_split(line@),
{
    let n = line.unicode_len();
    let mut out: Vec<String> = Vec::new();
    let mut cur: String = String::new();
    let mut inq: bool = false;
    let mut i: usize = 0;
    proof {
        assert(line@.skip(0) =~= line@);
    }
    while i < n
        invariant
            n == line@.len(),
            i <= n,
            spec_split(line@) == out.deep_view() + split_rec(line@.skip(i as int), cur@, inq),
        decreases n - i,
    {
        proof {
            lemma_skip_step(line@, i as int);
        }
        let c = line.get_char(i);
        if c == '|' && !inq {
            if !cur.as_str().is_empty() {
                let ghost prev = out.deep_view();
                out.push(cur);
                proof {
                    assert(out.deep_view() =~= prev.push(cur@));
                    assert(prev + (seq![cur@] + split_rec(line@.skip(i + 1), Seq::empty(), false))
                        =~= out.deep_view() + split_rec(line@.skip(i + 1), Seq::empty(), false));
                }
                cur = String::new();
            } else {
                proof {
                    assert(cur@ =~= Seq::<char>::empty());
                }
            }
        } else {
            if c == '"' || c == '\'' {
                inq = !inq;
            }
            push_char(&mut cur, c);
        }
        i += 1;
    }
    proof {
        assert(line@.skip(n as int) =~= Seq::<char>::empty());
    }
    if !cur.as_str().is_empty() {
        let ghost prev = out.deep_view();
        out.push(cur);
        proof {
            assert(out.deep_view() =~= prev.push(cur@));
            assert(prev + seq![cur@] =~= out.deep_view());
        }
    } else {
        proof {
            assert(out.deep_view() + Seq::<Seq<char>>::empty() =~= out.deep_view());
        }
    }
    out
}

/// Tokenizes one subcommand into its words: unquoted whitespace separates
/// tokens, quote characters toggle the quote state and are stripped, and
/// whitespace inside quotes is kept as token content. An empty or
/// all-whitespace subcommand yields no tokens.
pub fn tokenize_comm(comm: &str) -> (r: Vec<String>)
    ensures
        r.deep_view() == spec_tokenize(comm@),
{
    let n = comm.unicode_len();
    let mut out: Vec<String> = Vec::new();
    let mut cur: String = String::new();
    let mut inq: bool = false;
    let mut i: usize = 0;
    proof {
        assert(comm@.skip(0) =~= comm@);
    }
    while i < n
        invariant
            n == comm@.len(),
            i <= n,
            spec_tokenize(comm@) == out.deep_view() + tok_rec(comm@.skip(i as int), cur@, inq),
        decreases n - i,
    {
        proof {
            lemma_skip_step(comm@, i as int);
        }
        let c = comm.get_char(i);
        if (c == ' ' || c == '\t') && !inq {
            if !cur.as_str().is_empty() {
                let ghost prev = out.deep_view();
                out.push(cur);
                proof {
                    assert(out.deep_view() =~= prev.push(cur@));
                    assert(prev + (seq![cur@] + tok_rec(comm@.skip(i + 1), Seq::empty(), false))
                        =~= out.deep_view() + tok_rec(comm@.skip(i + 1), Seq::empty(), false));
                }
                cur = String::new();
            } else {
                proof {
                    assert(cur@ =~= Seq::<char>::empty());
                }
            }
        } else if c == '"' || c == '\'' {
            inq = !inq;
        } else {
            push_char(&mut cur, c);
        }
        i += 1;
    }
    proof {
        assert(comm@.skip(n as int) =~= Seq::<char>::empty());
    }
    if !cur.as_str().is_empty() {
        let ghost prev = out.deep_view();
        out.push(cur);
        proof {
            assert(out.deep_view() =~= prev.push(cur@));
            assert(prev + seq![cur@] =~= out.deep_view());
        }
    } else {
        proof {
            assert(out.deep_view() + Seq::<Seq<char>>::empty() =~= out.deep_view());
        }
    }
    out
}

/// True exactly when `c` is a blank character in the sense of `is_blank`.
fn is_blank_char(c: char) -> (r: bool)
    ensures
        r == is_blank(c),
{
    c == ' ' || c == '\t' || c == '\n' || c == '\r'
}

/// Trims leading and trailing blanks (space, tab, newline, carriage
/// return) from an input line.
pub fn trim_line(line: &str) -> (r: String)
    ensures
        r@ == spec_trim(line@),
{
    let n = line.unicode_len();
    let mut a: usize = 0;
    while a < n && is_blank_char(line.get_char(a))
        invariant
            n == line@.len(),
            a <= n,
            forall|i: int| 0 <= i < a ==> is_blank(line@[i]),
        decreases n - a,
    {
        a += 1;
    }
    proof {
        lemma_drop_leading_is_skip(line@, a as int);
    }
    if a == n {
        proof {
            assert(line@.skip(a as int) =~= Seq::<char>::empty());
        }
        return String::new();
    }
    let mut b: usize = n;
    while b > a + 1 && is_blank_char(line.get_char(b - 1))
        invariant
            n == line@.len(),
            a < b <= n,
            forall|i: int| b <= i < n ==> is_blank(line@[i]),
        decreases b,
    {
        b -= 1;
    }
    proof {
        let suf = line@.skip(a as int);
        assert forall|i: int| (b - a) <= i < suf.len() implies is_blank(suf[i]) by {
            assert(suf[i] == line@[i + a]);
        }
        assert(!is_blank(suf[0]));
        lemma_drop_trailing_is_take(suf, (b - a) as int);
        assert(suf.take((b - a) as int) =~= line@.subrange(a as int, b as int));
    }
    let piece = line.substring_char(a, b);
    String::from_str(piece)
}

proof fn lemma_drop_leading_is_skip(s: Seq<char>, k: int)
    requires
        0 <= k <= s.len(),
        forall|i: int| 0 <= i < k ==> is_blank(s[i]),
        k == s.len() || !is_blank(s[k]),
    ensures
        drop_leading_blanks(s) == s.skip(k),
    decreases k,
{
    if k == 0 {
        assert(s.skip(0) =~= s);
    } else {
        let t = s.drop_first();
        assert forall|i: int| 0 <= i < k - 1 implies is_blank(t[i]) by {
            assert(t[i] == s[i + 1]);
        }
        lemma_drop_leading_is_skip(t, k - 1);
        assert(t.skip(k - 1) =~= s.skip(k));
    }
}

proof fn lemma_drop_trailing_is_take(s: Seq<char>, k: int)
    requires
        0 <= k <= s.len(),
        forall|i: int| k <= i < s.len() ==> is_blank(s[i]),
        k == 0 || !is_blank(s[k - 1]),
    ensures
        drop_trailing_blanks(s) == s.take(k),
    decreases s.len() - k,
{
    if k == s.len() {
        assert(s.take(k) =~= s);
    } else {
        let t = s.drop_last();
        lemma_drop_trailing_is_take(t, k);
        assert(t.take(k) =~= s.take(k));
    }
}

/// Every pipe character in `s` is protected when the scan starts in quote
/// state `inq`: at the moment the scan meets the pipe, the state says
/// "inside a quote", so the pipe is ordinary text.
pub open spec fn pipes_protected(s: Seq<char>, inq: bool) -> bool
    decreases s.len(),
{
    if s.len() == 0 {
        true
    } else {
        &&& (s[0] == '|' ==> inq)
        &&& pipes_protected(s.drop_first(), if is_quote_char(s[0]) { !inq } else { inq })
    }
}

proof fn lemma_split_rec_protected(s: Seq<char>, cur: Seq<char>, inq: bool)
    requires
        pipes_protected(s, inq),
    ensures
        split_rec(s, cur, inq) == if (cur + s).len() > 0 {
            seq![cur + s]
        } else {
            Seq::<Seq<char>>::empty()
        },
    decreases s.len(),
{
    if s.len() == 0 {
        assert(cur + s =~= cur);
    } else {
        let c = s[0];
        let t = if is_quote_char(c) { !inq } else { inq };
        lemma_split_rec_protected(s.drop_first(), cur.push(c), t);
        assert(cur.push(c) + s.drop_first() =~= cur + s);
    }
}

/// A pipe character met while the quote state says "inside a quote" never
/// produces a split: a line all of whose pipes are protected is returned
/// as a single subcommand, unchanged.
pub proof fn lemma_quoted_pipe_never_splits(line: Seq<char>)
    requires
        line.len() > 0,
        pipes_protected(line, false),
    ensures
        spec_split(line) == seq![line],
{
    lemma_split_rec_protected(line, Seq::empty(), false);
    assert(Seq::<char>::empty() + line =~= line);
}

proof fn lemma_no_pipe_protected(s: Seq<char>, inq: bool)
    requires
        forall|i: int| 0 <= i < s.len() ==> s[i] != '|',
    ensures
        pipes_protected(s, inq),
    decreases s.len(),
{
    if s.len() > 0 {
        let t = s.drop_first();
        assert forall|i: int| 0 <= i < t.len() implies t[i] != '|' by {
            assert(t[i] == s[i + 1]);
        }
        lemma_no_pipe_protected(t, if is_quote_char(s[0]) { !inq } else { inq });
    }
}

proof fn lemma_trim_keeps_chars(s: Seq<char>)
    ensures
        forall|i: int| 0 <= i < spec_trim(s).len() ==> s.contains(#[trigger] spec_trim(s)[i]),
{
    lemma_drop_leading_suffix(s);
    let m = drop_leading_blanks(s);
    lemma_drop_trailing_prefix(m);
    assert forall|i: int| 0 <= i < spec_trim(s).len() implies s.contains(#[trigger] spec_trim(s)[i]) by {
        assert(m.contains(spec_trim(s)[i]));
        let j = choose|j: int| 0 <= j < m.len() && m[j] == spec_trim(s)[i];
        assert(s.contains(m[j]));
    }
}

proof fn lemma_drop_leading_suffix(s: Seq<char>)
    ensures
        forall|i: int| 0 <= i < drop_leading_blanks(s).len() ==> s.contains(
            #[trigger] drop_leading_blanks(s)[i],
        ),
    decreases s.len(),
{
    if s.len() > 0 && is_blank(s[0]) {
        let t = s.drop_first();
        lemma_drop_leading_suffix(t);
        assert forall|i: int| 0 <= i < drop_leading_blanks(s).len() implies s.contains(
            #[trigger] drop_leading_blanks(s)[i],
        ) by {
            assert(drop_leading_blanks(s) == drop_leading_blanks(t));
            let x = drop_leading_blanks(t)[i];
            assert(t.contains(x));
            let j = choose|j: int| 0 <= j < t.len() && t[j] == x;
            assert(s[j + 1] == t[j]);
        }
    } else {
        assert forall|i: int| 0 <= i < s.len() implies s.contains(#[trigger] s[i]) by {}
    }
}

proof fn lemma_drop_trailing_prefix(s: Seq<char>)
    ensures
        forall|i: int| 0 <= i < drop_trailing_blanks(s).len() ==> s.contains(
            #[trigger] drop_trailing_blanks(s)[i],
        ),
    decreases s.len(),
{
    if s.len() > 0 && is_blank(s.last()) {
        let t = s.drop_last();
        lemma_drop_trailing_prefix(t);
        assert forall|i: int| 0 <= i < drop_trailing_blanks(s).len() implies s.contains(
            #[trigger] drop_trailing_blanks(s)[i],
        ) by {
            assert(drop_trailing_blanks(s) == drop_trailing_blanks(t));
            let x = drop_trailing_blanks(t)[i];
            assert(t.contains(x));
            let j = choose|j: int| 0 <= j < t.len() && t[j] == x;
            assert(s[j] == t[j]);
        }
    } else {
        assert forall|i: int| 0 <= i < s.len() implies s.contains(#[trigger] s[i]) by {}
    }
}

/// A line that contains no pipe and no quote character is split, after
/// trimming, into exactly one subcommand: the trimmed line itself.
pub proof fn lemma_split_plain_line(line: Seq<char>)
    requires
        forall|i: int| 0 <= i < line.len() ==> line[i] != '|' && !is_quote_char(line[i]),
        spec_trim(line).len() > 0,
    ensures
        spec_split(spec_trim(line)) == seq![spec_trim(line)],
{
    let t = spec_trim(line);
    lemma_trim_keeps_chars(line);
    assert forall|i: int| 0 <= i < t.len() implies t[i] != '|' by {
        assert(line.contains(t[i]));
    }
    lemma_no_pipe_protected(t, false);
    lemma_quoted_pipe_never_splits(t);
}

proof fn lemma_split_rec_nonempty(s: Seq<char>, cur: Seq<char>, inq: bool)
    ensures
        forall|j: int| 0 <= j < split_rec(s, cur, inq).len() ==> (#[trigger] split_rec(
            s,
            cur,
            inq,
        )[j]).len() > 0,
    decreases s.len(),
{
    let res = split_rec(s, cur, inq);
    if s.len() == 0 {
    } else {
        let c = s[0];
        let rest = s.drop_first();
        if c == '|' && !inq {
            lemma_split_rec_nonempty(rest, Seq::empty(), false);
            let rec = split_rec(rest, Seq::empty(), false);
            if cur.len() > 0 {
                assert forall|j: int| 0 <= j < res.len() implies (#[trigger] res[j]).len() > 0 by {
                    if j > 0 {
                        assert(res[j] == rec[j - 1]);
                        assert(rec[j - 1].len() > 0);
                    }
                }
            } else {
                assert forall|j: int| 0 <= j < res.len() implies (#[trigger] res[j]).len() > 0 by {
                    assert(res[j] == rec[j]);
                    assert(rec[j].len() > 0);
                }
            }
        } else {
            let inq2 = if is_quote_char(c) { !inq } else { inq };
            lemma_split_rec_nonempty(rest, cur.push(c), inq2);
            assert forall|j: int| 0 <= j < res.len() implies (#[trigger] res[j]).len() > 0 by {
                assert(split_rec(rest, cur.push(c), inq2)[j].len() > 0);
            }
        }
    }
}

/// Empty spans are never emitted as subcommands: every subcommand the
/// splitter returns is nonempty, whatever the line.
pub proof fn lemma_subcommands_nonempty(line: Seq<char>)
    ensures
        forall|j: int| 0 <= j < spec_split(line).len() ==> (#[trigger] spec_split(line)[j]).len()
            > 0,
{
    lemma_split_rec_nonempty(line, Seq::empty(), false);
}

proof fn lemma_tok_rec_plain(s: Seq<char>, cur: Seq<char>, inq: bool)
    requires
        forall|i: int| 0 <= i < s.len() ==> !is_word_sep(s[i]) && !is_quote_char(s[i]),
    ensures
        tok_rec(s, cur, inq) == if (cur + s).len() > 0 {
            seq![cur + s]
        } else {
            Seq::<Seq<char>>::empty()
        },
    decreases s.len(),
{
    if s.len() == 0 {
        assert(cur + s =~= cur);
    } else {
        let c = s[0];
        let t = s.drop_first();
        assert forall|i: int| 0 <= i < t.len() implies !is_word_sep(t[i]) && !is_quote_char(t[i]) by {
            assert(t[i] == s[i + 1]);
        }
        lemma_tok_rec_plain(t, cur.push(c), inq);
        assert(cur.push(c) + t =~= cur + s);
    }
}

/// Tokenizing a single word that holds no whitespace and no quote
/// character yields exactly that word back: re-tokenizing such an
/// already-extracted token is the identity on it.
pub proof fn lemma_tokenize_single_word(word: Seq<char>)
    requires
        word.len() > 0,
        forall|i: int| 0 <= i < word.len() ==> !is_word_sep(word[i]) && !is_quote_char(word[i]),
    ensures
        spec_tokenize(word) == seq![word],
{
    lemma_tok_rec_plain(word, Seq::empty(), false);
    assert(Seq::<char>::empty() + word =~= word);
}

/// A well-formed token: nonempty, and free of quote characters.
pub open spec fn wf_token(t: Seq<char>) -> bool {
    &&& t.len() > 0
    &&& forall|k: int| 0 <= k < t.len() ==> !is_quote_char(t[k])
}

proof fn lemma_tok_rec_wf(s: Seq<char>, cur: Seq<char>, inq: bool)
    requires
        forall|k: int| 0 <= k < cur.len() ==> !is_quote_char(cur[k]),
    ensures
        forall|j: int| 0 <= j < tok_rec(s, cur, inq).len() ==> wf_token(
            #[trigger] tok_rec(s, cur, inq)[j],
        ),
    decreases s.len(),
{
    let res = tok_rec(s, cur, inq);
    if s.len() == 0 {
    } else {
        let c = s[0];
        let rest = s.drop_first();
        if is_word_sep(c) && !inq {
            lemma_tok_rec_wf(rest, Seq::empty(), false);
            let rec = tok_rec(rest, Seq::empty(), false);
            if cur.len() > 0 {
                assert forall|j: int| 0 <= j < res.len() implies wf_token(#[trigger] res[j]) by {
                    if j == 0 {
                        assert(res[j] == cur);
                    } else {
                        assert(res[j] == rec[j - 1]);
                        assert(wf_token(rec[j - 1]));
                    }
                }
            } else {
                assert forall|j: int| 0 <= j < res.len() implies wf_token(#[trigger] res[j]) by {
                    assert(res[j] == rec[j]);
                    assert(wf_token(rec[j]));
                }
            }
        } else if is_quote_char(c) {
            lemma_tok_rec_wf(rest, cur, !inq);
            assert forall|j: int| 0 <= j < res.len() implies wf_token(#[trigger] res[j]) by {
                assert(wf_token(tok_rec(rest, cur, !inq)[j]));
            }
        } else {
            let cur2 = cur.push(c);
            assert forall|k: int| 0 <= k < cur2.len() implies !is_quote_char(cur2[k]) by {
                if k < cur.len() {
                    assert(cur2[k] == cur[k]);
                } else {
                    assert(cur2[k] == c);
                }
            }
            lemma_tok_rec_wf(rest, cur2, inq);
            assert forall|j: int| 0 <= j < res.len() implies wf_token(#[trigger] res[j]) by {
                assert(wf_token(tok_rec(rest, cur2, inq)[j]));
            }
        }
    }
}

/// Quote stripping, stated of every input: no emitted token is empty, and
/// no emitted token contains a quote character.
pub proof fn lemma_tokens_stripped(comm: Seq<char>)
    ensures
        forall|j: int| 0 <= j < spec_tokenize(comm).len() ==> wf_token(
            #[trigger] spec_tokenize(comm)[j],
        ),
{
    lemma_tok_rec_wf(comm, Seq::empty(), false);
}

} // verus!
