use vstd::prelude::*;

verus! {

/// A quote character toggles the "inside quotes" state of a scan.
pub open spec fn is_quote_char(c: char) -> bool {
    c == '"' || c == '\''
}

/// The tokens of the character sequence `s`, scanned left to right while a
/// partial token `cur` has been collected and the quote state is `open`.
/// Quote characters are dropped and toggle `open`; a space outside quotes
/// ends the token collected so far (empty partial tokens are skipped, so
/// runs of spaces and stray quote pairs yield no token); every other
/// character extends the partial token.  An unmatched quote simply leaves
/// `open` set until the end of the text.
pub open spec fn tokens_rec(s: Seq<char>, cur: Seq<char>, open: bool) -> Seq<Seq<char>>
    decreases s.len(),
{
    if s.len() == 0 {
        if cur.len() == 0 {
            Seq::empty()
        } else {
            seq![cur]
        }
    } else if is_quote_char(s[0]) {
        tokens_rec(s.drop_first(), cur, !open)
    } else if s[0] == ' ' && !open {
        if cur.len() == 0 {
            tokens_rec(s.drop_first(), cur, open)
        } else {
            seq![cur] + tokens_rec(s.drop_first(), Seq::empty(), false)
        }
    } else {
        tokens_rec(s.drop_first(), cur.push(s[0]), open)
    }
}

/// The token sequence of a line: whitespace-delimited words, where quoting
/// lets a token carry embedded spaces.
pub open spec fn tokens_of(s: Seq<char>) -> Seq<Seq<char>> {
    tokens_rec(s, Seq::empty(), false)
}

/// A well-formed token: produced scans never yield an empty token, and the
/// quote characters themselves are always consumed by the scan.
pub open spec fn no_quotes(t: Seq<char>) -> bool {
    forall|i: int| 0 <= i < t.len() ==> !is_quote_char(#[trigger] t[i])
}

/// No embedded space: such a token is rebuilt bare when a consumed prefix is
/// rendered back to text.
pub open spec fn no_spaces(t: Seq<char>) -> bool {
    forall|i: int| 0 <= i < t.len() ==> #[trigger] t[i] != ' '
}

/// The tokens strictly before the first occurrence of the marker token `m`.
pub open spec fn before_marker(ts: Seq<Seq<char>>, m: Seq<char>) -> Seq<Seq<char>>
    decreases ts.len(),
{
    if ts.len() == 0 {
        Seq::empty()
    } else if ts[0] == m {
        Seq::empty()
    } else {
        seq![ts[0]] + before_marker(ts.drop_first(), m)
    }
}

/// The tokens strictly after the first occurrence of the marker token `m`;
/// empty when `m` does not occur.
pub open spec fn after_marker(ts: Seq<Seq<char>>, m: Seq<char>) -> Seq<Seq<char>>
    decreases ts.len(),
{
    if ts.len() == 0 {
        Seq::empty()
    } else if ts[0] == m {
        ts.drop_first()
    } else {
        after_marker(ts.drop_first(), m)
    }
}

/// Does the marker token `m` occur in `ts`?
pub open spec fn has_marker(ts: Seq<Seq<char>>, m: Seq<char>) -> bool
    decreases ts.len(),
{
    if ts.len() == 0 {
        false
    } else if ts[0] == m {
        true
    } else {
        has_marker(ts.drop_first(), m)
    }
}

/// A redirection operator token.
pub open spec fn is_redirection_token(t: Seq<char>) -> bool {
    t == ">"@ || t == "<"@ || t == ">>"@
}

/// The argument tokens of `ts`: a redirection operator token names no
/// argument and is left out.
pub open spec fn arguments_only(ts: Seq<Seq<char>>) -> Seq<Seq<char>>
    decreases ts.len(),
{
    if ts.len() == 0 {
        Seq::empty()
    } else if is_redirection_token(ts[0]) {
        arguments_only(ts.drop_first())
    } else {
        seq![ts[0]] + arguments_only(ts.drop_first())
    }
}

/// The tokens before the first redirection operator.
pub open spec fn before_redirection(ts: Seq<Seq<char>>) -> Seq<Seq<char>>
    decreases ts.len(),
{
    if ts.len() == 0 {
        Seq::empty()
    } else if is_redirection_token(ts[0]) {
        Seq::empty()
    } else {
        seq![ts[0]] + before_redirection(ts.drop_first())
    }
}

/// The tokens from the first redirection operator on, that operator
/// included; empty when none occurs.
pub open spec fn from_redirection(ts: Seq<Seq<char>>) -> Seq<Seq<char>>
    decreases ts.len(),
{
    if ts.len() == 0 {
        Seq::empty()
    } else if is_redirection_token(ts[0]) {
        ts
    } else {
        from_redirection(ts.drop_first())
    }
}

/// A token rendered back to text: one that carries an embedded space is
/// wrapped in single quotes so that re-tokenizing it yields it back whole.
pub open spec fn quote_token(t: Seq<char>) -> Seq<char> {
    if t.contains(' ') {
        seq!['\''] + t + seq!['\'']
    } else {
        t
    }
}

/// A token sequence rendered back to one line: tokens re-quoted as needed
/// and joined by single spaces.
pub open spec fn quote_join(ts: Seq<Seq<char>>) -> Seq<char>
    decreases ts.len(),
{
    if ts.len() == 0 {
        Seq::empty()
    } else if ts.len() == 1 {
        quote_token(ts[0])
    } else {
        quote_token(ts[0]) + seq![' '] + quote_join(ts.drop_first())
    }
}

/// The token groups delimited by the marker token `m`: the tokens before the
/// first `m`, then the groups of the tokens after it.  A group may be empty
/// when two markers are adjacent.
pub open spec fn groups_of(ts: Seq<Seq<char>>, m: Seq<char>) -> Seq<Seq<Seq<char>>>
    decreases ts.len(),
    via groups_of_decreases
{
    if ts.len() == 0 {
        Seq::empty()
    } else {
        seq![before_marker(ts, m)] + groups_of(after_marker(ts, m), m)
    }
}

#[via_fn]
proof fn groups_of_decreases(ts: Seq<Seq<char>>, m: Seq<char>) {
    if ts.len() != 0 {
        lemma_after_marker_shorter(ts, m);
    }
}

/// Consuming a group and its marker strictly shrinks the token sequence.
proof fn lemma_after_marker_shorter(ts: Seq<Seq<char>>, m: Seq<char>)
    requires
        ts.len() > 0,
    ensures
        after_marker(ts, m).len() < ts.len(),
    decreases ts.len(),
{
    if ts[0] != m {
        if ts.drop_first().len() > 0 {
            lemma_after_marker_shorter(ts.drop_first(), m);
        } else {
            assert(after_marker(ts.drop_first(), m) =~= Seq::<Seq<char>>::empty());
        }
    }
}

/// Every token a scan produces is nonempty and free of quote characters.
proof fn lemma_tokens_rec_wf(s: Seq<char>, cur: Seq<char>, open: bool)
    requires
        no_quotes(cur),
    ensures
        forall|k: int|
            0 <= k < tokens_rec(s, cur, open).len() ==> (#[trigger] tokens_rec(s, cur, open)[k])
                .len() > 0 && no_quotes(tokens_rec(s, cur, open)[k]),
    decreases s.len(),
{
    let res = tokens_rec(s, cur, open);
    if s.len() == 0 {
        if cur.len() > 0 {
            assert(res[0] == cur);
        }
    } else if is_quote_char(s[0]) {
        lemma_tokens_rec_wf(s.drop_first(), cur, !open);
        assert forall|k: int| 0 <= k < res.len() implies (#[trigger] res[k]).len() > 0
            && no_quotes(res[k]) by {
            assert(res[k] == tokens_rec(s.drop_first(), cur, !open)[k]);
        }
    } else if s[0] == ' ' && !open {
        if cur.len() == 0 {
            lemma_tokens_rec_wf(s.drop_first(), cur, open);
            assert forall|k: int| 0 <= k < res.len() implies (#[trigger] res[k]).len() > 0
                && no_quotes(res[k]) by {
                assert(res[k] == tokens_rec(s.drop_first(), cur, open)[k]);
            }
        } else {
            lemma_tokens_rec_wf(s.drop_first(), Seq::empty(), false);
            let tail = tokens_rec(s.drop_first(), Seq::empty(), false);
            assert forall|k: int| 0 <= k < res.len() implies (#[trigger] res[k]).len() > 0
                && no_quotes(res[k]) by {
                if k > 0 {
                    assert(res[k] == tail[k - 1]);
                }
            }
        }
    } else {
        assert(no_quotes(cur.push(s[0])));
        lemma_tokens_rec_wf(s.drop_first(), cur.push(s[0]), open);
        assert forall|k: int| 0 <= k < res.len() implies (#[trigger] res[k]).len() > 0
            && no_quotes(res[k]) by {
            assert(res[k] == tokens_rec(s.drop_first(), cur.push(s[0]), open)[k]);
        }
    }
}

/// Every token of a line is nonempty and free of quote characters.
pub proof fn lemma_tokens_wf(s: Seq<char>)
    ensures
        forall|k: int|
            0 <= k < tokens_of(s).len() ==> (#[trigger] tokens_of(s)[k]).len() > 0 && no_quotes(
                tokens_of(s)[k],
            ),
{
    lemma_tokens_rec_wf(s, Seq::empty(), false);
}

/// Scanning a run of characters that contains no quote and, outside quote
/// state, no space just extends the partial token.
proof fn lemma_scan_run(t: Seq<char>, rest: Seq<char>, cur: Seq<char>, open: bool)
    requires
        no_quotes(t),
        !open ==> no_spaces(t),
    ensures
        tokens_rec(t + rest, cur, open) == tokens_rec(rest, cur + t, open),
    decreases t.len(),
{
    if t.len() == 0 {
        assert(t + rest =~= rest);
        assert(cur + t =~= cur);
    } else {
        assert((t + rest)[0] == t[0]);
        assert((t + rest).drop_first() =~= t.drop_first() + rest);
        assert(no_quotes(t.drop_first()));
        assert(!open ==> no_spaces(t.drop_first()));
        lemma_scan_run(t.drop_first(), rest, cur.push(t[0]), open);
        assert(cur.push(t[0]) + t.drop_first() =~= cur + t);
    }
}

/// Scanning one re-rendered token followed by a space boundary yields that
/// token and leaves the rest of the text to scan; a re-rendered token at the
/// very end of the text yields exactly that token.
proof fn lemma_scan_quoted(t: Seq<char>, rest: Seq<char>)
    requires
        t.len() > 0,
        no_quotes(t),
    ensures
        tokens_rec(quote_token(t) + seq![' '] + rest, Seq::empty(), false) == seq![t]
            + tokens_rec(rest, Seq::empty(), false),
        tokens_rec(quote_token(t), Seq::empty(), false) == seq![t],
{
    let e = Seq::<char>::empty();
    if t.contains(' ') {
        let q = seq!['\''];
        let w = quote_token(t) + seq![' '] + rest;
        let w2 = q + seq![' '] + rest;
        let w3 = seq![' '] + rest;
        // with the trailing boundary
        assert(w[0] == '\'');
        assert(w.drop_first() =~= t + w2);
        assert(tokens_rec(w, Seq::empty(), false) == tokens_rec(t + w2, Seq::empty(), true));
        lemma_scan_run(t, w2, Seq::empty(), true);
        assert(Seq::empty() + t =~= t);
        assert(tokens_rec(t + w2, Seq::empty(), true) == tokens_rec(w2, t, true));
        assert(w2[0] == '\'');
        assert(w2.drop_first() =~= w3);
        assert(tokens_rec(w2, t, true) == tokens_rec(w3, t, false));
        assert(w3[0] == ' ');
        assert(w3.drop_first() =~= rest);
        assert(tokens_rec(w3, t, false) == seq![t] + tokens_rec(rest, Seq::empty(), false));
        // at the very end of the text
        let v = quote_token(t);
        assert(v[0] == '\'');
        assert(v.drop_first() =~= t + q);
        assert(tokens_rec(v, Seq::empty(), false) == tokens_rec(t + q, Seq::empty(), true));
        lemma_scan_run(t, q, Seq::empty(), true);
        assert(tokens_rec(t + q, Seq::empty(), true) == tokens_rec(q, t, true));
        assert(q[0] == '\'');
        assert(q.drop_first() =~= e);
        assert(tokens_rec(q, t, true) == tokens_rec(e, t, false));
        assert(tokens_rec(e, t, false) == seq![t]);
    } else {
        assert(no_spaces(t)) by {
            assert(forall|i: int| 0 <= i < t.len() ==> #[trigger] t[i] != ' ') by {
                assert(!t.contains(' '));
            }
        }
        let w3 = seq![' '] + rest;
        assert(quote_token(t) + seq![' '] + rest =~= t + w3);
        lemma_scan_run(t, w3, Seq::empty(), false);
        assert(Seq::empty() + t =~= t);
        assert(tokens_rec(quote_token(t) + seq![' '] + rest, Seq::empty(), false) == tokens_rec(
            w3,
            t,
            false,
        ));
        assert(w3[0] == ' ');
        assert(w3.drop_first() =~= rest);
        assert(tokens_rec(w3, t, false) == seq![t] + tokens_rec(rest, Seq::empty(), false));
        assert(quote_token(t) =~= t + e);
        lemma_scan_run(t, e, Seq::empty(), false);
        assert(tokens_rec(quote_token(t), Seq::empty(), false) == tokens_rec(e, t, false));
        assert(tokens_rec(e, t, false) == seq![t]);
    }
}

/// Re-tokenizing a re-rendered sequence of well-formed tokens yields the
/// same tokens.
proof fn lemma_quote_join_tokens(ts: Seq<Seq<char>>)
    requires
        forall|k: int|
            0 <= k < ts.len() ==> (#[trigger] ts[k]).len() > 0 && no_quotes(ts[k]),
    ensures
        tokens_of(quote_join(ts)) == ts,
    decreases ts.len(),
{
    if ts.len() == 0 {
        assert(tokens_of(quote_join(ts)) =~= ts);
    } else if ts.len() == 1 {
        lemma_scan_quoted(ts[0], Seq::empty());
        assert(seq![ts[0]] =~= ts);
    } else {
        lemma_scan_quoted(ts[0], quote_join(ts.drop_first()));
        lemma_quote_join_tokens(ts.drop_first());
        assert(seq![ts[0]] + ts.drop_first() =~= ts);
    }
}

/// Round-trip law: tokenizing a line, rendering the tokens back to text
/// (re-quoting any token that carries an embedded space) and tokenizing that
/// text again yields the same token sequence.
pub proof fn lemma_tokenize_round_trip(line: Seq<char>)
    ensures
        tokens_of(quote_join(tokens_of(line))) == tokens_of(line),
{
    lemma_tokens_wf(line);
    lemma_quote_join_tokens(tokens_of(line));
}

/// Appending one more token to a rendered line appends a space boundary and
/// the re-rendered token.
proof fn lemma_quote_join_push(ts: Seq<Seq<char>>, t: Seq<char>)
    ensures
        quote_join(ts.push(t)) == if ts.len() == 0 {
            quote_token(t)
        } else {
            quote_join(ts) + seq![' '] + quote_token(t)
        },
    decreases ts.len(),
{
    let p = ts.push(t);
    if ts.len() == 0 {
        assert(p.len() == 1);
        assert(p[0] == t);
    } else {
        assert(p[0] == ts[0]);
        assert(p.drop_first() =~= ts.drop_first().push(t));
        lemma_quote_join_push(ts.drop_first(), t);
        if ts.len() == 1 {
            assert(quote_join(ts) == quote_token(ts[0]));
        } else {
            assert(quote_token(ts[0]) + seq![' '] + (quote_join(ts.drop_first()) + seq![' ']
                + quote_token(t)) =~= (quote_token(ts[0]) + seq![' '] + quote_join(
                ts.drop_first(),
            )) + seq![' '] + quote_token(t));
        }
    }
}

/// `p` occurs as a contiguous subsequence of `s`.
pub open spec fn contains_seq(s: Seq<char>, p: Seq<char>) -> bool {
    exists|k: int| 0 <= k && k + p.len() <= s.len() && #[trigger] s.subrange(k, k + p.len()) == p
}

/// Character-exact string equality.
pub(crate) fn str_eq(a: &str, b: &str) -> (r: bool)
    ensures
        r == (a@ == b@),
{
    let an = a.unicode_len();
    let bn = b.unicode_len();
    if an != bn {
        return false;
    }
    let mut i: usize = 0;
    while i < an
        invariant
            i <= an,
            an == a@.len(),
            an == b@.len(),
            forall|j: int| 0 <= j < i ==> a@[j] == b@[j],
        decreases an - i,
    {
        if a.get_char(i) != b.get_char(i) {
            return false;
        }
        i += 1;
    }
    proof {
        assert(a@ =~= b@);
    }
    true
}

/// Substring search: does `pat` occur anywhere in `s`?
fn contains_str(s: &str, pat: &str) -> (r: bool)
    ensures
        r == contains_seq(s@, pat@),
{
    let n = s.unicode_len();
    let m = pat.unicode_len();
    if m > n {
        return false;
    }
    let mut k: usize = 0;
    loop
        invariant
            m <= n,
            n == s@.len(),
            m == pat@.len(),
            k <= n - m,
            forall|k0: int| 0 <= k0 < k ==> #[trigger] s@.subrange(k0, k0 + pat@.len()) != pat@,
        ensures
            !contains_seq(s@, pat@),
        decreases n - m - k,
    {
        if str_eq(s.substring_char(k, k + m), pat) {
            return true;
        }
        if k == n - m {
            proof {
                assert forall|k0: int| 0 <= k0 && k0 + pat@.len() <= s@.len() implies #[trigger] s@
                    .subrange(k0, k0 + pat@.len()) != pat@ by {
                    assert(k0 <= k);
                }
            }
            break;
        }
        k += 1;
    }
    false
}

/// Scan the first token of `s`.  Returns the token, if any, and the index
/// of the first character of the remainder; the remainder tokenizes to the
/// rest of the tokens of `s`.
fn scan_first(s: &str) -> (r: (Option<String>, usize))
    ensures
        r.1 <= s@.len(),
        match r.0 {
            Some(t) => tokens_of(s@).len() > 0 && t@ == tokens_of(s@)[0] && t@.len() > 0 && r.1
                >= 1 && tokens_of(s@.subrange(r.1 as int, s@.len() as int)) == tokens_of(
                s@,
            ).drop_first(),
            None => tokens_of(s@).len() == 0 && r.1 == s@.len(),
        },
{
    let n = s.unicode_len();
    let mut i: usize = 0;
    let mut open = false;
    let mut tok = String::new();
    proof {
        assert(s@.subrange(0, n as int) =~= s@);
    }
    while i < n
        invariant
            i <= n,
            n == s@.len(),
            tok@.len() <= i,
            tokens_of(s@) == tokens_rec(s@.subrange(i as int, n as int), tok@, open),
        decreases n - i,
    {
        proof {
            assert(s@.subrange(i as int, n as int)[0] == s@[i as int]);
            assert(s@.subrange(i as int, n as int).drop_first() =~= s@.subrange(
                i + 1,
                n as int,
            ));
        }
        let c = s.get_char(i);
        if c == '"' || c == '\'' {
            open = !open;
            i += 1;
        } else if c == ' ' && !open {
            if tok.as_str().is_empty() {
                i += 1;
            } else {
                proof {
                    assert((seq![tok@] + tokens_of(s@.subrange(i + 1, n as int))).drop_first()
                        =~= tokens_of(s@.subrange(i + 1, n as int)));
                }
                return (Some(tok), i + 1);
            }
        } else {
            let ghost tok0 = tok@;
            let piece = s.substring_char(i, i + 1);
            proof {
                assert(piece@ =~= seq![s@[i as int]]);
            }
            tok.append(piece);
            proof {
                assert(tok@ =~= tok0.push(s@[i as int]));
            }
            i += 1;
        }
    }
    proof {
        assert(s@.subrange(n as int, n as int) =~= Seq::<char>::empty());
    }
    if tok.as_str().is_empty() {
        (None, n)
    } else {
        proof {
            assert(tokens_of(s@) =~= seq![tok@]);
            assert(tokens_of(s@).drop_first() =~= Seq::<Seq<char>>::empty());
        }
        (Some(tok), n)
    }
}

/// Does the text contain the character `c`?
pub(crate) fn has_char(a: &str, c: char) -> (r: bool)
    ensures
        r == a@.contains(c),
{
    let n = a.unicode_len();
    let mut i: usize = 0;
    while i < n
        invariant
            i <= n,
            n == a@.len(),
            forall|j: int| 0 <= j < i ==> a@[j] != c,
        decreases n - i,
    {
        if a.get_char(i) == c {
            return true;
        }
        i += 1;
    }
    false
}

/// One line of input, split lazily into quote-aware tokens.  `current` holds
/// the text not yet consumed; the two flags record, once and for all at
/// construction, whether the original line carried a pipe or a redirection
/// operator.
pub struct Tokenizer {
    pub current: Option<String>,
    pub piped: bool,
    pub redirected: bool,
}

impl Tokenizer {
    /// The text not yet consumed, as a character sequence.
    pub open spec fn remaining(self) -> Seq<char> {
        match self.current {
            Some(s) => s@,
            None => Seq::empty(),
        }
    }

    /// The tokens still to be produced.
    pub open spec fn tokens(self) -> Seq<Seq<char>> {
        tokens_of(self.remaining())
    }

    /// Termination measure: consuming a token strictly shrinks it.
    pub open spec fn measure(self) -> nat {
        match self.current {
            Some(s) => s@.len() + 1,
            None => 0,
        }
    }

    /// Constructor: keeps the whole line and records whether it carries the
    /// pipe or a redirection operator.
    pub fn new(line: &str) -> (r: Tokenizer)
        ensures
            r.current is Some,
            r.remaining() == line@,
            r.piped == contains_seq(line@, " | "@),
            r.redirected == (contains_seq(line@, " >"@) || contains_seq(line@, " < "@)),
    {
        let piped = contains_str(line, " | ");
        let redirected = contains_str(line, " >") || contains_str(line, " < ");
        Tokenizer { current: Some(String::from_str(line)), piped, redirected }
    }

    /// Whether the original line carried the pipe operator.
    pub fn is_pipe(&self) -> (r: bool)
        ensures
            r == self.piped,
    {
        self.piped
    }

    /// Whether the original line carried a redirection operator.
    pub fn has_redirection(&self) -> (r: bool)
        ensures
            r == self.redirected,
    {
        self.redirected
    }

    /// The stream is exhausted once its text has been consumed entirely.
    pub fn is_empty(&self) -> (r: bool)
        ensures
            r == (self.current is None),
    {
        self.current.is_none()
    }

    /// Does the unconsumed text contain `pattern`?
    pub fn contains(&self, pattern: &str) -> (r: bool)
        ensures
            r == (self.current is Some && contains_seq(self.remaining(), pattern@)),
    {
        match &self.current {
            Some(cur) => contains_str(cur.as_str(), pattern),
            None => false,
        }
    }

    /// A copy of the next token, without consuming it; the empty string
    /// when no token is left.
    pub fn peek(&self) -> (t: String)
        ensures
            self.tokens().len() > 0 ==> t@ == self.tokens()[0] && t@.len() > 0,
            self.tokens().len() == 0 ==> t@.len() == 0,
    {
        match &self.current {
            Some(cur) => {
                let (t0, _stop) = scan_first(cur.as_str());
                match t0 {
                    Some(t) => t,
                    None => String::new(),
                }
            },
            None => String::new(),
        }
    }

    /// Consume and return the next token; `None` once the stream is
    /// exhausted.  A token returned by `peek` is exactly what the following
    /// `next` returns, and the stream advances past exactly that token.
    pub fn next(&mut self) -> (t: Option<String>)
        ensures
            final(self).piped == old(self).piped,
            final(self).redirected == old(self).redirected,
            old(self).current is None ==> *final(self) == *old(self) && t is None,
            old(self).tokens().len() == 0 ==> t is None && final(self).current is None,
            old(self).tokens().len() > 0 ==> (t matches Some(tk) && tk@ == old(self).tokens()[0]
                && final(self).tokens() == old(self).tokens().drop_first()),
            old(self).current is Some ==> final(self).measure() < old(self).measure(),
    {
        let (t, rest): (Option<String>, Option<String>) = match &self.current {
            None => (None, None),
            Some(cur) => {
                let n = cur.as_str().unicode_len();
                let (t0, stop) = scan_first(cur.as_str());
                match t0 {
                    None => (None, None),
                    Some(tk) => {
                        let rem = cur.as_str().substring_char(stop, n);
                        if rem.is_empty() {
                            proof {
                                assert(cur@.subrange(stop as int, n as int) =~= Seq::<
                                    char,
                                >::empty());
                            }
                            (Some(tk), None)
                        } else {
                            (Some(tk), Some(String::from_str(rem)))
                        }
                    },
                }
            },
        };
        self.current = rest;
        t
    }

    /// Consume the tokens up to the sequencing marker `&&` (or the whole
    /// stream when none remains; the marker itself is consumed too) and
    /// return the argument tokens among them: a redirection operator token
    /// names no argument and is skipped.  With no marker left, the stream
    /// is fully consumed.
    pub fn get_args(&mut self) -> (args: Vec<String>)
        ensures
            final(self).piped == old(self).piped,
            final(self).redirected == old(self).redirected,
            args.deep_view() == arguments_only(before_marker(old(self).tokens(), "&&"@)),
            final(self).tokens() == after_marker(old(self).tokens(), "&&"@),
            !has_marker(old(self).tokens(), "&&"@) ==> final(self).current is None,
    {
        let ghost toks0 = self.tokens();
        let ghost p0 = self.piped;
        let ghost r0 = self.redirected;
        let mut args: Vec<String> = Vec::new();
        proof {
            assert(args.deep_view() + arguments_only(before_marker(self.tokens(), "&&"@))
                =~= arguments_only(before_marker(toks0, "&&"@)));
        }
        loop
            invariant_except_break
                arguments_only(before_marker(toks0, "&&"@)) == args.deep_view() + arguments_only(
                    before_marker(self.tokens(), "&&"@),
                ),
                after_marker(toks0, "&&"@) == after_marker(self.tokens(), "&&"@),
                has_marker(toks0, "&&"@) == has_marker(self.tokens(), "&&"@),
            invariant
                self.piped == p0,
                self.redirected == r0,
            ensures
                self.piped == p0,
                self.redirected == r0,
                args.deep_view() == arguments_only(before_marker(toks0, "&&"@)),
                self.tokens() == after_marker(toks0, "&&"@),
                !has_marker(toks0, "&&"@) ==> self.current is None,
            decreases self.measure(),
        {
            let ghost pre = self.tokens();
            match self.next() {
                None => {
                    proof {
                        assert(before_marker(pre, "&&"@) =~= Seq::<Seq<char>>::empty());
                        assert(arguments_only(Seq::<Seq<char>>::empty()) =~= Seq::<
                            Seq<char>,
                        >::empty());
                        assert(args.deep_view() + Seq::<Seq<char>>::empty() =~= args.deep_view());
                        assert(after_marker(pre, "&&"@) =~= Seq::<Seq<char>>::empty());
                        assert(!has_marker(pre, "&&"@));
                        assert(self.tokens() =~= Seq::<Seq<char>>::empty());
                    }
                    break;
                },
                Some(a) => {
                    if str_eq(a.as_str(), "&&") {
                        proof {
                            assert(before_marker(pre, "&&"@) =~= Seq::<Seq<char>>::empty());
                            assert(arguments_only(Seq::<Seq<char>>::empty()) =~= Seq::<
                                Seq<char>,
                            >::empty());
                            assert(args.deep_view() + Seq::<Seq<char>>::empty() =~= args
                                .deep_view());
                            assert(has_marker(pre, "&&"@));
                        }
                        break;
                    }
                    let skip_op = str_eq(a.as_str(), ">") || str_eq(a.as_str(), "<") || str_eq(
                        a.as_str(),
                        ">>",
                    );
                    proof {
                        assert(before_marker(pre, "&&"@) == seq![a@] + before_marker(
                            pre.drop_first(),
                            "&&"@,
                        ));
                        assert((seq![a@] + before_marker(pre.drop_first(), "&&"@))[0] == a@);
                        assert((seq![a@] + before_marker(pre.drop_first(), "&&"@)).drop_first()
                            =~= before_marker(pre.drop_first(), "&&"@));
                    }
                    if skip_op {
                        proof {
                            assert(is_redirection_token(a@));
                            assert(arguments_only(before_marker(pre, "&&"@)) == arguments_only(
                                before_marker(pre.drop_first(), "&&"@),
                            ));
                        }
                    } else {
                        let ghost args0 = args.deep_view();
                        args.push(a);
                        proof {
                            assert(!is_redirection_token(args.deep_view()[args0.len() as int]));
                            assert(args.deep_view() =~= args0.push(args.deep_view()[args0.len() as int]));
                            assert(args0.push(arguments_only(before_marker(pre, "&&"@))[0])
                                + arguments_only(before_marker(pre.drop_first(), "&&"@)) =~= args0
                                + arguments_only(before_marker(pre, "&&"@)));
                        }
                    }
                },
            }
        }
        args
    }

    /// When the line carries a redirection operator, consume and return the
    /// tokens before the first `>`, `<` or `>>`, leaving that operator in
    /// the stream; otherwise behave as `get_args`.
    pub fn args_before_redirection(&mut self) -> (args: Vec<String>)
        ensures
            final(self).piped == old(self).piped,
            final(self).redirected == old(self).redirected,
            !old(self).redirected ==> args.deep_view() == arguments_only(
                before_marker(old(self).tokens(), "&&"@),
            ) && final(self).tokens() == after_marker(old(self).tokens(), "&&"@) && (!has_marker(
                old(self).tokens(),
                "&&"@,
            ) ==> final(self).current is None),
            old(self).redirected ==> args.deep_view() == before_redirection(old(self).tokens())
                && final(self).tokens() == from_redirection(old(self).tokens()),
    {
        if !self.has_redirection() {
            return self.get_args();
        }
        let ghost toks0 = self.tokens();
        let ghost p0 = self.piped;
        let ghost r0 = self.redirected;
        let mut args: Vec<String> = Vec::new();
        proof {
            assert(args.deep_view() + before_redirection(self.tokens()) =~= before_redirection(
                toks0,
            ));
        }
        loop
            invariant
                self.piped == p0,
                self.redirected == r0,
                before_redirection(toks0) == args.deep_view() + before_redirection(self.tokens()),
                from_redirection(toks0) == from_redirection(self.tokens()),
            ensures
                self.piped == p0,
                self.redirected == r0,
                args.deep_view() == before_redirection(toks0),
                self.tokens() == from_redirection(toks0),
            decreases self.measure(),
        {
            let ghost pre = self.tokens();
            let p = self.peek();
            if str_eq(p.as_str(), ">") || str_eq(p.as_str(), "<") || str_eq(p.as_str(), ">>") {
                proof {
                    reveal_strlit(">");
                    reveal_strlit("<");
                    reveal_strlit(">>");
                    assert(pre.len() > 0);
                    assert(is_redirection_token(pre[0]));
                    assert(before_redirection(pre) =~= Seq::<Seq<char>>::empty());
                    assert(args.deep_view() + Seq::<Seq<char>>::empty() =~= args.deep_view());
                }
                break;
            }
            match self.next() {
                None => {
                    proof {
                        assert(before_redirection(pre) =~= Seq::<Seq<char>>::empty());
                        assert(args.deep_view() + Seq::<Seq<char>>::empty() =~= args.deep_view());
                        assert(from_redirection(pre) =~= Seq::<Seq<char>>::empty());
                        assert(self.tokens() =~= Seq::<Seq<char>>::empty());
                    }
                    break;
                },
                Some(a) => {
                    proof {
                        assert(!is_redirection_token(pre[0]));
                    }
                    let ghost args0 = args.deep_view();
                    args.push(a);
                    proof {
                        assert(args.deep_view() =~= args0.push(a@));
                        assert(args0.push(a@) + before_redirection(pre.drop_first()) =~= args0 + (
                        seq![a@] + before_redirection(pre.drop_first())));
                    }
                },
            }
        }
        args
    }

    /// Consume the tokens up to, and not including, the first token equal
    /// to `pattern` (consuming the marker itself too), and return them
    /// re-rendered as a fresh stream: a token with an embedded space is
    /// wrapped in single quotes again, so the new stream yields the same
    /// tokens.
    pub fn _split_tokenizer(&mut self, pattern: &str) -> (r: Tokenizer)
        ensures
            final(self).piped == old(self).piped,
            final(self).redirected == old(self).redirected,
            final(self).tokens() == after_marker(old(self).tokens(), pattern@),
            r.current is Some,
            r.remaining() == quote_join(before_marker(old(self).tokens(), pattern@)),
            r.tokens() == before_marker(old(self).tokens(), pattern@),
            r.piped == contains_seq(
                quote_join(before_marker(old(self).tokens(), pattern@)),
                " | "@,
            ),
            r.redirected == (contains_seq(
                quote_join(before_marker(old(self).tokens(), pattern@)),
                " >"@,
            ) || contains_seq(quote_join(before_marker(old(self).tokens(), pattern@)), " < "@)),
    {
        let ghost toks0 = self.tokens();
        let ghost p0 = self.piped;
        let ghost r0 = self.redirected;
        let mut before = String::new();
        let mut first = true;
        let ghost mut done = Seq::<Seq<char>>::empty();
        proof {
            assert(done + before_marker(self.tokens(), pattern@) =~= before_marker(
                toks0,
                pattern@,
            ));
        }
        loop
            invariant_except_break
                before_marker(toks0, pattern@) == done + before_marker(self.tokens(), pattern@),
                after_marker(toks0, pattern@) == after_marker(self.tokens(), pattern@),
            invariant
                self.piped == p0,
                self.redirected == r0,
                first <==> done.len() == 0,
                before@ == quote_join(done),
                forall|k: int|
                    0 <= k < done.len() ==> (#[trigger] done[k]).len() > 0 && no_quotes(done[k]),
            ensures
                self.piped == p0,
                self.redirected == r0,
                done == before_marker(toks0, pattern@),
                before@ == quote_join(done),
                forall|k: int|
                    0 <= k < done.len() ==> (#[trigger] done[k]).len() > 0 && no_quotes(done[k]),
                self.tokens() == after_marker(toks0, pattern@),
            decreases self.measure(),
        {
            let ghost pre = self.tokens();
            proof {
                lemma_tokens_wf(self.remaining());
            }
            match self.next() {
                None => {
                    proof {
                        assert(before_marker(pre, pattern@) =~= Seq::<Seq<char>>::empty());
                        assert(done + Seq::<Seq<char>>::empty() =~= done);
                        assert(after_marker(pre, pattern@) =~= Seq::<Seq<char>>::empty());
                        assert(self.tokens() =~= Seq::<Seq<char>>::empty());
                    }
                    break;
                },
                Some(a) => {
                    if str_eq(a.as_str(), pattern) {
                        proof {
                            assert(before_marker(pre, pattern@) =~= Seq::<Seq<char>>::empty());
                            assert(done + Seq::<Seq<char>>::empty() =~= done);
                        }
                        break;
                    }
                    proof {
                        assert(a@ == pre[0]);
                        assert(a@.len() > 0 && no_quotes(a@));
                        lemma_quote_join_push(done, a@);
                    }
                    if !first {
                        before.append(" ");
                    }
                    if has_char(a.as_str(), ' ') {
                        before.append("'");
                        before.append(a.as_str());
                        before.append("'");
                    } else {
                        before.append(a.as_str());
                    }
                    proof {
                        reveal_strlit(" ");
                        reveal_strlit("'");
                        assert(" "@ =~= seq![' ']);
                        assert("'"@ =~= seq!['\'']);
                        if a@.contains(' ') {
                            assert(quote_token(a@) == seq!['\''] + a@ + seq!['\'']);
                        } else {
                            assert(quote_token(a@) == a@);
                        }
                        if done.len() == 0 {
                            assert(before@ =~= quote_token(a@));
                        } else {
                            assert(before@ =~= quote_join(done) + seq![' '] + quote_token(a@));
                        }
                    }
                    first = false;
                    proof {
                        let ghost done0 = done;
                        done = done.push(a@);
                        assert(done0.push(a@) + before_marker(pre.drop_first(), pattern@)
                            =~= done0 + (seq![a@] + before_marker(pre.drop_first(), pattern@)));
                    }
                },
            }
        }
        proof {
            lemma_quote_join_tokens(done);
        }
        Tokenizer::new(before.as_str())
    }

    /// When the line carries the pipe operator, consume the tokens before
    /// the first `|` and return them as a fresh stream; otherwise return a
    /// copy of the whole stream, leaving it unchanged.
    pub fn commands_before_pipe(&mut self) -> (r: Tokenizer)
        ensures
            final(self).piped == old(self).piped,
            final(self).redirected == old(self).redirected,
            !old(self).piped ==> r == *old(self) && *final(self) == *old(self),
            old(self).piped ==> final(self).tokens() == after_marker(old(self).tokens(), "|"@)
                && r.current is Some && r.remaining() == quote_join(
                before_marker(old(self).tokens(), "|"@),
            ) && r.tokens() == before_marker(old(self).tokens(), "|"@) && r.piped == contains_seq(
                quote_join(before_marker(old(self).tokens(), "|"@)),
                " | "@,
            ) && r.redirected == (contains_seq(
                quote_join(before_marker(old(self).tokens(), "|"@)),
                " >"@,
            ) || contains_seq(quote_join(before_marker(old(self).tokens(), "|"@)), " < "@)),
    {
        if !self.is_pipe() {
            let copied: Option<String> = match &self.current {
                Some(s) => Some(s.clone()),
                None => None,
            };
            Tokenizer { current: copied, piped: self.piped, redirected: self.redirected }
        } else {
            self._split_tokenizer("|")
        }
    }

    /// Split the whole stream on the marker token `pattern`, consuming it
    /// entirely; each returned stream holds one group of tokens.
    pub fn get_multiple_tokens(&mut self, pattern: &str) -> (toks: Vec<Tokenizer>)
        ensures
            final(self).piped == old(self).piped,
            final(self).redirected == old(self).redirected,
            final(self).tokens().len() == 0,
            toks@.len() == groups_of(old(self).tokens(), pattern@).len(),
            forall|k: int|
                0 <= k < toks@.len() ==> (#[trigger] toks@[k]).tokens() == groups_of(
                    old(self).tokens(),
                    pattern@,
                )[k] && toks@[k].current is Some && toks@[k].remaining() == quote_join(
                    toks@[k].tokens(),
                ) && toks@[k].piped == contains_seq(quote_join(toks@[k].tokens()), " | "@)
                    && toks@[k].redirected == (contains_seq(quote_join(toks@[k].tokens()), " >"@)
                    || contains_seq(quote_join(toks@[k].tokens()), " < "@)),
    {
        let ghost toks0 = self.tokens();
        let ghost p0 = self.piped;
        let ghost r0 = self.redirected;
        let mut out: Vec<Tokenizer> = Vec::new();
        proof {
            assert(Seq::new(out@.len() as nat, |k: int| out@[k].tokens()) + groups_of(
                self.tokens(),
                pattern@,
            ) =~= groups_of(toks0, pattern@));
        }
        loop
            invariant
                self.piped == p0,
                self.redirected == r0,
                groups_of(toks0, pattern@) == Seq::new(out@.len() as nat, |k: int| out@[k].tokens())
                    + groups_of(self.tokens(), pattern@),
                forall|k: int|
                    0 <= k < out@.len() ==> (#[trigger] out@[k]).current is Some
                        && out@[k].remaining() == quote_join(out@[k].tokens()) && out@[k].piped
                        == contains_seq(quote_join(out@[k].tokens()), " | "@) && out@[k].redirected
                        == (contains_seq(quote_join(out@[k].tokens()), " >"@) || contains_seq(
                        quote_join(out@[k].tokens()),
                        " < "@,
                    )),
            ensures
                self.piped == p0,
                self.redirected == r0,
                self.tokens().len() == 0,
                groups_of(toks0, pattern@) == Seq::new(out@.len() as nat, |k: int| out@[k].tokens()),
                forall|k: int|
                    0 <= k < out@.len() ==> (#[trigger] out@[k]).current is Some
                        && out@[k].remaining() == quote_join(out@[k].tokens()) && out@[k].piped
                        == contains_seq(quote_join(out@[k].tokens()), " | "@) && out@[k].redirected
                        == (contains_seq(quote_join(out@[k].tokens()), " >"@) || contains_seq(
                        quote_join(out@[k].tokens()),
                        " < "@,
                    )),
            decreases self.tokens().len(),
        {
            let ghost pre = self.tokens();
            let p = self.peek();
            if p.as_str().is_empty() {
                proof {
                    assert(groups_of(pre, pattern@) =~= Seq::<Seq<Seq<char>>>::empty());
                    assert(Seq::new(out@.len() as nat, |k: int| out@[k].tokens()) + Seq::<
                        Seq<Seq<char>>,
                    >::empty() =~= Seq::new(out@.len() as nat, |k: int| out@[k].tokens()));
                }
                break;
            }
            let t = self._split_tokenizer(pattern);
            let ghost gdone = Seq::new(out@.len() as nat, |k: int| out@[k].tokens());
            out.push(t);
            proof {
                lemma_after_marker_shorter(pre, pattern@);
                assert(groups_of(pre, pattern@) == seq![before_marker(pre, pattern@)] + groups_of(
                    after_marker(pre, pattern@),
                    pattern@,
                ));
                assert(Seq::new(out@.len() as nat, |k: int| out@[k].tokens()) =~= gdone.push(
                    t.tokens(),
                ));
                assert(gdone.push(t.tokens()) + groups_of(self.tokens(), pattern@) =~= gdone + (
                seq![t.tokens()] + groups_of(self.tokens(), pattern@)));
            }
        }
        proof {
            assert forall|k: int| 0 <= k < out@.len() implies (#[trigger] out@[k]).tokens()
                == groups_of(toks0, pattern@)[k] by {
                assert(groups_of(toks0, pattern@)[k] == Seq::new(
                    out@.len() as nat,
                    |k2: int| out@[k2].tokens(),
                )[k]);
            }
        }
        out
    }

    /// Does the unconsumed text start with `prefix`?
    pub fn starts_with(&self, prefix: &str) -> (r: bool)
        ensures
            r == (self.current is Some && prefix@.len() <= self.remaining().len()
                && self.remaining().subrange(0, prefix@.len() as int) == prefix@),
    {
        match &self.current {
            Some(cur) => {
                let plen = prefix.unicode_len();
                let clen = cur.as_str().unicode_len();
                if plen > clen {
                    return false;
                }
                let r = str_eq(cur.as_str().substring_char(0, plen), prefix);
                proof {
                    if r {
                        assert(self.remaining().subrange(0, prefix@.len() as int) == prefix@);
                    }
                }
                r
            },
            None => false,
        }
    }
}

} // verus!

