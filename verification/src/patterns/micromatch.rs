//! Translation of extended glob patterns to anchored regex sources.

use crate::error::GlobError;
use crate::text::{append, chars_of, slice, text_of};
use vstd::prelude::*;

verus! {

/// One lexical unit of an extended glob pattern.
#[derive(Clone, Copy, Debug, PartialEq, Eq, Structural)]
pub enum Token {
    Char(char),
    Escaped(char),
    OpenParen,
    CloseParen,
    Pipe,
    OpenBracket,
    CloseBracket,
    OpenBrace,
    CloseBrace,
    Question,
    Star,
    Plus,
    At,
    Exclamation,
    Comma,
    Dot,
    Caret,
    Dollar,
    Minus,
}

/// The token that the character `c` makes when no backslash stands before
/// it.
pub open spec fn token_of(c: char) -> Token {
    if c == '(' {
        Token::OpenParen
    } else if c == ')' {
        Token::CloseParen
    } else if c == '|' {
        Token::Pipe
    } else if c == '[' {
        Token::OpenBracket
    } else if c == ']' {
        Token::CloseBracket
    } else if c == '{' {
        Token::OpenBrace
    } else if c == '}' {
        Token::CloseBrace
    } else if c == '?' {
        Token::Question
    } else if c == '*' {
        Token::Star
    } else if c == '+' {
        Token::Plus
    } else if c == '@' {
        Token::At
    } else if c == '!' {
        Token::Exclamation
    } else if c == ',' {
        Token::Comma
    } else if c == '.' {
        Token::Dot
    } else if c == '^' {
        Token::Caret
    } else if c == '$' {
        Token::Dollar
    } else if c == '-' {
        Token::Minus
    } else {
        Token::Char(c)
    }
}

/// The first token of a text that is not empty. A backslash and the
/// character after it make one escaped token; a backslash at the very end
/// stands for itself.
pub open spec fn first_token(s: Seq<char>) -> Token {
    if s[0] == '\\' {
        if s.len() >= 2 {
            Token::Escaped(s[1])
        } else {
            Token::Char('\\')
        }
    } else {
        token_of(s[0])
    }
}

/// The number of characters that the first token of `s` is read from.
pub open spec fn first_width(s: Seq<char>) -> int {
    if s[0] == '\\' && s.len() >= 2 {
        2
    } else {
        1
    }
}

/// The tokens of `s`, in order.
pub open spec fn tokens(s: Seq<char>) -> Seq<Token>
    decreases s.len(),
{
    if s.len() == 0 {
        Seq::empty()
    } else {
        seq![first_token(s)] + tokens(s.skip(first_width(s)))
    }
}

/// The characters that the token `t` was read from.
pub open spec fn token_text(t: Token) -> Seq<char> {
    match t {
        Token::Char(c) => seq![c],
        Token::Escaped(c) => seq!['\\', c],
        Token::OpenParen => seq!['('],
        Token::CloseParen => seq![')'],
        Token::Pipe => seq!['|'],
        Token::OpenBracket => seq!['['],
        Token::CloseBracket => seq![']'],
        Token::OpenBrace => seq!['{'],
        Token::CloseBrace => seq!['}'],
        Token::Question => seq!['?'],
        Token::Star => seq!['*'],
        Token::Plus => seq!['+'],
        Token::At => seq!['@'],
        Token::Exclamation => seq!['!'],
        Token::Comma => seq![','],
        Token::Dot => seq!['.'],
        Token::Caret => seq!['^'],
        Token::Dollar => seq!['$'],
        Token::Minus => seq!['-'],
    }
}

/// The text that the tokens `ts` were read from.
pub open spec fn tokens_text(ts: Seq<Token>) -> Seq<char>
    decreases ts.len(),
{
    if ts.len() == 0 {
        Seq::empty()
    } else {
        tokens_text(ts.drop_last()) + token_text(ts.last())
    }
}

/// Whether `c` has a meaning of its own in a regex.
pub open spec fn is_regex_special(c: char) -> bool {
    c == '.' || c == '+' || c == '?' || c == '*' || c == '(' || c == ')' || c == '[' || c == ']'
        || c == '{' || c == '}' || c == '^' || c == '$' || c == '|' || c == '\\'
}

/// The regex source that matches the character `c` and nothing else.
pub open spec fn escaped_char(c: char) -> Seq<char> {
    if is_regex_special(c) {
        seq!['\\', c]
    } else {
        seq![c]
    }
}

/// The position at or after `from` of the `close` token that balances the
/// outermost of `depth` open groups, `open` tokens opening further ones.
pub open spec fn balanced_end(
    ts: Seq<Token>,
    from: int,
    depth: nat,
    open: Token,
    close: Token,
) -> Option<int>
    decreases ts.len() - from,
{
    if from < 0 || from >= ts.len() {
        None
    } else if ts[from] == open {
        balanced_end(ts, from + 1, depth + 1, open, close)
    } else if ts[from] == close {
        if depth <= 1 {
            Some(from)
        } else {
            balanced_end(ts, from + 1, (depth - 1) as nat, open, close)
        }
    } else {
        balanced_end(ts, from + 1, depth, open, close)
    }
}

/// The first `|` at or after `from` that lies outside every parenthesis,
/// `depth` being the number of parentheses open at `from`.
pub open spec fn top_pipe(ts: Seq<Token>, from: int, depth: int) -> Option<int>
    decreases ts.len() - from,
{
    if from < 0 || from >= ts.len() {
        None
    } else {
        let d = if ts[from] == Token::OpenParen {
            depth + 1
        } else if ts[from] == Token::CloseParen {
            depth - 1
        } else {
            depth
        };
        if ts[from] == Token::Pipe && d == 0 {
            Some(from)
        } else {
            top_pipe(ts, from + 1, d)
        }
    }
}

/// The first `,` of `s` at or after `from`.
pub open spec fn first_comma(s: Seq<char>, from: int) -> Option<int>
    decreases s.len() - from,
{
    if from < 0 || from >= s.len() {
        None
    } else if s[from] == ',' {
        Some(from)
    } else {
        first_comma(s, from + 1)
    }
}

/// Whether `t` may stand before a parenthesis to open an extended group.
pub open spec fn is_extglob_operator(t: Token) -> bool {
    t == Token::Question || t == Token::Star || t == Token::Plus || t == Token::At || t
        == Token::Exclamation
}

/// The regex group for the operator `op` over the joined alternatives
/// `alts`.
pub open spec fn wrap_extglob(op: Token, alts: Seq<char>) -> Seq<char> {
    match op {
        Token::Question => seq!['(', '?', ':'] + alts + seq![')', '?'],
        Token::Star => seq!['(', '?', ':'] + alts + seq![')', '*'],
        Token::Plus => seq!['(', '?', ':'] + alts + seq![')', '+'],
        Token::At => seq!['(', '?', ':'] + alts + seq![')'],
        _ => seq!['(', '?', '!', '(', '?', ':'] + alts + seq![')', ')', '.', '*'],
    }
}

/// The character class for the tokens between `[` and `]`: a leading `!`
/// negates it, everything else is kept as written.
pub open spec fn class_text(inner: Seq<Token>) -> Seq<char> {
    if inner.len() > 0 && inner[0] == Token::Exclamation {
        seq!['[', '^'] + tokens_text(inner.skip(1)) + seq![']']
    } else {
        seq!['['] + tokens_text(inner) + seq![']']
    }
}

/// `r` without a leading `^` and without a trailing `$`.
pub open spec fn without_anchors(r: Seq<char>) -> Seq<char> {
    let a = if r.len() > 0 && r[0] == '^' {
        r.skip(1)
    } else {
        r
    };
    if a.len() > 0 && a.last() == '$' {
        a.drop_last()
    } else {
        a
    }
}

/// `head` before `tail`, where `tail` exists.
pub open spec fn joined(head: Seq<char>, tail: Option<Seq<char>>) -> Option<Seq<char>> {
    match tail {
        Some(r) => Some(head + r),
        None => None,
    }
}

/// Whether `p` starts with `re:`.
pub open spec fn is_raw(p: Seq<char>) -> bool {
    p.len() >= 3 && p[0] == 'r' && p[1] == 'e' && p[2] == ':'
}

/// The regex source for the pattern `p`, or nothing where a group of `p`
/// is never closed. After `re:` the rest is taken as it stands; otherwise
/// the translated tokens stand between `^` and `$`.
pub open spec fn translation(p: Seq<char>) -> Option<Seq<char>>
    decreases p.len(), 2nat, 0nat,
{
    if is_raw(p) {
        Some(p.skip(3))
    } else {
        proof {
            lemma_round_trip(p);
        }
        match body_from(tokens(p), 0) {
            Some(b) => Some(seq!['^'] + b + seq!['$']),
            None => None,
        }
    }
}

/// The translation of the alternative `text` of an extended group: its
/// regex source without the anchors.
pub open spec fn alternative(text: Seq<char>) -> Option<Seq<char>>
    decreases text.len(), 3nat, 0nat,
{
    match translation(text) {
        Some(r) => Some(without_anchors(r)),
        None => None,
    }
}

/// The alternatives of an extended group, split at top-level `|`, each
/// translated, joined by `|`. An empty last alternative does not count.
#[verifier::opaque]
pub open spec fn group_body(inner: Seq<Token>) -> Option<Seq<char>>
    decreases tokens_text(inner).len(), 4nat, 0nat,
{
    match top_pipe(inner, 0, 0) {
        None => if inner.len() == 0 {
            Some(Seq::empty())
        } else {
            alternative(tokens_text(inner))
        },
        Some(i) => {
            proof {
                lemma_top_pipe(inner, 0, 0);
                lemma_text_within(inner, 0, i);
                lemma_text_within(inner, i + 1, inner.len() as int);
                assert(inner.subrange(0, i) =~= inner.take(i));
                assert(inner.subrange(i + 1, inner.len() as int) =~= inner.skip(i + 1));
            }
            let first = alternative(tokens_text(inner.take(i)));
            let rest = inner.skip(i + 1);
            if rest.len() == 0 {
                first
            } else {
                match (first, group_body(rest)) {
                    (Some(a), Some(b)) => Some(a + seq!['|'] + b),
                    _ => None,
                }
            }
        },
    }
}

/// The alternatives of a brace group, split at every `,`, each translated
/// with its anchors, joined by `|`.
#[verifier::opaque]
pub open spec fn brace_body(text: Seq<char>) -> Option<Seq<char>>
    decreases text.len(), 3nat, 0nat,
{
    match first_comma(text, 0) {
        None => translation(text),
        Some(i) => {
            proof {
                lemma_first_comma(text, 0);
            }
            match (translation(text.take(i)), brace_body(text.skip(i + 1))) {
                (Some(a), Some(b)) => Some(a + seq!['|'] + b),
                _ => None,
            }
        },
    }
}

/// The translation of the tokens of `ts` from position `from` on.
pub open spec fn body_from(ts: Seq<Token>, from: int) -> Option<Seq<char>>
    decreases tokens_text(ts).len(), 1nat, ts.len() - from,
{
    if from < 0 || from >= ts.len() {
        Some(Seq::empty())
    } else {
        let t = ts[from];
        if is_extglob_operator(t) && from + 1 < ts.len() && ts[from + 1] == Token::OpenParen {
            match balanced_end(ts, from + 2, 1, Token::OpenParen, Token::CloseParen) {
                Some(e) => {
                    proof {
                        lemma_balanced_end(ts, from + 2, 1, Token::OpenParen, Token::CloseParen);
                        lemma_text_within(ts, from + 2, e);
                    }
                    match group_body(ts.subrange(from + 2, e)) {
                        Some(g) => joined(wrap_extglob(t, g), body_from(ts, e + 1)),
                        None => None,
                    }
                },
                None => None,
            }
        } else if t == Token::OpenBracket {
            match balanced_end(ts, from + 1, 1, Token::OpenBracket, Token::CloseBracket) {
                Some(e) => {
                    proof {
                        lemma_balanced_end(
                            ts,
                            from + 1,
                            1,
                            Token::OpenBracket,
                            Token::CloseBracket,
                        );
                    }
                    joined(class_text(ts.subrange(from + 1, e)), body_from(ts, e + 1))
                },
                None => None,
            }
        } else if t == Token::OpenBrace {
            match balanced_end(ts, from + 1, 1, Token::OpenBrace, Token::CloseBrace) {
                Some(e) => {
                    proof {
                        lemma_balanced_end(ts, from + 1, 1, Token::OpenBrace, Token::CloseBrace);
                        lemma_text_within(ts, from + 1, e);
                    }
                    match brace_body(tokens_text(ts.subrange(from + 1, e))) {
                        Some(b) => joined(
                            seq!['(', '?', ':'] + b + seq![')'],
                            body_from(ts, e + 1),
                        ),
                        None => None,
                    }
                },
                None => None,
            }
        } else {
            joined(plain_token(t), body_from(ts, from + 1))
        }
    }
}

/// The regex source for a token that opens no group.
pub open spec fn plain_token(t: Token) -> Seq<char> {
    match t {
        Token::Question => seq!['.'],
        Token::Star => seq!['.', '*'],
        Token::Plus => seq!['.', '+'],
        Token::Escaped(c) => escaped_char(c),
        Token::Char(c) => escaped_char(c),
        Token::Dot => seq!['\\', '.'],
        Token::Caret => seq!['\\', '^'],
        Token::Dollar => seq!['\\', '$'],
        _ => token_text(t),
    }
}

/// The regex source of a pattern that is no raw regex starts with `^` and
/// ends with `$`, and what stands between them is what is left when the
/// anchors are taken off.
pub proof fn lemma_translation_is_anchored(p: Seq<char>)
    requires
        !is_raw(p),
    ensures
        translation(p) matches Some(r) ==> r.len() >= 2 && r[0] == '^' && r.last() == '$'
            && Some(without_anchors(r)) == body_from(tokens(p), 0),
{
    if let Some(b) = body_from(tokens(p), 0) {
        let r = seq!['^'] + b + seq!['$'];
        assert(r[0] == '^');
        assert(r.last() == '$');
        assert(r.skip(1) =~= b + seq!['$']);
        assert(r.skip(1).drop_last() =~= b);
    }
}

/// Whether the token at position `i` opens a group: a `[`, a `{`, or an
/// operator with a `(` right after it.
pub open spec fn opens_group(ts: Seq<Token>, i: int) -> bool {
    ts[i] == Token::OpenBracket || ts[i] == Token::OpenBrace || (is_extglob_operator(ts[i]) && i
        + 1 < ts.len() && ts[i + 1] == Token::OpenParen)
}

/// Tokens of which none opens a group always have a translation: only a
/// group that is never closed makes a pattern invalid.
pub proof fn lemma_without_groups_translates(ts: Seq<Token>, from: int)
    requires
        forall|i: int| 0 <= i < ts.len() ==> !opens_group(ts, i),
    ensures
        body_from(ts, from) is Some,
    decreases ts.len() - from,
{
    if 0 <= from < ts.len() {
        assert(!opens_group(ts, from));
        lemma_without_groups_translates(ts, from + 1);
    }
}

/// A raw regex is handed back as it stands after `re:`.
pub proof fn lemma_raw_is_untouched(source: Seq<char>)
    ensures
        translation(seq!['r', 'e', ':'] + source) == Some(source),
{
    let p = seq!['r', 'e', ':'] + source;
    assert(p.skip(3) =~= source);
}

/// A balancing token that is found lies at or after the place where the
/// search began.
pub proof fn lemma_balanced_end(ts: Seq<Token>, from: int, depth: nat, open: Token, close: Token)
    requires
        0 <= from,
    ensures
        balanced_end(ts, from, depth, open, close) matches Some(e) ==> from <= e < ts.len(),
    decreases ts.len() - from,
{
    if from < ts.len() {
        if ts[from] == open {
            lemma_balanced_end(ts, from + 1, depth + 1, open, close);
        } else if ts[from] == close {
            if depth > 1 {
                lemma_balanced_end(ts, from + 1, (depth - 1) as nat, open, close);
            }
        } else {
            lemma_balanced_end(ts, from + 1, depth, open, close);
        }
    }
}

/// A top-level `|` that is found lies at or after the place where the
/// search began.
pub proof fn lemma_top_pipe(ts: Seq<Token>, from: int, depth: int)
    requires
        0 <= from,
    ensures
        top_pipe(ts, from, depth) matches Some(i) ==> from <= i < ts.len(),
    decreases ts.len() - from,
{
    if from < ts.len() {
        let d = if ts[from] == Token::OpenParen {
            depth + 1
        } else if ts[from] == Token::CloseParen {
            depth - 1
        } else {
            depth
        };
        if !(ts[from] == Token::Pipe && d == 0) {
            lemma_top_pipe(ts, from + 1, d);
        }
    }
}

/// A comma that is found lies at or after the place where the search
/// began.
pub proof fn lemma_first_comma(s: Seq<char>, from: int)
    requires
        0 <= from,
    ensures
        first_comma(s, from) matches Some(i) ==> from <= i < s.len(),
    decreases s.len() - from,
{
    if from < s.len() && s[from] != ',' {
        lemma_first_comma(s, from + 1);
    }
}

/// The text of a stretch of tokens is shorter than the text of all of them
/// by at least one character for each token left out.
pub proof fn lemma_text_within(ts: Seq<Token>, lo: int, hi: int)
    requires
        0 <= lo <= hi <= ts.len(),
    ensures
        tokens_text(ts.subrange(lo, hi)).len() + lo + (ts.len() - hi) <= tokens_text(ts).len(),
    decreases ts.len(),
{
    if ts.len() == 0 {
        assert(ts.subrange(lo, hi) =~= ts);
    } else {
        let front = ts.drop_last();
        if hi < ts.len() {
            lemma_text_within(front, lo, hi);
            assert(front.subrange(lo, hi) =~= ts.subrange(lo, hi));
        } else if lo < hi {
            lemma_text_within(front, lo, hi - 1);
            assert(ts.subrange(lo, hi).drop_last() =~= front.subrange(lo, hi - 1));
            assert(ts.subrange(lo, hi).last() == ts.last());
        } else {
            lemma_text_within(front, lo - 1, lo - 1);
            assert(ts.subrange(lo, hi) =~= Seq::<Token>::empty());
        }
    }
}

/// The text of two runs of tokens, one after the other, is the text of the
/// first followed by the text of the second.
pub proof fn lemma_text_concat(a: Seq<Token>, b: Seq<Token>)
    ensures
        tokens_text(a + b) == tokens_text(a) + tokens_text(b),
    decreases b.len(),
{
    if b.len() == 0 {
        assert(a + b =~= a);
        assert(tokens_text(a) + tokens_text(b) =~= tokens_text(a));
    } else {
        lemma_text_concat(a, b.drop_last());
        assert((a + b).drop_last() =~= a + b.drop_last());
        assert((a + b).last() == b.last());
        assert(tokens_text(a + b) =~= tokens_text(a) + tokens_text(b));
    }
}

proof fn lemma_text_single(t: Token)
    ensures
        tokens_text(seq![t]) == token_text(t),
{
    let one = seq![t];
    assert(one.len() == 1);
    assert(one.last() == t);
    assert(one.drop_last() =~= Seq::<Token>::empty());
    assert(tokens_text(one.drop_last()) =~= Seq::<char>::empty());
    assert(tokens_text(one) =~= token_text(t));
}

/// Reading tokens loses nothing: their text is the pattern again.
pub proof fn lemma_round_trip(p: Seq<char>)
    ensures
        tokens_text(tokens(p)) == p,
    decreases p.len(),
{
    if p.len() == 0 {
        assert(tokens_text(tokens(p)) =~= p);
    } else {
        let t = first_token(p);
        let w = first_width(p);
        let rest = tokens(p.skip(w));
        lemma_round_trip(p.skip(w));
        lemma_text_concat(seq![t], rest);
        lemma_text_single(t);
        assert(token_text(t) =~= p.take(w));
        assert(p.take(w) + p.skip(w) =~= p);
    }
}

/// What is said of a group that is never closed.
pub open spec fn unbalanced_message() -> Seq<char> {
    "unbalanced parentheses in extglob"@
}

/// What is said of a token that opens no extended group.
pub open spec fn operator_message() -> Seq<char> {
    "Invalid extglob operator"@
}

/// Whether `r` gives the characters of `o`, or, where `o` is nothing, the
/// failure for a group that is never closed.
pub open spec fn reports(r: Result<Vec<char>, GlobError>, o: Option<Seq<char>>) -> bool {
    match o {
        Some(x) => r matches Ok(v) && v@ == x,
        None => r matches Err(GlobError::InvalidPattern(m)) && m@ == unbalanced_message(),
    }
}

fn unbalanced() -> (e: GlobError)
    ensures
        e matches GlobError::InvalidPattern(m) && m@ == unbalanced_message(),
{
    GlobError::InvalidPattern("unbalanced parentheses in extglob".to_owned())
}

fn classify(c: char) -> (t: Token)
    ensures
        t == token_of(c),
{
    if c == '(' {
        Token::OpenParen
    } else if c == ')' {
        Token::CloseParen
    } else if c == '|' {
        Token::Pipe
    } else if c == '[' {
        Token::OpenBracket
    } else if c == ']' {
        Token::CloseBracket
    } else if c == '{' {
        Token::OpenBrace
    } else if c == '}' {
        Token::CloseBrace
    } else if c == '?' {
        Token::Question
    } else if c == '*' {
        Token::Star
    } else if c == '+' {
        Token::Plus
    } else if c == '@' {
        Token::At
    } else if c == '!' {
        Token::Exclamation
    } else if c == ',' {
        Token::Comma
    } else if c == '.' {
        Token::Dot
    } else if c == '^' {
        Token::Caret
    } else if c == '$' {
        Token::Dollar
    } else if c == '-' {
        Token::Minus
    } else {
        Token::Char(c)
    }
}

fn tokenize_chars(s: &Vec<char>) -> (out: Vec<Token>)
    ensures
        out@ == tokens(s@),
{
    let n = s.len();
    let mut out: Vec<Token> = Vec::new();
    let mut i: usize = 0;
    proof {
        assert(s@.skip(0) =~= s@);
        assert(out@ + tokens(s@) =~= tokens(s@));
    }
    while i < n
        invariant
            i <= n,
            n == s.len(),
            tokens(s@) == out@ + tokens(s@.skip(i as int)),
        decreases n - i,
    {
        let ghost rem = s@.skip(i as int);
        let ghost before = out@;
        assert(rem[0] == s@[i as int]);
        let c = s[i];
        let mut width: usize = 1;
        if c == '\\' {
            if i + 1 < n {
                assert(rem[1] == s@[i + 1]);
                out.push(Token::Escaped(s[i + 1]));
                width = 2;
            } else {
                out.push(Token::Char('\\'));
            }
        } else {
            out.push(classify(c));
        }
        proof {
            assert(width == first_width(rem));
            assert(out@ == before.push(first_token(rem)));
            assert(rem.skip(width as int) =~= s@.skip(i + width));
            assert(before + (seq![first_token(rem)] + tokens(rem.skip(width as int))) =~= out@
                + tokens(s@.skip(i + width)));
        }
        i += width;
    }
    assert(tokens(s@.skip(n as int)) =~= Seq::<Token>::empty());
    assert(out@ + Seq::<Token>::empty() =~= out@);
    out
}

/// Reads the tokens of `s`.
pub fn tokenize(s: &str) -> (out: Vec<Token>)
    ensures
        out@ == tokens(s@),
{
    let chars = chars_of(s);
    tokenize_chars(&chars)
}

fn push_escaped(out: &mut Vec<char>, c: char)
    ensures
        final(out)@ == old(out)@ + escaped_char(c),
{
    if c == '.' || c == '+' || c == '?' || c == '*' || c == '(' || c == ')' || c == '[' || c == ']'
        || c == '{' || c == '}' || c == '^' || c == '$' || c == '|' || c == '\\' {
        out.push('\\');
    }
    out.push(c);
    assert(out@ =~= old(out)@ + escaped_char(c));
}

/// The regex source that matches `c` alone: a backslash goes before a
/// character that the regex syntax gives a meaning.
pub fn regex_escape_char(c: char) -> (out: String)
    ensures
        out@ == escaped_char(c),
{
    let mut chars: Vec<char> = Vec::new();
    push_escaped(&mut chars, c);
    assert(chars@ =~= escaped_char(c));
    text_of(&chars)
}

fn push_token_text(out: &mut Vec<char>, t: Token)
    ensures
        final(out)@ == old(out)@ + token_text(t),
{
    match t {
        Token::Char(c) => out.push(c),
        Token::Escaped(c) => {
            out.push('\\');
            out.push(c);
        },
        Token::OpenParen => out.push('('),
        Token::CloseParen => out.push(')'),
        Token::Pipe => out.push('|'),
        Token::OpenBracket => out.push('['),
        Token::CloseBracket => out.push(']'),
        Token::OpenBrace => out.push('{'),
        Token::CloseBrace => out.push('}'),
        Token::Question => out.push('?'),
        Token::Star => out.push('*'),
        Token::Plus => out.push('+'),
        Token::At => out.push('@'),
        Token::Exclamation => out.push('!'),
        Token::Comma => out.push(','),
        Token::Dot => out.push('.'),
        Token::Caret => out.push('^'),
        Token::Dollar => out.push('$'),
        Token::Minus => out.push('-'),
    }
    assert(out@ =~= old(out)@ + token_text(t));
}

fn text_of_tokens(ts: &Vec<Token>, lo: usize, hi: usize) -> (out: Vec<char>)
    requires
        lo <= hi <= ts.len(),
    ensures
        out@ == tokens_text(ts@.subrange(lo as int, hi as int)),
{
    let mut out: Vec<char> = Vec::new();
    let mut i: usize = lo;
    assert(ts@.subrange(lo as int, lo as int) =~= Seq::<Token>::empty());
    while i < hi
        invariant
            lo <= i <= hi <= ts.len(),
            out@ == tokens_text(ts@.subrange(lo as int, i as int)),
        decreases hi - i,
    {
        proof {
            let next = ts@.subrange(lo as int, i + 1);
            assert(next.drop_last() =~= ts@.subrange(lo as int, i as int));
            assert(next.last() == ts@[i as int]);
        }
        push_token_text(&mut out, ts[i]);
        i += 1;
    }
    out
}

/// Writes tokens back as the text they were read from.
pub fn tokens_to_string(tokens: &Vec<Token>) -> (out: String)
    ensures
        out@ == tokens_text(tokens@),
{
    let chars = text_of_tokens(tokens, 0, tokens.len());
    assert(tokens@.subrange(0, tokens.len() as int) =~= tokens@);
    text_of(&chars)
}

/// Takes the tokens from `from` up to the `end` token that balances one
/// open group, and gives them with the position after that token.
pub fn collect_until_balanced(tokens: &Vec<Token>, from: usize, start: Token, end: Token) -> (r:
    Result<(Vec<Token>, usize), GlobError>)
    requires
        from <= tokens.len(),
    ensures
        match balanced_end(tokens@, from as int, 1, start, end) {
            Some(e) => r matches Ok((inner, next)) && from <= e < tokens.len() && next == e + 1
                && inner@ == tokens@.subrange(from as int, e),
            None => r matches Err(GlobError::InvalidPattern(m)) && m@ == unbalanced_message(),
        },
{
    let n = tokens.len();
    let mut out: Vec<Token> = Vec::new();
    let mut depth: u128 = 1;
    let mut i: usize = from;
    assert(tokens@.subrange(from as int, from as int) =~= out@);
    while i < n
        invariant
            from <= i <= n,
            n == tokens.len(),
            1 <= depth <= i - from + 1,
            out@ == tokens@.subrange(from as int, i as int),
            balanced_end(tokens@, from as int, 1, start, end) == balanced_end(
                tokens@,
                i as int,
                depth as nat,
                start,
                end,
            ),
        decreases n - i,
    {
        let t = tokens[i];
        if t == start {
            depth += 1;
        } else if t == end {
            if depth == 1 {
                return Ok((out, i + 1));
            }
            depth -= 1;
        }
        out.push(t);
        assert(out@ =~= tokens@.subrange(from as int, i + 1));
        i += 1;
    }
    Err(unbalanced())
}

fn find_top_pipe(ts: &Vec<Token>, from: usize) -> (r: Option<usize>)
    requires
        from <= ts.len(),
    ensures
        match r {
            Some(i) => from <= i < ts.len() && top_pipe(ts@.skip(from as int), 0, 0) == Some(
                i - from,
            ),
            None => top_pipe(ts@.skip(from as int), 0, 0) is None,
        },
{
    let n = ts.len();
    let ghost tail = ts@.skip(from as int);
    let mut depth: i128 = 0;
    let mut i: usize = from;
    while i < n
        invariant
            from <= i <= n,
            n == ts.len(),
            tail == ts@.skip(from as int),
            -(i - from) <= depth <= i - from,
            top_pipe(tail, 0, 0) == top_pipe(tail, i - from, depth as int),
        decreases n - i,
    {
        assert(tail[i - from] == ts@[i as int]);
        let t = ts[i];
        if t == Token::OpenParen {
            depth += 1;
        } else if t == Token::CloseParen {
            depth -= 1;
        }
        if t == Token::Pipe && depth == 0 {
            return Some(i);
        }
        i += 1;
    }
    None
}

fn find_comma(s: &Vec<char>, from: usize) -> (r: Option<usize>)
    requires
        from <= s.len(),
    ensures
        match r {
            Some(i) => from <= i < s.len() && first_comma(s@.skip(from as int), 0) == Some(
                i - from,
            ),
            None => first_comma(s@.skip(from as int), 0) is None,
        },
{
    let n = s.len();
    let ghost tail = s@.skip(from as int);
    let mut i: usize = from;
    while i < n
        invariant
            from <= i <= n,
            n == s.len(),
            tail == s@.skip(from as int),
            first_comma(tail, 0) == first_comma(tail, i - from),
        decreases n - i,
    {
        assert(tail[i - from] == s@[i as int]);
        if s[i] == ',' {
            return Some(i);
        }
        i += 1;
    }
    None
}

fn strip_anchors(r: &Vec<char>) -> (out: Vec<char>)
    ensures
        out@ == without_anchors(r@),
{
    let n = r.len();
    let lo: usize = if n > 0 && r[0] == '^' {
        1
    } else {
        0
    };
    let hi: usize = if n > lo && r[n - 1] == '$' {
        n - 1
    } else {
        n
    };
    let out = slice(r, lo, hi);
    proof {
        let a = if r@.len() > 0 && r@[0] == '^' {
            r@.skip(1)
        } else {
            r@
        };
        assert(a =~= r@.subrange(lo as int, n as int));
        if a.len() > 0 {
            assert(a.last() == r@[n - 1]);
        }
        assert(out@ =~= without_anchors(r@));
    }
    out
}

fn is_operator(t: Token) -> (b: bool)
    ensures
        b == is_extglob_operator(t),
{
    match t {
        Token::Question => true,
        Token::Star => true,
        Token::Plus => true,
        Token::At => true,
        Token::Exclamation => true,
        _ => false,
    }
}

fn wrap_group(op: Token, alts: &Vec<char>) -> (out: Vec<char>)
    requires
        is_extglob_operator(op),
    ensures
        out@ == wrap_extglob(op, alts@),
{
    let mut out: Vec<char> = Vec::new();
    out.push('(');
    out.push('?');
    match op {
        Token::Exclamation => {
            out.push('!');
            out.push('(');
            out.push('?');
            out.push(':');
            append(&mut out, alts);
            out.push(')');
            out.push(')');
            out.push('.');
            out.push('*');
        },
        _ => {
            out.push(':');
            append(&mut out, alts);
            out.push(')');
            match op {
                Token::Question => out.push('?'),
                Token::Star => out.push('*'),
                Token::Plus => out.push('+'),
                _ => {},
            }
        },
    }
    assert(out@ =~= wrap_extglob(op, alts@));
    out
}

/// Writes the character class for the tokens between `[` and `]`.
pub fn process_character_class(tokens: &Vec<Token>) -> (r: Result<Vec<char>, GlobError>)
    ensures
        r matches Ok(v) && v@ == class_text(tokens@),
{
    let mut out: Vec<char> = Vec::new();
    out.push('[');
    let negated = tokens.len() > 0 && tokens[0] == Token::Exclamation;
    let lo: usize = if negated {
        out.push('^');
        1
    } else {
        0
    };
    let body = text_of_tokens(tokens, lo, tokens.len());
    append(&mut out, &body);
    out.push(']');
    proof {
        assert(tokens@.subrange(lo as int, tokens.len() as int) =~= tokens@.skip(lo as int));
        assert(tokens@.skip(0) =~= tokens@);
        assert(out@ =~= class_text(tokens@));
    }
    Ok(out)
}

proof fn lemma_group_step(tail: Seq<Token>)
    requires
        tail.len() > 0,
    ensures
        match top_pipe(tail, 0, 0) {
            None => group_body(tail) == alternative(tokens_text(tail)),
            Some(k) => group_body(tail) == if tail.skip(k + 1).len() == 0 {
                alternative(tokens_text(tail.take(k)))
            } else {
                match (alternative(tokens_text(tail.take(k))), group_body(tail.skip(k + 1))) {
                    (Some(a), Some(b)) => Some(a + seq!['|'] + b),
                    _ => None,
                }
            },
        },
{
    reveal(group_body);
}

proof fn lemma_brace_step(tail: Seq<char>)
    ensures
        match first_comma(tail, 0) {
            None => brace_body(tail) == translation(tail),
            Some(k) => brace_body(tail) == match (
                translation(tail.take(k)),
                brace_body(tail.skip(k + 1)),
            ) {
                (Some(a), Some(b)) => Some(a + seq!['|'] + b),
                _ => None,
            },
        },
{
    reveal(brace_body);
}

proof fn lemma_joined_twice(x: Seq<char>, y: Seq<char>, o: Option<Seq<char>>)
    ensures
        joined(x, joined(y, o)) == joined(x + y, o),
{
    if let Some(r) = o {
        assert(x + (y + r) =~= (x + y) + r);
    }
}

/// Translates the first alternative of the tokens from `begin` on, and
/// tells where the alternatives after it begin, if there are any.
fn next_alternative(tokens: &Vec<Token>, begin: usize) -> (r: Result<
    (Vec<char>, Option<usize>),
    GlobError,
>)
    requires
        begin < tokens.len(),
    ensures
        match r {
            Err(e) => group_body(tokens@.skip(begin as int)) is None && (e
                matches GlobError::InvalidPattern(m) && m@ == unbalanced_message()),
            Ok((a, None)) => group_body(tokens@.skip(begin as int)) == Some(a@),
            Ok((a, Some(next))) => begin < next < tokens.len() && group_body(
                tokens@.skip(begin as int),
            ) == joined(a@ + seq!['|'], group_body(tokens@.skip(next as int))),
        },
    decreases tokens_text(tokens@).len(), 3nat, 1nat,
{
    let n = tokens.len();
    let ghost tail = tokens@.skip(begin as int);
    let cut = find_top_pipe(tokens, begin);
    let end = match cut {
        Some(i) => i,
        None => n,
    };
    let piece = text_of_tokens(tokens, begin, end);
    proof {
        lemma_group_step(tail);
        lemma_text_within(tokens@, begin as int, end as int);
        assert(tail.take(end - begin) =~= tokens@.subrange(begin as int, end as int));
        assert(tail.take(tail.len() as int) =~= tail);
        if cut is Some {
            assert(tail.skip(end - begin + 1) =~= tokens@.skip(end + 1));
        }
    }
    match translate_chars(&piece) {
        Err(e) => Err(e),
        Ok(re) => {
            let stripped = strip_anchors(&re);
            match cut {
                None => Ok((stripped, None)),
                Some(i) => {
                    if i + 1 >= n {
                        Ok((stripped, None))
                    } else {
                        proof {
                            if let Some(b) = group_body(tokens@.skip(i + 1)) {
                                assert(stripped@ + seq!['|'] + b =~= (stripped@ + seq!['|']) + b);
                            }
                        }
                        Ok((stripped, Some(i + 1)))
                    }
                },
            }
        },
    }
}

/// Translates the alternatives of an extended group and wraps them as
/// `operator` asks.
pub fn process_extglob(tokens: &Vec<Token>, operator: Token) -> (r: Result<Vec<char>, GlobError>)
    ensures
        match group_body(tokens@) {
            Some(g) => if is_extglob_operator(operator) {
                r matches Ok(v) && v@ == wrap_extglob(operator, g)
            } else {
                r matches Err(GlobError::InvalidPattern(m)) && m@ == operator_message()
            },
            None => r matches Err(GlobError::InvalidPattern(m)) && m@ == unbalanced_message(),
        },
    decreases tokens_text(tokens@).len(), 4nat, 0nat,
{
    let n = tokens.len();
    let mut alts: Vec<char> = Vec::new();
    let mut begin: usize = 0;
    let mut finished = n == 0;
    proof {
        reveal(group_body);
        assert(tokens@.skip(0) =~= tokens@);
        if n == 0 {
            assert(alts@ =~= Seq::<char>::empty());
        } else if let Some(b) = group_body(tokens@) {
            assert(alts@ + b =~= b);
        }
    }
    while !finished
        invariant
            n == tokens.len(),
            !finished ==> begin < n && group_body(tokens@) == joined(
                alts@,
                group_body(tokens@.skip(begin as int)),
            ),
            finished ==> group_body(tokens@) == Some(alts@),
        decreases
                (if finished {
                    0
                } else {
                    n - begin + 1
                }),
    {
        let ghost done = alts@;
        match next_alternative(tokens, begin) {
            Err(e) => {
                return Err(e);
            },
            Ok((a, None)) => {
                append(&mut alts, &a);
                finished = true;
            },
            Ok((a, Some(next))) => {
                append(&mut alts, &a);
                alts.push('|');
                proof {
                    lemma_joined_twice(done, a@ + seq!['|'], group_body(tokens@.skip(next as int)));
                    assert(alts@ =~= done + (a@ + seq!['|']));
                }
                begin = next;
            },
        }
    }
    if is_operator(operator) {
        Ok(wrap_group(operator, &alts))
    } else {
        Err(GlobError::InvalidPattern("Invalid extglob operator".to_owned()))
    }
}

/// Translates the first alternative of a brace group's text from `begin`
/// on, and tells where the alternatives after it begin, if there are any.
fn next_brace_alternative(text: &Vec<char>, begin: usize) -> (r: Result<
    (Vec<char>, Option<usize>),
    GlobError,
>)
    requires
        begin <= text.len(),
    ensures
        match r {
            Err(e) => brace_body(text@.skip(begin as int)) is None && (e
                matches GlobError::InvalidPattern(m) && m@ == unbalanced_message()),
            Ok((a, None)) => brace_body(text@.skip(begin as int)) == Some(a@),
            Ok((a, Some(next))) => begin < next <= text.len() && brace_body(
                text@.skip(begin as int),
            ) == joined(a@ + seq!['|'], brace_body(text@.skip(next as int))),
        },
    decreases text.len(), 2nat, 1nat,
{
    let n = text.len();
    let ghost tail = text@.skip(begin as int);
    let cut = find_comma(text, begin);
    let end = match cut {
        Some(i) => i,
        None => n,
    };
    let piece = slice(text, begin, end);
    proof {
        lemma_brace_step(tail);
        assert(tail.take(end - begin) =~= piece@);
        assert(tail.take(tail.len() as int) =~= tail);
        if cut is Some {
            assert(tail.skip(end - begin + 1) =~= text@.skip(end + 1));
        }
    }
    match translate_chars(&piece) {
        Err(e) => Err(e),
        Ok(re) => match cut {
            None => Ok((re, None)),
            Some(i) => {
                proof {
                    if let Some(b) = brace_body(text@.skip(i + 1)) {
                        assert(re@ + seq!['|'] + b =~= (re@ + seq!['|']) + b);
                    }
                }
                Ok((re, Some(i + 1)))
            },
        },
    }
}

fn translate_braces(text: &Vec<char>) -> (r: Result<Vec<char>, GlobError>)
    ensures
        reports(r, brace_body(text@)),
    decreases text.len(), 3nat, 0nat,
{
    let n = text.len();
    let mut out: Vec<char> = Vec::new();
    let mut begin: usize = 0;
    let mut finished = false;
    proof {
        assert(text@.skip(0) =~= text@);
        if let Some(b) = brace_body(text@) {
            assert(out@ + b =~= b);
        }
    }
    while !finished
        invariant
            n == text.len(),
            !finished ==> begin <= n && brace_body(text@) == joined(
                out@,
                brace_body(text@.skip(begin as int)),
            ),
            finished ==> brace_body(text@) == Some(out@),
        decreases
                (if finished {
                    0
                } else {
                    n - begin + 1
                }),
    {
        let ghost done = out@;
        match next_brace_alternative(text, begin) {
            Err(e) => {
                return Err(e);
            },
            Ok((a, None)) => {
                append(&mut out, &a);
                finished = true;
            },
            Ok((a, Some(next))) => {
                append(&mut out, &a);
                out.push('|');
                proof {
                    lemma_joined_twice(done, a@ + seq!['|'], brace_body(text@.skip(next as int)));
                    assert(out@ =~= done + (a@ + seq!['|']));
                }
                begin = next;
            },
        }
    }
    Ok(out)
}

fn push_plain(out: &mut Vec<char>, t: Token)
    ensures
        final(out)@ == old(out)@ + plain_token(t),
{
    match t {
        Token::Question => out.push('.'),
        Token::Star => {
            out.push('.');
            out.push('*');
        },
        Token::Plus => {
            out.push('.');
            out.push('+');
        },
        Token::Escaped(c) => push_escaped(out, c),
        Token::Char(c) => push_escaped(out, c),
        Token::Dot => {
            out.push('\\');
            out.push('.');
        },
        Token::Caret => {
            out.push('\\');
            out.push('^');
        },
        Token::Dollar => {
            out.push('\\');
            out.push('$');
        },
        _ => push_token_text(out, t),
    }
    assert(out@ =~= old(out)@ + plain_token(t));
}

fn translate_tokens(ts: &Vec<Token>) -> (r: Result<Vec<char>, GlobError>)
    ensures
        reports(r, body_from(ts@, 0)),
    decreases tokens_text(ts@).len(), 1nat, 0nat,
{
    let n = ts.len();
    let mut out: Vec<char> = Vec::new();
    let mut i: usize = 0;
    proof {
        if let Some(b) = body_from(ts@, 0) {
            assert(out@ + b =~= b);
        }
    }
    while i < n
        invariant
            i <= n,
            n == ts.len(),
            body_from(ts@, 0) == joined(out@, body_from(ts@, i as int)),
        decreases n - i,
    {
        reveal(group_body);
        reveal(brace_body);
        let t = ts[i];
        let ghost done = out@;
        if is_operator(t) && i + 1 < n && ts[i + 1] == Token::OpenParen {
            match collect_until_balanced(ts, i + 2, Token::OpenParen, Token::CloseParen) {
                Err(e) => {
                    return Err(e);
                },
                Ok((inner, next)) => {
                    proof {
                        lemma_text_within(ts@, i + 2, next - 1);
                    }
                    match process_extglob(&inner, t) {
                        Err(e) => {
                            return Err(e);
                        },
                        Ok(g) => {
                            append(&mut out, &g);
                            proof {
                                if let Some(b) = body_from(ts@, next as int) {
                                    assert(done + (g@ + b) =~= out@ + b);
                                }
                            }
                            i = next;
                        },
                    }
                },
            }
        } else if t == Token::OpenBracket {
            match collect_until_balanced(ts, i + 1, Token::OpenBracket, Token::CloseBracket) {
                Err(e) => {
                    return Err(e);
                },
                Ok((inner, next)) => {
                    match process_character_class(&inner) {
                        Err(e) => {
                            return Err(e);
                        },
                        Ok(g) => {
                            append(&mut out, &g);
                            proof {
                                if let Some(b) = body_from(ts@, next as int) {
                                    assert(done + (g@ + b) =~= out@ + b);
                                }
                            }
                            i = next;
                        },
                    }
                },
            }
        } else if t == Token::OpenBrace {
            match collect_until_balanced(ts, i + 1, Token::OpenBrace, Token::CloseBrace) {
                Err(e) => {
                    return Err(e);
                },
                Ok((inner, next)) => {
                    proof {
                        lemma_text_within(ts@, i + 1, next - 1);
                    }
                    let text = text_of_tokens(&inner, 0, inner.len());
                    assert(inner@.subrange(0, inner.len() as int) =~= inner@);
                    match translate_braces(&text) {
                        Err(e) => {
                            return Err(e);
                        },
                        Ok(g) => {
                            out.push('(');
                            out.push('?');
                            out.push(':');
                            append(&mut out, &g);
                            out.push(')');
                            proof {
                                if let Some(b) = body_from(ts@, next as int) {
                                    assert(done + ((seq!['(', '?', ':'] + g@ + seq![')']) + b)
                                        =~= out@ + b);
                                }
                            }
                            i = next;
                        },
                    }
                },
            }
        } else {
            push_plain(&mut out, t);
            proof {
                if let Some(b) = body_from(ts@, i + 1) {
                    assert(done + (plain_token(t) + b) =~= out@ + b);
                }
            }
            i += 1;
        }
    }
    proof {
        assert(out@ + Seq::<char>::empty() =~= out@);
    }
    Ok(out)
}

fn translate_chars(p: &Vec<char>) -> (r: Result<Vec<char>, GlobError>)
    ensures
        reports(r, translation(p@)),
    decreases p.len(), 2nat, 0nat,
{
    if p.len() >= 3 && p[0] == 'r' && p[1] == 'e' && p[2] == ':' {
        let rest = slice(p, 3, p.len());
        assert(rest@ =~= p@.skip(3));
        return Ok(rest);
    }
    let ts = tokenize_chars(p);
    proof {
        lemma_round_trip(p@);
    }
    match translate_tokens(&ts) {
        Err(e) => Err(e),
        Ok(body) => {
            let mut out: Vec<char> = Vec::new();
            out.push('^');
            append(&mut out, &body);
            out.push('$');
            assert(out@ =~= seq!['^'] + body@ + seq!['$']);
            Ok(out)
        },
    }
}

/// Translates an extended glob pattern to the source of a regex that
/// matches whole strings. A pattern that starts with `re:` is a regex
/// source already and is handed back without the prefix.
pub fn micromatch_to_regex(pat: &str) -> (r: Result<String, GlobError>)
    ensures
        match translation(pat@) {
            Some(x) => r matches Ok(s) && s@ == x,
            None => r matches Err(GlobError::InvalidPattern(m)) && m@ == unbalanced_message(),
        },
{
    let chars = chars_of(pat);
    match translate_chars(&chars) {
        Ok(v) => Ok(text_of(&v)),
        Err(e) => Err(e),
    }
}

} // verus!
