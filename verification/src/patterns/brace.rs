//! Brace expansion: `{a,b}` alternatives and `{m..n}` integer ranges.

use crate::error::GlobError;
use crate::text::{append, chars_of, lines, slice, texts, texts_of};
use vstd::prelude::*;

verus! {

/// The most strings one expansion may produce.
pub const MAX_EXPANSIONS: usize = 1000;

/// The deepest level of recursion an expansion may reach.
pub const MAX_DEPTH: usize = 10;

/// The first `{` or `}` of `s` at or after `from`.
pub open spec fn first_brace(s: Seq<char>, from: int) -> Option<int>
    decreases s.len() - from,
{
    if from < 0 || from >= s.len() {
        None
    } else if s[from] == '{' || s[from] == '}' {
        Some(from)
    } else {
        first_brace(s, from + 1)
    }
}

/// The `}` at or after `from` that closes the outermost of `depth` open
/// groups.
pub open spec fn closing_brace(s: Seq<char>, from: int, depth: nat) -> Option<int>
    decreases s.len() - from,
{
    if from < 0 || from >= s.len() {
        None
    } else if s[from] == '{' {
        closing_brace(s, from + 1, depth + 1)
    } else if s[from] == '}' {
        if depth <= 1 {
            Some(from)
        } else {
            closing_brace(s, from + 1, (depth - 1) as nat)
        }
    } else {
        closing_brace(s, from + 1, depth)
    }
}

/// The first brace group of `s`: the positions of its `{` and of the `}`
/// that balances it. There is none where a `}` comes first or the group is
/// never closed.
pub open spec fn first_group(s: Seq<char>) -> Option<(int, int)> {
    match first_brace(s, 0) {
        Some(st) => if s[st] == '{' {
            match closing_brace(s, st + 1, 1) {
                Some(en) => Some((st, en)),
                None => None,
            }
        } else {
            None
        },
        None => None,
    }
}

/// The first `,` of `s` at or after `from` that lies outside every nested
/// group, `depth` groups being open at `from`.
pub open spec fn top_comma(s: Seq<char>, from: int, depth: nat) -> Option<int>
    decreases s.len() - from,
{
    if from < 0 || from >= s.len() {
        None
    } else if s[from] == ',' && depth == 0 {
        Some(from)
    } else if s[from] == '{' {
        top_comma(s, from + 1, depth + 1)
    } else if s[from] == '}' {
        top_comma(s, from + 1, if depth > 0 { (depth - 1) as nat } else { 0 })
    } else {
        top_comma(s, from + 1, depth)
    }
}

/// The alternatives of a group's content: its pieces between top-level
/// commas. Empty pieces count.
pub open spec fn alternatives(s: Seq<char>) -> Seq<Seq<char>>
    decreases s.len(),
{
    match top_comma(s, 0, 0) {
        Some(i) => {
            proof {
                lemma_top_comma(s, 0, 0);
            }
            seq![s.take(i)] + alternatives(s.skip(i + 1))
        },
        None => seq![s],
    }
}

/// The value of a decimal digit, if `c` is one.
pub open spec fn digit_value(c: char) -> Option<nat> {
    if c == '0' {
        Some(0)
    } else if c == '1' {
        Some(1)
    } else if c == '2' {
        Some(2)
    } else if c == '3' {
        Some(3)
    } else if c == '4' {
        Some(4)
    } else if c == '5' {
        Some(5)
    } else if c == '6' {
        Some(6)
    } else if c == '7' {
        Some(7)
    } else if c == '8' {
        Some(8)
    } else if c == '9' {
        Some(9)
    } else {
        None
    }
}

/// Whether `s` holds decimal digits only.
pub open spec fn all_digits(s: Seq<char>) -> bool {
    forall|i: int| 0 <= i < s.len() ==> (#[trigger] digit_value(s[i])) is Some
}

/// The number that the digits of `s` write in base ten.
pub open spec fn digits_value(s: Seq<char>) -> nat
    decreases s.len(),
{
    if s.len() == 0 {
        0
    } else {
        digits_value(s.drop_last()) * 10 + match digit_value(s.last()) {
            Some(d) => d,
            None => 0,
        }
    }
}

/// The 64-bit signed integer that `s` writes: an optional sign, then at
/// least one digit.
pub open spec fn parse_integer(s: Seq<char>) -> Option<int> {
    let signed = s.len() > 0 && (s[0] == '-' || s[0] == '+');
    let body = if signed { s.skip(1) } else { s };
    let magnitude = digits_value(body) as int;
    let value = if s.len() > 0 && s[0] == '-' { -magnitude } else { magnitude };
    if body.len() > 0 && all_digits(body) && i64::MIN <= value <= i64::MAX {
        Some(value)
    } else {
        None
    }
}

/// The first `.` of `s` at or after `from`.
pub open spec fn first_dot(s: Seq<char>, from: int) -> Option<int>
    decreases s.len() - from,
{
    if from < 0 || from >= s.len() {
        None
    } else if s[from] == '.' {
        Some(from)
    } else {
        first_dot(s, from + 1)
    }
}

/// The bounds of `s` where it has the form `A..B` with both parts integers.
pub open spec fn range_bounds(s: Seq<char>) -> Option<(int, int)> {
    match first_dot(s, 0) {
        Some(i) => if 0 <= i && i + 1 < s.len() && s[i + 1] == '.' {
            match (parse_integer(s.take(i)), parse_integer(s.skip(i + 2))) {
                (Some(a), Some(b)) => Some((a, b)),
                _ => None,
            }
        } else {
            None
        },
        None => None,
    }
}

/// The character that writes the digit `d`.
pub open spec fn digit_char(d: int) -> char {
    if d == 0 {
        '0'
    } else if d == 1 {
        '1'
    } else if d == 2 {
        '2'
    } else if d == 3 {
        '3'
    } else if d == 4 {
        '4'
    } else if d == 5 {
        '5'
    } else if d == 6 {
        '6'
    } else if d == 7 {
        '7'
    } else if d == 8 {
        '8'
    } else {
        '9'
    }
}

/// The digits of `n` in base ten, without leading zeros.
pub open spec fn natural_digits(n: nat) -> Seq<char>
    decreases n,
{
    if n < 10 {
        seq![digit_char(n as int)]
    } else {
        natural_digits(n / 10).push(digit_char((n % 10) as int))
    }
}

/// The integer `v` written in base ten, with `-` before a negative one.
pub open spec fn decimal(v: int) -> Seq<char> {
    if v < 0 {
        seq!['-'] + natural_digits((-v) as nat)
    } else {
        natural_digits(v as nat)
    }
}

/// The integers from `a` up to `b`, each written in base ten; none where
/// `b < a`.
pub open spec fn range_items(a: int, b: int) -> Seq<Seq<char>> {
    Seq::new(if b >= a { (b - a + 1) as nat } else { 0 }, |k: int| decimal(a + k))
}

/// Every `prefix + mid + suffix`, the middles in order and, for each, the
/// suffixes in order.
pub open spec fn product(prefix: Seq<char>, mids: Seq<Seq<char>>, sufs: Seq<Seq<char>>) -> Seq<
    Seq<char>,
>
    decreases mids.len(),
{
    if mids.len() == 0 {
        Seq::empty()
    } else {
        product(prefix, mids.drop_last(), sufs) + Seq::new(
            sufs.len(),
            |j: int| prefix + mids.last() + sufs[j],
        )
    }
}

/// What one alternative of a group stands for at recursion level `depth`:
/// the integers of a range, or else its own expansion.
pub open spec fn alternative_expansion(alt: Seq<char>, depth: nat) -> Result<
    Seq<Seq<char>>,
    GlobError,
>
    decreases MAX_DEPTH + 1 - depth, 1nat, 0nat,
{
    match range_bounds(alt) {
        Some((a, b)) => Ok(range_items(a, b)),
        None => expansion_at(alt, depth),
    }
}

/// The strings added for the alternatives `alts` of a group between
/// `prefix` and `rest`, after `acc`. Alternatives are taken in order. One
/// that stands for nothing adds nothing, and `rest` is then not looked at.
/// The first failure met ends the expansion, as does a total above
/// `MAX_EXPANSIONS`.
pub open spec fn group_expansion(
    prefix: Seq<char>,
    alts: Seq<Seq<char>>,
    rest: Seq<char>,
    depth: nat,
    acc: Seq<Seq<char>>,
) -> Result<Seq<Seq<char>>, GlobError>
    decreases MAX_DEPTH + 1 - depth, 2nat, alts.len(),
{
    if alts.len() == 0 {
        Ok(acc)
    } else {
        match alternative_expansion(alts[0], depth) {
            Err(e) => Err(e),
            Ok(mids) => if mids.len() == 0 {
                group_expansion(prefix, alts.skip(1), rest, depth, acc)
            } else {
                match expansion_at(rest, depth) {
                    Err(e) => Err(e),
                    Ok(sufs) => {
                        let grown = acc + product(prefix, mids, sufs);
                        if grown.len() > MAX_EXPANSIONS {
                            Err(GlobError::BraceExpansionCount)
                        } else {
                            group_expansion(prefix, alts.skip(1), rest, depth, grown)
                        }
                    },
                }
            },
        }
    }
}

/// The expansion of `s` at recursion level `depth`. A string without a
/// group stands for itself. Otherwise the first group is replaced by each
/// of its alternatives in turn, and what follows the group is expanded in
/// the same way, one level deeper.
pub open spec fn expansion_at(s: Seq<char>, depth: nat) -> Result<Seq<Seq<char>>, GlobError>
    decreases MAX_DEPTH + 1 - depth, 0nat, 0nat,
{
    if depth > MAX_DEPTH {
        Err(GlobError::BraceExpansionDepth)
    } else {
        match first_group(s) {
            None => Ok(seq![s]),
            Some((st, en)) => if depth + 1 > MAX_DEPTH {
                Err(GlobError::BraceExpansionDepth)
            } else {
                group_expansion(
                    s.take(st),
                    alternatives(s.subrange(st + 1, en)),
                    s.skip(en + 1),
                    depth + 1,
                    Seq::empty(),
                )
            },
        }
    }
}

/// The expansion of the pattern `s`.
pub open spec fn expansion(s: Seq<char>) -> Result<Seq<Seq<char>>, GlobError> {
    expansion_at(s, 0)
}

/// What an alternative stands for, as far as it has to be written out.
enum Middles {
    /// All of its strings.
    Listed(Vec<Vec<char>>),
    /// A range of more than `MAX_EXPANSIONS` integers.
    TooMany,
}

proof fn lemma_product_len(prefix: Seq<char>, mids: Seq<Seq<char>>, sufs: Seq<Seq<char>>)
    ensures
        product(prefix, mids, sufs).len() == mids.len() * sufs.len(),
    decreases mids.len(),
{
    if mids.len() > 0 {
        lemma_product_len(prefix, mids.drop_last(), sufs);
        assert((mids.len() - 1) * sufs.len() + sufs.len() == mids.len() * sufs.len())
            by (nonlinear_arith);
    } else {
        assert(0 * sufs.len() == 0) by (nonlinear_arith);
    }
}

proof fn lemma_digits_monotone(s: Seq<char>, k: int)
    requires
        0 <= k <= s.len(),
    ensures
        digits_value(s.take(k)) <= digits_value(s),
    decreases s.len() - k,
{
    if k < s.len() {
        lemma_digits_monotone(s, k + 1);
        assert(s.take(k + 1).drop_last() =~= s.take(k));
    } else {
        assert(s.take(k) =~= s);
    }
}

proof fn lemma_first_brace(s: Seq<char>, from: int)
    requires
        0 <= from,
    ensures
        match first_brace(s, from) {
            Some(i) => from <= i < s.len() && (s[i] == '{' || s[i] == '}') && forall|j: int|
                from <= j < i ==> s[j] != '{' && s[j] != '}',
            None => forall|j: int| from <= j < s.len() ==> s[j] != '{' && s[j] != '}',
        },
    decreases s.len() - from,
{
    if from < s.len() && !(s[from] == '{' || s[from] == '}') {
        lemma_first_brace(s, from + 1);
    }
}

proof fn lemma_closing_brace(s: Seq<char>, from: int, depth: nat)
    requires
        0 <= from,
    ensures
        closing_brace(s, from, depth) matches Some(i) ==> from <= i < s.len() && s[i] == '}',
    decreases s.len() - from,
{
    if from < s.len() {
        if s[from] == '{' {
            lemma_closing_brace(s, from + 1, depth + 1);
        } else if s[from] == '}' {
            if depth > 1 {
                lemma_closing_brace(s, from + 1, (depth - 1) as nat);
            }
        } else {
            lemma_closing_brace(s, from + 1, depth);
        }
    }
}

/// A top-level comma that is found lies at or after the place where the
/// search began.
pub proof fn lemma_top_comma(s: Seq<char>, from: int, depth: nat)
    requires
        0 <= from,
    ensures
        top_comma(s, from, depth) matches Some(i) ==> from <= i < s.len() && s[i] == ',',
    decreases s.len() - from,
{
    if from < s.len() {
        if s[from] == ',' && depth == 0 {
        } else if s[from] == '{' {
            lemma_top_comma(s, from + 1, depth + 1);
        } else if s[from] == '}' {
            lemma_top_comma(s, from + 1, if depth > 0 { (depth - 1) as nat } else { 0 });
        } else {
            lemma_top_comma(s, from + 1, depth);
        }
    }
}

/// A group found by `first_group` opens with `{` at its first position,
/// closes with `}` at its second, and no brace stands before it.
pub proof fn lemma_first_group_shape(s: Seq<char>)
    ensures
        first_group(s) matches Some((st, en)) ==> 0 <= st < en < s.len() && s[st] == '{' && s[en]
            == '}' && forall|j: int| 0 <= j < st ==> s[j] != '{' && s[j] != '}',
{
    lemma_first_brace(s, 0);
    if let Some(st) = first_brace(s, 0) {
        lemma_closing_brace(s, st + 1, 1);
    }
}

/// The number of groups that are open after the characters of `s` from
/// `from` up to, not including, `to`: each `{` opens one and each `}`
/// closes one.
pub open spec fn nesting(s: Seq<char>, from: int, to: int) -> int
    decreases to - from,
{
    if to <= from {
        0
    } else {
        nesting(s, from, to - 1) + if s[to - 1] == '{' {
            1int
        } else if s[to - 1] == '}' {
            -1int
        } else {
            0int
        }
    }
}

proof fn lemma_closing_balances(s: Seq<char>, start: int, from: int, depth: nat)
    requires
        0 <= start < from,
        depth >= 1,
        depth == nesting(s, start, from),
        closing_brace(s, from, depth) is Some,
    ensures
        nesting(s, start, closing_brace(s, from, depth)->0 + 1) == 0,
        forall|j: int|
            from <= j <= closing_brace(s, from, depth)->0 ==> nesting(s, start, j) >= 1,
    decreases s.len() - from,
{
    lemma_closing_brace(s, from, depth);
    let e = closing_brace(s, from, depth)->0;
    assert(nesting(s, start, from + 1) == nesting(s, start, from) + if s[from] == '{' {
        1int
    } else if s[from] == '}' {
        -1int
    } else {
        0int
    });
    if s[from] == '{' {
        lemma_closing_balances(s, start, from + 1, depth + 1);
    } else if s[from] == '}' {
        if depth > 1 {
            lemma_closing_balances(s, start, from + 1, (depth - 1) as nat);
        }
    } else {
        lemma_closing_balances(s, start, from + 1, depth);
    }
}

/// The first group ends where the groups opened since its `{` are all
/// closed again for the first time.
pub proof fn lemma_first_group_balances(s: Seq<char>)
    ensures
        first_group(s) matches Some((st, en)) ==> nesting(s, st, en + 1) == 0 && forall|j: int|
            st < j <= en ==> nesting(s, st, j) >= 1,
{
    lemma_first_brace(s, 0);
    if let Some((st, en)) = first_group(s) {
        assert(nesting(s, st, st + 1) == 1) by {
            assert(nesting(s, st, st) == 0);
        }
        lemma_closing_balances(s, st, st + 1, 1);
    }
}

proof fn lemma_group_bounded(
    prefix: Seq<char>,
    alts: Seq<Seq<char>>,
    rest: Seq<char>,
    depth: nat,
    acc: Seq<Seq<char>>,
)
    requires
        acc.len() <= MAX_EXPANSIONS,
    ensures
        group_expansion(prefix, alts, rest, depth, acc) matches Ok(list) ==> list.len()
            <= MAX_EXPANSIONS,
    decreases alts.len(),
{
    if alts.len() > 0 {
        if let Ok(mids) = alternative_expansion(alts[0], depth) {
            if mids.len() == 0 {
                lemma_group_bounded(prefix, alts.skip(1), rest, depth, acc);
            } else if let Ok(sufs) = expansion_at(rest, depth) {
                let grown = acc + product(prefix, mids, sufs);
                if grown.len() <= MAX_EXPANSIONS {
                    lemma_group_bounded(prefix, alts.skip(1), rest, depth, grown);
                }
            }
        }
    }
}

/// An expansion that succeeds holds at most `MAX_EXPANSIONS` strings.
pub proof fn lemma_expansion_bounded(s: Seq<char>, depth: nat)
    ensures
        expansion_at(s, depth) matches Ok(list) ==> list.len() <= MAX_EXPANSIONS,
{
    if depth <= MAX_DEPTH {
        if let Some((st, en)) = first_group(s) {
            if depth + 1 <= MAX_DEPTH {
                lemma_group_bounded(
                    s.take(st),
                    alternatives(s.subrange(st + 1, en)),
                    s.skip(en + 1),
                    depth + 1,
                    Seq::empty(),
                );
            }
        }
    }
}

proof fn lemma_group_failures(
    prefix: Seq<char>,
    alts: Seq<Seq<char>>,
    rest: Seq<char>,
    depth: nat,
    acc: Seq<Seq<char>>,
)
    ensures
        group_expansion(prefix, alts, rest, depth, acc) matches Err(e) ==> e
            is BraceExpansionDepth || e is BraceExpansionCount,
    decreases MAX_DEPTH + 1 - depth, 2nat, alts.len(),
{
    if alts.len() > 0 {
        match range_bounds(alts[0]) {
            Some(_) => {},
            None => {
                lemma_expansion_failures(alts[0], depth);
            },
        }
        if let Ok(mids) = alternative_expansion(alts[0], depth) {
            if mids.len() == 0 {
                lemma_group_failures(prefix, alts.skip(1), rest, depth, acc);
            } else {
                lemma_expansion_failures(rest, depth);
                if let Ok(sufs) = expansion_at(rest, depth) {
                    let grown = acc + product(prefix, mids, sufs);
                    if grown.len() <= MAX_EXPANSIONS {
                        lemma_group_failures(prefix, alts.skip(1), rest, depth, grown);
                    }
                }
            }
        }
    }
}

/// An expansion fails for its depth or for its count, and for nothing
/// else.
pub proof fn lemma_expansion_failures(s: Seq<char>, depth: nat)
    ensures
        expansion_at(s, depth) matches Err(e) ==> e is BraceExpansionDepth || e
            is BraceExpansionCount,
    decreases MAX_DEPTH + 1 - depth, 0nat, 0nat,
{
    if depth <= MAX_DEPTH {
        if let Some((st, en)) = first_group(s) {
            if depth + 1 <= MAX_DEPTH {
                lemma_group_failures(
                    s.take(st),
                    alternatives(s.subrange(st + 1, en)),
                    s.skip(en + 1),
                    depth + 1,
                    Seq::empty(),
                );
            }
        }
    }
}

/// Where the first alternative of a group stands for something and would
/// bring the total above `MAX_EXPANSIONS`, the expansion fails for its
/// count.
pub proof fn lemma_count_limit(
    prefix: Seq<char>,
    alts: Seq<Seq<char>>,
    rest: Seq<char>,
    depth: nat,
    acc: Seq<Seq<char>>,
)
    requires
        alts.len() > 0,
        alternative_expansion(alts[0], depth) is Ok,
        alternative_expansion(alts[0], depth)->Ok_0.len() > 0,
        expansion_at(rest, depth) is Ok,
        acc.len() + alternative_expansion(alts[0], depth)->Ok_0.len() * expansion_at(
            rest,
            depth,
        )->Ok_0.len() > MAX_EXPANSIONS,
    ensures
        group_expansion(prefix, alts, rest, depth, acc) == Err::<Seq<Seq<char>>, GlobError>(
            GlobError::BraceExpansionCount,
        ),
{
    let mids = alternative_expansion(alts[0], depth)->Ok_0;
    let sufs = expansion_at(rest, depth)->Ok_0;
    lemma_product_len(prefix, mids, sufs);
}

/// A pattern without braces expands to itself alone.
pub proof fn lemma_plain_expands_to_itself(p: Seq<char>)
    requires
        forall|i: int| 0 <= i < p.len() ==> p[i] != '{' && p[i] != '}',
    ensures
        expansion(p) == Ok::<Seq<Seq<char>>, GlobError>(seq![p]),
{
    lemma_first_brace(p, 0);
}

/// Beyond level `MAX_DEPTH` every expansion fails for its depth, and at
/// level `MAX_DEPTH` every string that holds a group does.
pub proof fn lemma_depth_limit(s: Seq<char>, depth: nat)
    requires
        depth > MAX_DEPTH || (depth == MAX_DEPTH && first_group(s) is Some),
    ensures
        expansion_at(s, depth) == Err::<Seq<Seq<char>>, GlobError>(GlobError::BraceExpansionDepth),
{
}

/// Whether `x` is one brace group from its first character to its last.
pub open spec fn is_group(x: Seq<char>) -> bool {
    x.len() >= 2 && x[0] == '{' && closing_brace(x, 1, 1) == Some(x.len() - 1)
}

/// `x` inside `k` further pairs of braces.
pub open spec fn nested(x: Seq<char>, k: nat) -> Seq<char>
    decreases k,
{
    if k == 0 {
        x
    } else {
        seq!['{'] + nested(x, (k - 1) as nat) + seq!['}']
    }
}

proof fn lemma_scan_raised(x: Seq<char>, i: int, dep: nat, w: Seq<char>, off: int, extra: nat)
    requires
        0 <= i,
        0 <= off,
        dep >= 1,
        extra >= 1,
        closing_brace(x, i, dep) is Some,
        forall|j: int|
            i <= j <= closing_brace(x, i, dep)->0 ==> 0 <= off + j < w.len() && w[off + j] == x[j],
    ensures
        closing_brace(w, off + i, dep + extra) == closing_brace(
            w,
            off + closing_brace(x, i, dep)->0 + 1,
            extra,
        ),
    decreases x.len() - i,
{
    lemma_closing_brace(x, i, dep);
    let e = closing_brace(x, i, dep)->0;
    assert(w[off + i] == x[i]);
    if x[i] == '{' {
        lemma_scan_raised(x, i + 1, dep + 1, w, off, extra);
    } else if x[i] == '}' {
        if dep > 1 {
            lemma_scan_raised(x, i + 1, (dep - 1) as nat, w, off, extra);
        }
    } else {
        lemma_scan_raised(x, i + 1, dep, w, off, extra);
    }
}

proof fn lemma_no_comma_inside(x: Seq<char>, i: int, dep: nat)
    requires
        0 <= i,
        dep >= 1,
        closing_brace(x, i, dep) is Some,
    ensures
        top_comma(x, i, dep) == top_comma(x, closing_brace(x, i, dep)->0 + 1, 0),
    decreases x.len() - i,
{
    lemma_closing_brace(x, i, dep);
    if x[i] == '{' {
        lemma_no_comma_inside(x, i + 1, dep + 1);
    } else if x[i] == '}' {
        if dep > 1 {
            lemma_no_comma_inside(x, i + 1, (dep - 1) as nat);
        }
    } else {
        lemma_no_comma_inside(x, i + 1, dep);
    }
}

proof fn lemma_first_dot(s: Seq<char>, from: int)
    requires
        0 <= from,
    ensures
        first_dot(s, from) matches Some(i) ==> from <= i < s.len() && s[i] == '.',
    decreases s.len() - from,
{
    if from < s.len() && s[from] != '.' {
        lemma_first_dot(s, from + 1);
    }
}

proof fn lemma_wrap_is_group(x: Seq<char>)
    requires
        is_group(x),
    ensures
        is_group(nested(x, 1)),
        first_group(nested(x, 1)) == Some((0int, x.len() as int + 1)),
        nested(x, 1).subrange(1, x.len() as int + 1) == x,
        nested(x, 1).take(0) == Seq::<char>::empty(),
        nested(x, 1).skip(x.len() as int + 2) == Seq::<char>::empty(),
{
    let w = nested(x, 1);
    let n = x.len() as int;
    reveal_with_fuel(nested, 2);
    assert(w =~= seq!['{'] + x + seq!['}']);
    assert(w.subrange(1, n + 1) =~= x);
    assert(w.take(0) =~= Seq::<char>::empty());
    assert(w.skip(n + 2) =~= Seq::<char>::empty());
    assert(w[1] == x[0]);
    assert(closing_brace(w, 1, 1) == closing_brace(w, 2, 2));
    lemma_scan_raised(x, 1, 1, w, 1, 1);
    assert(w[n + 1] == '}');
    assert(closing_brace(w, n + 1, 1) == Some(n + 1));
}

proof fn lemma_group_is_one_alternative(x: Seq<char>)
    requires
        is_group(x),
    ensures
        alternatives(x) == seq![x],
        range_bounds(x) is None,
{
    lemma_no_comma_inside(x, 1, 1);
    assert(top_comma(x, 0, 0) == top_comma(x, 1, 1));
    lemma_first_dot(x, 0);
    if let Some(i) = first_dot(x, 0) {
        let left = x.take(i);
        assert(left[0] == '{');
        assert(digit_value(left[0]) is None);
    }
}

/// A group that stands inside `k` further pairs of braces fails for its
/// depth at every level `depth` with `depth + k >= MAX_DEPTH`: from the
/// top, that is a group nested more than `MAX_DEPTH` deep.
pub proof fn lemma_nesting_too_deep(x: Seq<char>, k: nat, depth: nat)
    requires
        is_group(x),
        depth + k >= MAX_DEPTH,
    ensures
        is_group(nested(x, k)),
        expansion_at(nested(x, k), depth) == Err::<Seq<Seq<char>>, GlobError>(
            GlobError::BraceExpansionDepth,
        ),
    decreases k,
{
    if k == 0 {
        lemma_first_brace(x, 0);
    } else {
        let y = nested(x, (k - 1) as nat);
        lemma_nesting_too_deep(x, (k - 1) as nat, depth + 1);
        reveal_with_fuel(nested, 2);
        assert(nested(x, k) =~= nested(y, 1));
        lemma_wrap_is_group(y);
        lemma_group_is_one_alternative(y);
        if depth + 1 <= MAX_DEPTH {
            let alts = seq![y];
            assert(alts[0] == y);
            assert(alternative_expansion(y, depth + 1) == expansion_at(y, depth + 1));
        }
    }
}

/// Finds the first brace group of `s`.
pub fn find_brace(s: &Vec<char>) -> (r: Option<(usize, usize)>)
    ensures
        match r {
            Some((st, en)) => first_group(s@) == Some((st as int, en as int)) && st < en < s.len(),
            None => first_group(s@) is None,
        },
{
    let n = s.len();
    let mut i: usize = 0;
    while i < n && s[i] != '{' && s[i] != '}'
        invariant
            i <= n,
            n == s.len(),
            first_brace(s@, 0) == first_brace(s@, i as int),
        decreases n - i,
    {
        i += 1;
    }
    if i >= n || s[i] == '}' {
        return None;
    }
    let st = i;
    let mut depth: usize = 1;
    i = st + 1;
    while i < n
        invariant
            st < i <= n,
            n == s.len(),
            1 <= depth <= i - st,
            first_brace(s@, 0) == Some(st as int),
            s@[st as int] == '{',
            closing_brace(s@, st + 1, 1) == closing_brace(s@, i as int, depth as nat),
        decreases n - i,
    {
        if s[i] == '{' {
            depth += 1;
        } else if s[i] == '}' {
            if depth == 1 {
                return Some((st, i));
            }
            depth -= 1;
        }
        i += 1;
    }
    None
}

/// Splits a group's content at its top-level commas.
pub fn split_alternatives(s: &Vec<char>) -> (items: Vec<Vec<char>>)
    ensures
        lines(items@) == alternatives(s@),
        items.len() >= 1,
{
    let n = s.len();
    let mut items: Vec<Vec<char>> = Vec::new();
    let mut buf: Vec<char> = Vec::new();
    let mut begin: usize = 0;
    let mut depth: usize = 0;
    let mut i: usize = 0;
    proof {
        assert(s@.skip(0) =~= s@);
        assert(lines(items@) + alternatives(s@) =~= alternatives(s@));
    }
    while i < n
        invariant
            begin <= i <= n,
            n == s.len(),
            depth <= i - begin,
            buf@ == s@.subrange(begin as int, i as int),
            alternatives(s@) == lines(items@) + alternatives(s@.skip(begin as int)),
            top_comma(s@.skip(begin as int), 0, 0) == top_comma(
                s@.skip(begin as int),
                i - begin,
                depth as nat,
            ),
        decreases n - i,
    {
        let c = s[i];
        let ghost tail = s@.skip(begin as int);
        assert(tail[i - begin] == c);
        if c == ',' && depth == 0 {
            proof {
                assert(tail.take(i - begin) =~= buf@);
                assert(tail.skip(i - begin + 1) =~= s@.skip(i + 1));
                assert(lines(items@.push(buf)) =~= lines(items@) + seq![buf@]);
            }
            items.push(buf);
            buf = Vec::new();
            begin = i + 1;
        } else {
            if c == '{' {
                depth += 1;
            } else if c == '}' {
                if depth > 0 {
                    depth -= 1;
                }
            }
            buf.push(c);
        }
        i += 1;
    }
    proof {
        assert(s@.skip(begin as int) =~= buf@);
        assert(lines(items@.push(buf)) =~= lines(items@) + seq![buf@]);
    }
    items.push(buf);
    items
}

fn digit_of(c: char) -> (r: Option<u8>)
    ensures
        match r {
            Some(d) => digit_value(c) == Some(d as nat) && d < 10,
            None => digit_value(c) is None,
        },
{
    if c == '0' {
        Some(0)
    } else if c == '1' {
        Some(1)
    } else if c == '2' {
        Some(2)
    } else if c == '3' {
        Some(3)
    } else if c == '4' {
        Some(4)
    } else if c == '5' {
        Some(5)
    } else if c == '6' {
        Some(6)
    } else if c == '7' {
        Some(7)
    } else if c == '8' {
        Some(8)
    } else if c == '9' {
        Some(9)
    } else {
        None
    }
}

fn char_of_digit(d: u8) -> (c: char)
    requires
        d < 10,
    ensures
        c == digit_char(d as int),
{
    if d == 0 {
        '0'
    } else if d == 1 {
        '1'
    } else if d == 2 {
        '2'
    } else if d == 3 {
        '3'
    } else if d == 4 {
        '4'
    } else if d == 5 {
        '5'
    } else if d == 6 {
        '6'
    } else if d == 7 {
        '7'
    } else if d == 8 {
        '8'
    } else {
        '9'
    }
}

/// Reads a 64-bit signed integer written in base ten.
#[verifier::loop_isolation(false)]
pub fn parse_int(s: &Vec<char>) -> (r: Option<i64>)
    ensures
        match r {
            Some(v) => parse_integer(s@) == Some(v as int),
            None => parse_integer(s@) is None,
        },
{
    let n = s.len();
    if n == 0 {
        return None;
    }
    let negative = s[0] == '-';
    let start: usize = if s[0] == '-' || s[0] == '+' {
        1
    } else {
        0
    };
    if start >= n {
        return None;
    }
    let ghost body = s@.skip(start as int);
    proof {
        assert(s@.skip(0) =~= s@);
        assert(body.take(0) =~= Seq::<char>::empty());
    }
    let mut acc: u64 = 0;
    let mut i: usize = start;
    while i < n
        invariant
            start <= i <= n,
            n == s.len(),
            body == s@.skip(start as int),
            acc == digits_value(body.take(i - start)),
            acc <= 9223372036854775808,
            all_digits(body.take(i - start)),
        decreases n - i,
    {
        let ghost k = i - start;
        assert(body[k] == s@[i as int]);
        assert(body.take(k + 1).drop_last() =~= body.take(k));
        assert(body.take(k + 1).last() == body[k]);
        match digit_of(s[i]) {
            None => {
                assert(digit_value(body[k]) is None);
                return None;
            },
            Some(d) => {
                let next: u128 = acc as u128 * 10 + d as u128;
                assert(next == digits_value(body.take(k + 1)));
                if next > 9223372036854775808 {
                    proof {
                        lemma_digits_monotone(body, k + 1);
                    }
                    return None;
                }
                acc = next as u64;
            },
        }
        i += 1;
    }
    assert(body.take(n - start) =~= body);
    if negative {
        if acc == 9223372036854775808 {
            Some(i64::MIN)
        } else {
            Some(-(acc as i64))
        }
    } else if acc > 9223372036854775807 {
        None
    } else {
        Some(acc as i64)
    }
}

/// Reads a range `A..B` of two integers.
pub fn parse_range(s: &Vec<char>) -> (r: Option<(i64, i64)>)
    ensures
        match r {
            Some((a, b)) => range_bounds(s@) == Some((a as int, b as int)),
            None => range_bounds(s@) is None,
        },
{
    let n = s.len();
    let mut i: usize = 0;
    while i < n && s[i] != '.'
        invariant
            i <= n,
            n == s.len(),
            first_dot(s@, 0) == first_dot(s@, i as int),
        decreases n - i,
    {
        i += 1;
    }
    if i >= n || i + 1 >= n || s[i + 1] != '.' {
        return None;
    }
    let left = slice(s, 0, i);
    let right = slice(s, i + 2, n);
    assert(s@.take(i as int) =~= left@);
    assert(s@.skip(i + 2) =~= right@);
    match parse_int(&left) {
        None => None,
        Some(a) => match parse_int(&right) {
            None => None,
            Some(b) => Some((a, b)),
        },
    }
}

fn push_natural(out: &mut Vec<char>, n: u64)
    ensures
        final(out)@ == old(out)@ + natural_digits(n as nat),
    decreases n,
{
    if n >= 10 {
        push_natural(out, n / 10);
    }
    out.push(char_of_digit((n % 10) as u8));
}

/// Writes `v` in base ten.
pub fn render_decimal(v: i64) -> (out: Vec<char>)
    ensures
        out@ == decimal(v as int),
{
    let mut out: Vec<char> = Vec::new();
    if v < 0 {
        out.push('-');
        let magnitude: u64 = if v == i64::MIN {
            9223372036854775808
        } else {
            (-v) as u64
        };
        push_natural(&mut out, magnitude);
    } else {
        push_natural(&mut out, v as u64);
    }
    out
}

fn range_strings(a: i64, b: i64) -> (out: Vec<Vec<char>>)
    requires
        a <= b,
        b - a < MAX_EXPANSIONS,
    ensures
        lines(out@) == range_items(a as int, b as int),
        out.len() == b - a + 1,
{
    let mut out: Vec<Vec<char>> = Vec::new();
    let mut v: i64 = a;
    loop
        invariant_except_break
            a <= v <= b,
            out.len() == v - a,
            forall|k: int| 0 <= k < out.len() ==> (#[trigger] out@[k])@ == decimal(a + k),
        ensures
            out.len() == b - a + 1,
            forall|k: int| 0 <= k < out.len() ==> (#[trigger] out@[k])@ == decimal(a + k),
        decreases b - v,
    {
        let item = render_decimal(v);
        out.push(item);
        if v == b {
            break;
        }
        v += 1;
    }
    assert(lines(out@) =~= range_items(a as int, b as int));
    out
}

fn append_product(
    out: &mut Vec<Vec<char>>,
    prefix: &Vec<char>,
    mids: &Vec<Vec<char>>,
    sufs: &Vec<Vec<char>>,
)
    ensures
        lines(final(out)@) == lines(old(out)@) + product(prefix@, lines(mids@), lines(sufs@)),
{
    let ghost start = lines(out@);
    let ghost m = lines(mids@);
    let ghost f = lines(sufs@);
    let mut i: usize = 0;
    while i < mids.len()
        invariant
            i <= mids.len(),
            m == lines(mids@),
            f == lines(sufs@),
            lines(out@) == start + product(prefix@, m.take(i as int), f),
        decreases mids.len() - i,
    {
        let ghost done = lines(out@);
        let mut j: usize = 0;
        while j < sufs.len()
            invariant
                i < mids.len(),
                j <= sufs.len(),
                m == lines(mids@),
                f == lines(sufs@),
                lines(out@) == done + Seq::new(j as nat, |t: int| prefix@ + m[i as int] + f[t]),
            decreases sufs.len() - j,
        {
            let mut item = slice(prefix, 0, prefix.len());
            append(&mut item, &mids[i]);
            append(&mut item, &sufs[j]);
            proof {
                assert(prefix@.subrange(0, prefix.len() as int) =~= prefix@);
                assert(item@ == prefix@ + m[i as int] + f[j as int]);
                assert(lines(out@.push(item)) =~= lines(out@).push(item@));
                assert(lines(out@).push(item@) =~= done + Seq::new(
                    (j + 1) as nat,
                    |t: int| prefix@ + m[i as int] + f[t],
                ));
            }
            out.push(item);
            j += 1;
        }
        proof {
            let grown = m.take(i + 1);
            assert(grown.drop_last() =~= m.take(i as int));
            assert(grown.last() == m[i as int]);
            assert(Seq::new(
                sufs.len() as nat,
                |t: int| prefix@ + m[i as int] + f[t],
            ) =~= Seq::new(f.len(), |t: int| prefix@ + grown.last() + f[t]));
            assert(lines(out@) =~= start + product(prefix@, grown, f));
        }
        i += 1;
    }
    assert(m.take(mids.len() as int) =~= m);
}

/// What the alternative `alt` stands for at recursion level `depth`.
fn expand_alternative(alt: &Vec<char>, depth: usize) -> (r: Result<Middles, GlobError>)
    requires
        depth <= MAX_DEPTH,
    ensures
        match r {
            Ok(Middles::Listed(list)) => alternative_expansion(alt@, depth as nat) == Ok::<
                Seq<Seq<char>>,
                GlobError,
            >(lines(list@)) && list.len() <= MAX_EXPANSIONS,
            Ok(Middles::TooMany) => alternative_expansion(alt@, depth as nat) matches Ok(list)
                && list.len() > MAX_EXPANSIONS,
            Err(e) => alternative_expansion(alt@, depth as nat) == Err::<
                Seq<Seq<char>>,
                GlobError,
            >(e),
        },
    decreases MAX_DEPTH + 1 - depth, 1nat,
{
    match parse_range(alt) {
        Some((a, b)) => {
            if b < a {
                let none: Vec<Vec<char>> = Vec::new();
                assert(lines(none@) =~= range_items(a as int, b as int));
                Ok(Middles::Listed(none))
            } else if b as i128 - a as i128 >= MAX_EXPANSIONS as i128 {
                Ok(Middles::TooMany)
            } else {
                Ok(Middles::Listed(range_strings(a, b)))
            }
        },
        None => match expand_inner(alt, depth) {
            Ok(list) => Ok(Middles::Listed(list)),
            Err(e) => Err(e),
        },
    }
}

/// Expands `input` at recursion level `depth`.
#[verifier::loop_isolation(false)]
pub fn expand_inner(input: &Vec<char>, depth: usize) -> (r: Result<Vec<Vec<char>>, GlobError>)
    ensures
        match r {
            Ok(list) => expansion_at(input@, depth as nat) == Ok::<Seq<Seq<char>>, GlobError>(
                lines(list@),
            ) && list.len() <= MAX_EXPANSIONS,
            Err(e) => expansion_at(input@, depth as nat) == Err::<Seq<Seq<char>>, GlobError>(e),
        },
    decreases MAX_DEPTH + 1 - depth, 0nat,
{
    if depth > MAX_DEPTH {
        return Err(GlobError::BraceExpansionDepth);
    }
    match find_brace(input) {
        None => {
            let mut out: Vec<Vec<char>> = Vec::new();
            let whole = slice(input, 0, input.len());
            assert(whole@ =~= input@);
            out.push(whole);
            assert(lines(out@) =~= seq![input@]);
            Ok(out)
        },
        Some((st, en)) => {
            if depth + 1 > MAX_DEPTH {
                return Err(GlobError::BraceExpansionDepth);
            }
            let prefix = slice(input, 0, st);
            let inner = slice(input, st + 1, en);
            let rest = slice(input, en + 1, input.len());
            let items = split_alternatives(&inner);
            let ghost alts = lines(items@);
            let ghost level = (depth + 1) as nat;
            proof {
                assert(prefix@ =~= input@.take(st as int));
                assert(rest@ =~= input@.skip(en + 1));
                assert(alts.skip(0) =~= alts);
            }
            let mut out: Vec<Vec<char>> = Vec::new();
            assert(lines(out@) =~= Seq::<Seq<char>>::empty());
            let mut k: usize = 0;
            while k < items.len()
                invariant
                    k <= items.len(),
                    depth + 1 <= MAX_DEPTH,
                    level == depth + 1,
                    alts == lines(items@),
                    out.len() <= MAX_EXPANSIONS,
                    group_expansion(prefix@, alts, rest@, level, Seq::empty()) == group_expansion(
                        prefix@,
                        alts.skip(k as int),
                        rest@,
                        level,
                        lines(out@),
                    ),
                decreases items.len() - k,
            {
                let ghost remaining = alts.skip(k as int);
                let ghost acc = lines(out@);
                proof {
                    assert(remaining[0] == items@[k as int]@);
                    assert(remaining.skip(1) =~= alts.skip(k + 1));
                }
                match expand_alternative(&items[k], depth + 1) {
                    Err(e) => {
                        return Err(e);
                    },
                    Ok(Middles::TooMany) => {
                        match expand_inner(&rest, depth + 1) {
                            Err(e) => {
                                return Err(e);
                            },
                            Ok(sufs) => {
                                proof {
                                    let mids = alternative_expansion(remaining[0], level)->Ok_0;
                                    lemma_product_len(prefix@, mids, lines(sufs@));
                                    if sufs.len() > 0 {
                                        assert(mids.len() * sufs.len() >= mids.len())
                                            by (nonlinear_arith)
                                            requires
                                                sufs.len() >= 1,
                                                mids.len() >= 0,
                                        ;
                                    } else {
                                        assert(mids.len() * sufs.len() == 0) by (nonlinear_arith)
                                            requires
                                                sufs.len() == 0,
                                        ;
                                        assert(acc + product(prefix@, mids, lines(sufs@)) =~= acc);
                                    }
                                }
                                if sufs.len() > 0 {
                                    return Err(GlobError::BraceExpansionCount);
                                }
                            },
                        }
                    },
                    Ok(Middles::Listed(mids)) => {
                        if mids.len() > 0 {
                            match expand_inner(&rest, depth + 1) {
                                Err(e) => {
                                    return Err(e);
                                },
                                Ok(sufs) => {
                                    proof {
                                        lemma_product_len(prefix@, lines(mids@), lines(sufs@));
                                        assert(mids.len() * sufs.len() <= 1000 * 1000)
                                            by (nonlinear_arith)
                                            requires
                                                mids.len() <= 1000,
                                                sufs.len() <= 1000,
                                        ;
                                    }
                                    let total = out.len() + mids.len() * sufs.len();
                                    if total > MAX_EXPANSIONS {
                                        return Err(GlobError::BraceExpansionCount);
                                    }
                                    append_product(&mut out, &prefix, &mids, &sufs);
                                },
                            }
                        }
                    },
                }
                k += 1;
            }
            assert(alts.skip(items.len() as int).len() == 0);
            Ok(out)
        },
    }
}

/// Expands the brace groups of `input`: `{a,b}` alternatives and `{m..n}`
/// integer ranges, nested or in a row.
pub fn expand(input: &str) -> (r: Result<Vec<String>, GlobError>)
    ensures
        match r {
            Ok(list) => expansion(input@) == Ok::<Seq<Seq<char>>, GlobError>(texts(list@))
                && list.len() <= MAX_EXPANSIONS,
            Err(e) => expansion(input@) == Err::<Seq<Seq<char>>, GlobError>(e),
        },
{
    let chars = chars_of(input);
    match expand_inner(&chars, 0) {
        Ok(rows) => {
            let list = texts_of(&rows);
            assert(list.len() == texts(list@).len());
            Ok(list)
        },
        Err(e) => Err(e),
    }
}

} // verus!
