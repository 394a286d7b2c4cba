//! Access-policy expression generator.
//!
//! A generated policy is a right-nested boolean expression over `n` attribute
//! literals that are named by a caller-supplied prefix and a decimal position,
//! joined throughout by one connective.  For one literal the policy is the bare
//! quoted literal; for more, each literal after the first opens one nesting
//! level and all closing parentheses sit at the very end of the string.

use vstd::prelude::*;
use vstd::string::StringExecFns;

verus! {

/// The boolean connective joining all literals of a generated access policy.
#[derive(Clone, Copy, PartialEq, Eq, Structural, Debug)]
pub enum Connective {
    And,
    Or,
}

/// The rendering of a connective between two literals, spaces included.
pub open spec fn connective_token(c: Connective) -> Seq<char> {
    match c {
        Connective::And => " and "@,
        Connective::Or => " or "@,
    }
}

/// The infix token for a connective, as it appears between two literals.
pub fn connective_str(c: Connective) -> (r: &'static str)
    ensures
        r@ == connective_token(c),
{
    match c {
        Connective::And => " and ",
        Connective::Or => " or ",
    }
}

/// The character for a decimal digit value.
pub open spec fn digit_char(d: nat) -> char {
    if d == 0 {
        '0'
    } else if d == 1 {
        '1'
    } else if d == 2 {
        '2'
    } else if d == 3 {
        '3'
    } else if d == 4 {
        '4'
    } else if d == 5 {
        '5'
    } else if d == 6 {
        '6'
    } else if d == 7 {
        '7'
    } else if d == 8 {
        '8'
    } else {
        '9'
    }
}

/// The decimal rendering of a natural number, most significant digit first.
pub open spec fn dec_str(n: nat) -> Seq<char>
    decreases n,
{
    if n < 10 {
        seq![digit_char(n)]
    } else {
        dec_str(n / 10).push(digit_char(n % 10))
    }
}

/// The i-th attribute literal: the naming prefix, the index in decimal,
/// double quotes around the whole name.
pub open spec fn quoted_literal(prefix: Seq<char>, i: nat) -> Seq<char> {
    seq!['"'] + prefix + dec_str(i) + seq!['"']
}

/// The right-nested policy over the literals i .. n.
pub open spec fn policy_tail(prefix: Seq<char>, c: Connective, i: nat, n: nat) -> Seq<char>
    recommends
        i < n,
    decreases n - i,
{
    if n <= i + 1 {
        quoted_literal(prefix, i)
    } else {
        seq!['('] + quoted_literal(prefix, i) + connective_token(c) + policy_tail(
            prefix,
            c,
            i + 1,
            n,
        ) + seq![')']
    }
}

/// The policy string over n literals named prefix0 .. prefix(n-1).
pub open spec fn policy_string(prefix: Seq<char>, c: Connective, n: nat) -> Seq<char>
    recommends
        1 <= n,
{
    policy_tail(prefix, c, 0, n)
}

fn digit_str(d: u64) -> (r: &'static str)
    requires
        d < 10,
    ensures
        r@ == seq![digit_char(d as nat)],
{
    let r: &'static str = if d == 0 {
        "0"
    } else if d == 1 {
        "1"
    } else if d == 2 {
        "2"
    } else if d == 3 {
        "3"
    } else if d == 4 {
        "4"
    } else if d == 5 {
        "5"
    } else if d == 6 {
        "6"
    } else if d == 7 {
        "7"
    } else if d == 8 {
        "8"
    } else {
        "9"
    };
    proof {
        reveal_strlit("0");
        reveal_strlit("1");
        reveal_strlit("2");
        reveal_strlit("3");
        reveal_strlit("4");
        reveal_strlit("5");
        reveal_strlit("6");
        reveal_strlit("7");
        reveal_strlit("8");
        reveal_strlit("9");
        assert(r@ =~= seq![digit_char(d as nat)]);
    }
    r
}

/// Renders a number in decimal.
pub fn decimal(n: u64) -> (r: String)
    ensures
        r@ == dec_str(n as nat),
    decreases n,
{
    if n < 10 {
        digit_str(n).to_owned()
    } else {
        assert(n / 10 < n) by (nonlinear_arith)
            requires
                n >= 10,
        ;
        let mut s = decimal(n / 10);
        s.append(digit_str(n % 10));
        proof {
            assert(s@ =~= dec_str(n as nat));
        }
        s
    }
}

/// The i-th attribute literal as a string.
pub fn literal(prefix: &str, i: u64) -> (r: String)
    ensures
        r@ == quoted_literal(prefix@, i as nat),
{
    let mut s = String::from_str("\"");
    s.append(prefix);
    let num = decimal(i);
    s.append(num.as_str());
    s.append("\"");
    proof {
        reveal_strlit("\"");
        assert("\""@ =~= seq!['"']);
        assert(s@ =~= quoted_literal(prefix@, i as nat));
    }
    s
}

fn generate_tail(prefix: &str, c: Connective, i: u64, n: u64) -> (r: String)
    requires
        i < n,
    ensures
        r@ == policy_tail(prefix@, c, i as nat, n as nat),
    decreases n - i,
{
    if n - i == 1 {
        literal(prefix, i)
    } else {
        let mut s = String::from_str("(");
        let lit = literal(prefix, i);
        s.append(lit.as_str());
        s.append(connective_str(c));
        let rest = generate_tail(prefix, c, i + 1, n);
        s.append(rest.as_str());
        s.append(")");
        proof {
            reveal_strlit("(");
            reveal_strlit(")");
            assert("("@ =~= seq!['(']);
            assert(")"@ =~= seq![')']);
            assert(s@ =~= policy_tail(prefix@, c, i as nat, n as nat));
        }
        s
    }
}

/// Generates the access-policy string over `n` literals named by `prefix` and
/// a decimal position, joined throughout by the connective `c`.
pub fn generate(n: u64, c: Connective, prefix: &str) -> (r: String)
    requires
        1 <= n,
    ensures
        r@ == policy_string(prefix@, c, n as nat),
{
    generate_tail(prefix, c, 0, n)
}

/// The number of occurrences of a character in a string.
pub open spec fn count_char(s: Seq<char>, ch: char) -> nat
    decreases s.len(),
{
    if s.len() == 0 {
        0
    } else {
        count_char(s.drop_last(), ch) + (if s.last() == ch {
            1nat
        } else {
            0nat
        })
    }
}

pub proof fn lemma_count_char_concat(a: Seq<char>, b: Seq<char>, ch: char)
    ensures
        count_char(a + b, ch) == count_char(a, ch) + count_char(b, ch),
    decreases b.len(),
{
    if b.len() == 0 {
        assert(a + b =~= a);
    } else {
        assert((a + b).drop_last() =~= a + b.drop_last());
        lemma_count_char_concat(a, b.drop_last(), ch);
    }
}

pub proof fn lemma_count_char_single(x: char, ch: char)
    ensures
        count_char(seq![x], ch) == (if x == ch {
            1nat
        } else {
            0nat
        }),
{
    assert(seq![x].drop_last() =~= Seq::<char>::empty());
    assert(count_char(Seq::<char>::empty(), ch) == 0);
    assert(seq![x].last() == x);
}

pub proof fn lemma_count_char_absent(s: Seq<char>, ch: char)
    requires
        forall|k: int| 0 <= k < s.len() ==> s[k] != ch,
    ensures
        count_char(s, ch) == 0,
    decreases s.len(),
{
    if s.len() > 0 {
        lemma_count_char_absent(s.drop_last(), ch);
    }
}

/// A decimal digit character.
pub open spec fn is_digit(ch: char) -> bool {
    ch == '0' || ch == '1' || ch == '2' || ch == '3' || ch == '4' || ch == '5' || ch == '6' || ch
        == '7' || ch == '8' || ch == '9'
}

pub proof fn lemma_dec_str_digits(n: nat)
    ensures
        forall|k: int| 0 <= k < dec_str(n).len() ==> is_digit(#[trigger] dec_str(n)[k]),
    decreases n,
{
    if n < 10 {
        assert forall|k: int| 0 <= k < dec_str(n).len() implies is_digit(
            #[trigger] dec_str(n)[k],
        ) by {
            assert(dec_str(n)[k] == digit_char(n));
            assert(is_digit(digit_char(n)));
        }
    } else {
        lemma_dec_str_digits(n / 10);
        assert forall|k: int| 0 <= k < dec_str(n).len() implies is_digit(
            #[trigger] dec_str(n)[k],
        ) by {
            if k < dec_str(n).len() - 1 {
                assert(dec_str(n)[k] == dec_str(n / 10)[k]);
                assert(is_digit(dec_str(n / 10)[k]));
            } else {
                assert(dec_str(n)[k] == digit_char(n % 10));
            }
        }
    }
}

/// The character that identifies a connective's token: it occurs exactly once
/// in the token and nowhere else in a generated policy whose naming prefix
/// avoids it.
pub open spec fn connective_mark(c: Connective) -> char {
    match c {
        Connective::And => 'd',
        Connective::Or => 'o',
    }
}

/// A naming prefix that stays clear of the delimiters counted by the shape
/// laws: quotes, parentheses, spaces, and the connective's marker character.
pub open spec fn neutral_prefix(prefix: Seq<char>, c: Connective) -> bool {
    forall|k: int|
        0 <= k < prefix.len() ==> (#[trigger] prefix[k]) != '"' && prefix[k] != '(' && prefix[k]
            != ')' && prefix[k] != ' ' && prefix[k] != connective_mark(c)
}

proof fn lemma_token_count(c: Connective, ch: char)
    requires
        ch == '"' || ch == '(' || ch == ')' || ch == connective_mark(c),
    ensures
        count_char(connective_token(c), ch) == (if ch == connective_mark(c) {
            1nat
        } else {
            0nat
        }),
{
    reveal_strlit(" and ");
    reveal_strlit(" or ");
    match c {
        Connective::And => {
            assert(connective_token(c) =~= seq![' '] + seq!['a'] + seq!['n'] + seq!['d'] + seq![
                ' ',
            ]);
            lemma_count_char_concat(seq![' '] + seq!['a'] + seq!['n'] + seq!['d'], seq![' '], ch);
            lemma_count_char_concat(seq![' '] + seq!['a'] + seq!['n'], seq!['d'], ch);
            lemma_count_char_concat(seq![' '] + seq!['a'], seq!['n'], ch);
            lemma_count_char_concat(seq![' '], seq!['a'], ch);
            lemma_count_char_single(' ', ch);
            lemma_count_char_single('a', ch);
            lemma_count_char_single('n', ch);
            lemma_count_char_single('d', ch);
        },
        Connective::Or => {
            assert(connective_token(c) =~= seq![' '] + seq!['o'] + seq!['r'] + seq![' ']);
            lemma_count_char_concat(seq![' '] + seq!['o'] + seq!['r'], seq![' '], ch);
            lemma_count_char_concat(seq![' '] + seq!['o'], seq!['r'], ch);
            lemma_count_char_concat(seq![' '], seq!['o'], ch);
            lemma_count_char_single(' ', ch);
            lemma_count_char_single('o', ch);
            lemma_count_char_single('r', ch);
        },
    }
}

proof fn lemma_literal_count(prefix: Seq<char>, i: nat, ch: char)
    requires
        forall|k: int| 0 <= k < prefix.len() ==> prefix[k] != ch,
        !is_digit(ch),
    ensures
        count_char(quoted_literal(prefix, i), ch) == (if ch == '"' {
            2nat
        } else {
            0nat
        }),
{
    lemma_dec_str_digits(i);
    let q = seq!['"'];
    let body = prefix + dec_str(i);
    assert(quoted_literal(prefix, i) =~= q + body + q);
    lemma_count_char_concat(q + body, q, ch);
    lemma_count_char_concat(q, body, ch);
    lemma_count_char_concat(prefix, dec_str(i), ch);
    lemma_count_char_absent(prefix, ch);
    assert forall|k: int| 0 <= k < dec_str(i).len() implies dec_str(i)[k] != ch by {
        assert(is_digit(dec_str(i)[k]));
    }
    lemma_count_char_absent(dec_str(i), ch);
    lemma_count_char_single('"', ch);
}

proof fn lemma_tail_step_count(prefix: Seq<char>, c: Connective, i: nat, n: nat, ch: char)
    requires
        i + 1 < n,
    ensures
        count_char(policy_tail(prefix, c, i, n), ch) == count_char(seq!['('], ch) + count_char(
            quoted_literal(prefix, i),
            ch,
        ) + count_char(connective_token(c), ch) + count_char(policy_tail(prefix, c, i + 1, n), ch)
            + count_char(seq![')'], ch),
{
    let op = seq!['('];
    let cl = seq![')'];
    let lit = quoted_literal(prefix, i);
    let tok = connective_token(c);
    let rest = policy_tail(prefix, c, i + 1, n);
    assert(policy_tail(prefix, c, i, n) == op + lit + tok + rest + cl);
    lemma_count_char_concat(op + lit + tok + rest, cl, ch);
    lemma_count_char_concat(op + lit + tok, rest, ch);
    lemma_count_char_concat(op + lit, tok, ch);
    lemma_count_char_concat(op, lit, ch);
}

proof fn lemma_policy_tail_counts(prefix: Seq<char>, c: Connective, i: nat, n: nat)
    requires
        i < n,
        neutral_prefix(prefix, c),
    ensures
        count_char(policy_tail(prefix, c, i, n), '"') == 2 * (n - i),
        count_char(policy_tail(prefix, c, i, n), connective_mark(c)) == n - i - 1,
        count_char(policy_tail(prefix, c, i, n), '(') == n - i - 1,
        count_char(policy_tail(prefix, c, i, n), ')') == n - i - 1,
    decreases n - i,
{
    assert(!is_digit('"') && !is_digit('(') && !is_digit(')') && !is_digit(connective_mark(c)));
    lemma_literal_count(prefix, i, '"');
    lemma_literal_count(prefix, i, '(');
    lemma_literal_count(prefix, i, ')');
    lemma_literal_count(prefix, i, connective_mark(c));
    if n <= i + 1 {
    } else {
        lemma_policy_tail_counts(prefix, c, i + 1, n);
        lemma_token_count(c, '"');
        lemma_token_count(c, '(');
        lemma_token_count(c, ')');
        lemma_token_count(c, connective_mark(c));
        lemma_tail_step_count(prefix, c, i, n, '"');
        lemma_tail_step_count(prefix, c, i, n, '(');
        lemma_tail_step_count(prefix, c, i, n, ')');
        lemma_tail_step_count(prefix, c, i, n, connective_mark(c));
        lemma_count_char_single('(', '"');
        lemma_count_char_single(')', '"');
        lemma_count_char_single('(', '(');
        lemma_count_char_single(')', '(');
        lemma_count_char_single('(', ')');
        lemma_count_char_single(')', ')');
        lemma_count_char_single('(', connective_mark(c));
        lemma_count_char_single(')', connective_mark(c));
    }
}

/// A run of closing parentheses.
pub open spec fn closes(k: nat) -> Seq<char> {
    Seq::new(k, |j: int| ')')
}

proof fn lemma_policy_tail_trailing(prefix: Seq<char>, c: Connective, i: nat, n: nat)
    requires
        i < n,
    ensures
        policy_tail(prefix, c, i, n).len() > n - i - 1,
        policy_tail(prefix, c, i, n).skip(
            policy_tail(prefix, c, i, n).len() - (n - i - 1),
        ) =~= closes((n - i - 1) as nat),
    decreases n - i,
{
    if n <= i + 1 {
        assert(policy_tail(prefix, c, i, n).len() >= 2);
    } else {
        lemma_policy_tail_trailing(prefix, c, i + 1, n);
        let s = policy_tail(prefix, c, i, n);
        let rest = policy_tail(prefix, c, i + 1, n);
        let k = (n - i - 2) as nat;
        assert(s.skip(s.len() - (k + 1)) =~= rest.skip(rest.len() - k) + seq![')']);
        assert(closes(k) + seq![')'] =~= closes((k + 1) as nat));
    }
}

/// LAW: shape of a generated policy.  For every n >= 1 and connective c, the
/// policy over n literals contains exactly 2n quote characters (each of the n
/// literals is quoted and quotes appear nowhere else), exactly n-1 occurrences
/// of the connective's marker character (one per connective token), exactly
/// n-1 opening and n-1 closing parentheses, and the n-1 closing parentheses
/// are the very end of the string — provided the naming prefix stays clear of
/// those delimiter characters.
pub proof fn lemma_generate_shape(prefix: Seq<char>, c: Connective, n: nat)
    requires
        1 <= n,
        neutral_prefix(prefix, c),
    ensures
        count_char(policy_string(prefix, c, n), '"') == 2 * n,
        count_char(policy_string(prefix, c, n), connective_mark(c)) == n - 1,
        count_char(policy_string(prefix, c, n), '(') == n - 1,
        count_char(policy_string(prefix, c, n), ')') == n - 1,
        policy_string(prefix, c, n).len() > n - 1,
        policy_string(prefix, c, n).skip(policy_string(prefix, c, n).len() - (n - 1)) == closes(
            (n - 1) as nat,
        ),
{
    lemma_policy_tail_counts(prefix, c, 0, n);
    lemma_policy_tail_trailing(prefix, c, 0, n);
}

/// LAW: the policy over a single literal is that quoted literal alone, for
/// either connective — it does not depend on the connective.
pub proof fn lemma_generate_single(prefix: Seq<char>)
    ensures
        policy_string(prefix, Connective::And, 1) == quoted_literal(prefix, 0),
        policy_string(prefix, Connective::Or, 1) == quoted_literal(prefix, 0),
{
}

/// The number of positions at which `t` occurs in `s`; overlapping
/// occurrences all count.
pub open spec fn count_occurrences(s: Seq<char>, t: Seq<char>) -> nat
    decreases s.len(),
{
    if t.len() == 0 || s.len() < t.len() {
        0
    } else {
        (if s.take(t.len() as int) == t {
            1nat
        } else {
            0nat
        }) + count_occurrences(s.drop_first(), t)
    }
}

/// A string none of whose characters opens `t` holds no occurrence of it.
proof fn lemma_count_occ_none(x: Seq<char>, t: Seq<char>)
    requires
        t.len() > 0,
        forall|p: int| 0 <= p < x.len() ==> x[p] != t[0],
    ensures
        count_occurrences(x, t) == 0,
    decreases x.len(),
{
    if x.len() >= t.len() {
        assert(x.take(t.len() as int) != t) by {
            if x.take(t.len() as int) == t {
                assert(x.take(t.len() as int)[0] == x[0]);
            }
        }
        assert forall|p: int| 0 <= p < x.drop_first().len() implies x.drop_first()[p] != t[0] by {
            assert(x.drop_first()[p] == x[p + 1]);
        }
        lemma_count_occ_none(x.drop_first(), t);
    }
}

/// Occurrences in a concatenation split at the seam when no occurrence
/// straddles it.
proof fn lemma_count_occ_concat(a: Seq<char>, b: Seq<char>, t: Seq<char>)
    requires
        t.len() > 0,
        forall|p: int|
            a.len() - t.len() < p < a.len() && 0 <= p && p + t.len() <= a.len() + b.len()
                ==> #[trigger] (a + b).subrange(p, p + t.len() as int) != t,
    ensures
        count_occurrences(a + b, t) == count_occurrences(a, t) + count_occurrences(b, t),
    decreases a.len(),
{
    let s = a + b;
    let tlen = t.len() as int;
    if a.len() == 0 {
        assert(s =~= b);
    } else if s.len() < t.len() {
    } else {
        assert(s.drop_first() =~= a.drop_first() + b);
        assert forall|p: int|
            a.drop_first().len() - t.len() < p < a.drop_first().len() && 0 <= p && p + t.len()
                <= a.drop_first().len() + b.len() implies #[trigger] (a.drop_first() + b).subrange(
            p,
            p + t.len() as int,
        ) != t by {
            assert((a.drop_first() + b).subrange(p, p + tlen) =~= s.subrange(p + 1, p + 1 + tlen));
        }
        lemma_count_occ_concat(a.drop_first(), b, t);
        if a.len() >= t.len() {
            assert(s.take(tlen) =~= a.take(tlen));
        } else {
            assert((a + b).subrange(0, 0 + t.len() as int) != t);
            assert(s.take(tlen) == (a + b).subrange(0, 0 + t.len() as int));
        }
    }
}

/// A token occurs exactly once in itself.
proof fn lemma_count_occ_self(t: Seq<char>)
    requires
        t.len() > 0,
    ensures
        count_occurrences(t, t) == 1,
{
    reveal_with_fuel(count_occurrences, 2);
    assert(t.take(t.len() as int) =~= t);
    assert(t.drop_first().len() < t.len());
}

/// Every space of such a string either opens a full connective token or is a
/// token's trailing space, followed by an opening parenthesis or a quote.
spec fn spaces_open_tokens(s: Seq<char>, c: Connective) -> bool {
    forall|p: int|
        0 <= p < s.len() && (#[trigger] s[p]) == ' ' ==> ((p + connective_token(c).len() <= s.len()
            && s.subrange(p, p + connective_token(c).len() as int) == connective_token(c)) || (p + 1
            < s.len() && (s[p + 1] == '(' || s[p + 1] == '"')))
}

proof fn lemma_token_chars(c: Connective)
    ensures
        4 <= connective_token(c).len() <= 5,
        connective_token(c)[0] == ' ',
        connective_token(c)[connective_token(c).len() - 1] == ' ',
        forall|q: int|
            1 <= q < connective_token(c).len() - 1 ==> (#[trigger] connective_token(c)[q]) != ' ',
        connective_token(c)[1] == 'o' || connective_token(c)[1] == 'a',
{
    reveal_strlit(" and ");
    reveal_strlit(" or ");
    match c {
        Connective::And => {
            assert(connective_token(c) =~= seq![' ', 'a', 'n', 'd', ' ']);
        },
        Connective::Or => {
            assert(connective_token(c) =~= seq![' ', 'o', 'r', ' ']);
        },
    }
}

proof fn lemma_literal_no_space(prefix: Seq<char>, c: Connective, i: nat)
    requires
        neutral_prefix(prefix, c),
    ensures
        forall|p: int| 0 <= p < quoted_literal(prefix, i).len() ==> (#[trigger] quoted_literal(
            prefix,
            i,
        )[p]) != ' ',
        quoted_literal(prefix, i)[0] == '"',
{
    lemma_dec_str_digits(i);
    let lit = quoted_literal(prefix, i);
    assert forall|p: int| 0 <= p < lit.len() implies (#[trigger] lit[p]) != ' ' by {
        if 1 <= p < 1 + prefix.len() {
            assert(lit[p] == prefix[p - 1]);
        } else if 1 + prefix.len() <= p < lit.len() - 1 {
            assert(lit[p] == dec_str(i)[p - 1 - prefix.len()]);
            assert(is_digit(dec_str(i)[p - 1 - prefix.len()]));
        } else {
            assert(lit[p] == '"');
        }
    }
}

proof fn lemma_policy_tail_occurrences(prefix: Seq<char>, c: Connective, i: nat, n: nat)
    requires
        i < n,
        neutral_prefix(prefix, c),
    ensures
        count_occurrences(policy_tail(prefix, c, i, n), connective_token(c)) == n - i - 1,
        spaces_open_tokens(policy_tail(prefix, c, i, n), c),
        policy_tail(prefix, c, i, n)[0] == '(' || policy_tail(prefix, c, i, n)[0] == '"',
        policy_tail(prefix, c, i, n).len() > 0,
    decreases n - i,
{
    lemma_token_chars(c);
    lemma_literal_no_space(prefix, c, i);
    let tok = connective_token(c);
    let tlen = tok.len() as int;
    let lit = quoted_literal(prefix, i);
    let s = policy_tail(prefix, c, i, n);
    if n <= i + 1 {
        assert(s == lit);
        lemma_count_occ_none(lit, tok);
    } else {
        lemma_policy_tail_occurrences(prefix, c, i + 1, n);
        let rest = policy_tail(prefix, c, i + 1, n);
        let al = seq!['('] + lit;
        let bl = tok + (rest + seq![')']);
        assert(s =~= al + bl);
        assert forall|p: int| 0 <= p < al.len() implies (#[trigger] al[p]) != ' ' by {
            if p >= 1 {
                assert(al[p] == lit[p - 1]);
            }
        }
        // no occurrence begins inside the head, nor straddles into the token
        lemma_count_occ_none(al, tok);
        assert forall|p: int|
            al.len() - tok.len() < p < al.len() && 0 <= p && p + tok.len() <= al.len()
                + bl.len() implies #[trigger] (al + bl).subrange(p, p + tok.len() as int)
            != tok by {
            assert((al + bl).subrange(p, p + tlen)[0] == al[p]);
        }
        lemma_count_occ_concat(al, bl, tok);
        // the token occurs once at the head of the remainder and never
        // straddles its seam: the window there opens with the token's
        // trailing space, but what follows is a parenthesis or a quote
        lemma_count_occ_self(tok);
        assert forall|p: int|
            tok.len() - tok.len() < p < tok.len() && 0 <= p && p + tok.len() <= tok.len() + (rest
                + seq![')']).len() implies #[trigger] (tok + (rest + seq![')'])).subrange(
            p,
            p + tok.len() as int,
        ) != tok by {
            let w = (tok + (rest + seq![')'])).subrange(p, p + tlen);
            assert(w[0] == tok[p]);
            if p < tlen - 1 {
                assert(tok[p] != ' ');
            } else {
                assert(w[1] == (rest + seq![')'])[0]);
                assert((rest + seq![')'])[0] == rest[0]);
            }
        }
        lemma_count_occ_concat(tok, rest + seq![')'], tok);
        // a window that starts in the tail's final characters has no room for
        // a full token, and a trailing space there is followed by the wrong
        // character
        assert forall|p: int|
            rest.len() - tok.len() < p < rest.len() && 0 <= p && p + tok.len() <= rest.len()
                + 1 implies #[trigger] (rest + seq![')']).subrange(p, p + tok.len() as int)
            != tok by {
            let w = (rest + seq![')']).subrange(p, p + tlen);
            assert(w[0] == rest[p]);
            if rest[p] == ' ' {
                assert(p + 1 < rest.len() && (rest[p + 1] == '(' || rest[p + 1] == '"'));
                assert(w[1] == rest[p + 1]);
            }
        }
        lemma_count_occ_concat(rest, seq![')'], tok);
        assert(count_occurrences(seq![')'], tok) == 0);
        assert(count_occurrences(s, tok) == n - i - 1);
        // classify the spaces of the whole string
        let o1 = al.len() as int;
        let o2 = o1 + tlen;
        assert forall|p: int|
            0 <= p < s.len() && (#[trigger] s[p]) == ' ' implies ((p + tok.len() <= s.len()
            && s.subrange(p, p + tlen) == tok) || (p + 1 < s.len() && (s[p + 1] == '(' || s[p + 1]
            == '"'))) by {
            if p < o1 {
                assert(s[p] == al[p]);
            } else if p < o2 {
                assert(s[p] == tok[p - o1]);
                if p == o1 {
                    assert(s.subrange(p, p + tlen) =~= tok);
                } else if p == o2 - 1 {
                    assert(s[p + 1] == rest[0]);
                } else {
                    assert(tok[p - o1] != ' ');
                }
            } else if p < o2 + rest.len() {
                let q = p - o2;
                assert(s[p] == rest[q]);
                if q + tok.len() <= rest.len() && rest.subrange(q, q + tlen) == tok {
                    assert(s.subrange(p, p + tlen) =~= rest.subrange(q, q + tlen));
                } else {
                    assert(q + 1 < rest.len() && (rest[q + 1] == '(' || rest[q + 1] == '"'));
                    assert(s[p + 1] == rest[q + 1]);
                }
            } else {
                assert(s[p] == seq![')'][p - o2 - rest.len()]);
            }
        }
    }
}

/// LAW: the connective token — " and " or " or ", spaces included — occurs in
/// a generated policy over n literals at exactly n-1 positions, provided the
/// naming prefix stays clear of the delimiter characters.
pub proof fn lemma_generate_token_occurrences(prefix: Seq<char>, c: Connective, n: nat)
    requires
        1 <= n,
        neutral_prefix(prefix, c),
    ensures
        count_occurrences(policy_string(prefix, c, n), connective_token(c)) == n - 1,
{
    lemma_policy_tail_occurrences(prefix, c, 0, n);
}

} // verus!
