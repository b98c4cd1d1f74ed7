//! Policies written as JSON objects: `{"ATT": "name"}` for an attribute,
//! `{"NOT": {"ATT": "name"}}` for its absence, and `{"AND": [left, right]}`,
//! `{"OR": [left, right]}` for the gates. Attribute names run up to the next
//! double quote; escapes are not interpreted.

use vstd::prelude::*;
use vstd::string::*;
use crate::policy::{Policy, leaf_labels, leaf_tags, holds, pruned, pruned_tags, has_negation};

verus! {

/// A token of the policy text.
pub enum Token {
    Open,
    Close,
    OpenList,
    CloseList,
    Colon,
    Comma,
    Text(String),
}

/// A token as the specifications see it.
pub enum Tok {
    Open,
    Close,
    OpenList,
    CloseList,
    Colon,
    Comma,
    Text(Seq<char>),
}

pub open spec fn tok_of(t: Token) -> Tok {
    match t {
        Token::Open => Tok::Open,
        Token::Close => Tok::Close,
        Token::OpenList => Tok::OpenList,
        Token::CloseList => Tok::CloseList,
        Token::Colon => Tok::Colon,
        Token::Comma => Tok::Comma,
        Token::Text(s) => Tok::Text(s@),
    }
}

pub open spec fn toks(v: Seq<Token>) -> Seq<Tok> {
    v.map_values(|t: Token| tok_of(t))
}

pub open spec fn is_space(c: char) -> bool {
    c == ' ' || c == '\n' || c == '\t' || c == '\r'
}

/// The token that a punctuation character stands for.
pub open spec fn punct(c: char) -> Option<Tok> {
    if c == '{' {
        Some(Tok::Open)
    } else if c == '}' {
        Some(Tok::Close)
    } else if c == '[' {
        Some(Tok::OpenList)
    } else if c == ']' {
        Some(Tok::CloseList)
    } else if c == ':' {
        Some(Tok::Colon)
    } else if c == ',' {
        Some(Tok::Comma)
    } else {
        None
    }
}

/// The position of the first double quote at or after `i`, or the length of
/// the text where there is none.
pub open spec fn quote_at_or_after(s: Seq<char>, i: int) -> int
    decreases s.len() - i,
{
    if i >= s.len() {
        s.len() as int
    } else if s[i] == '"' {
        i
    } else {
        quote_at_or_after(s, i + 1)
    }
}

pub open spec fn prepend(t: Tok, rest: Option<Seq<Tok>>) -> Option<Seq<Tok>> {
    match rest {
        Some(r) => Some(seq![t] + r),
        None => None,
    }
}

/// The tokens of the text from position `i` on: whitespace between tokens is
/// skipped, a quoted name is one token, any other character fails.
pub open spec fn lex_from(s: Seq<char>, i: int) -> Option<Seq<Tok>>
    decreases s.len() - i, 1int,
{
    if i < 0 || i >= s.len() {
        Some(Seq::empty())
    } else if is_space(s[i]) {
        lex_from(s, i + 1)
    } else if punct(s[i]) is Some {
        prepend(punct(s[i])->0, lex_from(s, i + 1))
    } else if s[i] == '"' {
        let k = quote_at_or_after(s, i + 1);
        if i < k < s.len() {
            prepend(Tok::Text(s.subrange(i + 1, k)), lex_from(s, k + 1))
        } else {
            None
        }
    } else {
        None
    }
}

pub proof fn lemma_quote_bounds(s: Seq<char>, i: int)
    requires
        0 <= i <= s.len(),
    ensures
        i <= quote_at_or_after(s, i) <= s.len(),
        quote_at_or_after(s, i) < s.len() ==> s[quote_at_or_after(s, i)] == '"',
        forall|j: int| i <= j < quote_at_or_after(s, i) ==> s[j] != '"',
    decreases s.len() - i,
{
    if i < s.len() && s[i] != '"' {
        lemma_quote_bounds(s, i + 1);
    }
}

pub open spec fn word_att() -> Seq<char> {
    seq!['A', 'T', 'T']
}

pub open spec fn word_not() -> Seq<char> {
    seq!['N', 'O', 'T']
}

pub open spec fn word_and() -> Seq<char> {
    seq!['A', 'N', 'D']
}

pub open spec fn word_or() -> Seq<char> {
    seq!['O', 'R']
}

/// The tokens of a policy's JSON text.
pub open spec fn policy_tokens(p: Policy) -> Seq<Tok>
    decreases p,
{
    match p {
        Policy::Leaf(a) => seq![Tok::Open, Tok::Text(word_att()), Tok::Colon, Tok::Text(a@), Tok::Close],
        Policy::Not(a) => seq![
            Tok::Open,
            Tok::Text(word_not()),
            Tok::Colon,
            Tok::Open,
            Tok::Text(word_att()),
            Tok::Colon,
            Tok::Text(a@),
            Tok::Close,
            Tok::Close,
        ],
        Policy::And(l, r) => seq![Tok::Open, Tok::Text(word_and()), Tok::Colon, Tok::OpenList]
            + policy_tokens(*l) + seq![Tok::Comma] + policy_tokens(*r) + seq![
            Tok::CloseList,
            Tok::Close,
        ],
        Policy::Or(l, r) => seq![Tok::Open, Tok::Text(word_or()), Tok::Colon, Tok::OpenList]
            + policy_tokens(*l) + seq![Tok::Comma] + policy_tokens(*r) + seq![
            Tok::CloseList,
            Tok::Close,
        ],
    }
}

fn is_space_char(c: char) -> (r: bool)
    ensures
        r == is_space(c),
{
    c == ' ' || c == '\n' || c == '\t' || c == '\r'
}

fn punct_token(c: char) -> (r: Option<Token>)
    ensures
        r is Some <==> punct(c) is Some,
        r is Some ==> tok_of(r->0) == punct(c)->0,
{
    if c == '{' {
        Some(Token::Open)
    } else if c == '}' {
        Some(Token::Close)
    } else if c == '[' {
        Some(Token::OpenList)
    } else if c == ']' {
        Some(Token::CloseList)
    } else if c == ':' {
        Some(Token::Colon)
    } else if c == ',' {
        Some(Token::Comma)
    } else {
        None
    }
}

/// Splits the policy text into tokens.
pub fn tokenize(s: &str) -> (r: Option<Vec<Token>>)
    ensures
        r is Some <==> lex_from(s@, 0) is Some,
        r is Some ==> lex_from(s@, 0) == Some(toks(r->0@)),
{
    let n = s.unicode_len();
    let mut out: Vec<Token> = Vec::new();
    let mut i: usize = 0;
    while i < n
        invariant
            n == s@.len(),
            i <= n,
            lex_from(s@, 0) == (match lex_from(s@, i as int) {
                Some(rest) => Some(toks(out@) + rest),
                None => None::<Seq<Tok>>,
            }),
        decreases n - i,
    {
        let c = s.get_char(i);
        let ghost before = out@;
        if is_space_char(c) {
            i += 1;
        } else if let Some(t) = punct_token(c) {
            out.push(t);
            proof {
                assert(toks(out@) =~= toks(before) + seq![tok_of(t)]);
                match lex_from(s@, i + 1) {
                    Some(rest) => {
                        assert(toks(before) + (seq![tok_of(t)] + rest) =~= toks(out@) + rest);
                    },
                    None => {},
                }
            }
            i += 1;
        } else if c == '"' {
            let start = i + 1;
            let mut k: usize = start;
            while k < n && s.get_char(k) != '"'
                invariant
                    n == s@.len(),
                    start <= k <= n,
                    forall|j: int| start <= j < k ==> s@[j] != '"',
                decreases n - k,
            {
                k += 1;
            }
            proof {
                lemma_quote_bounds(s@, start as int);
                lemma_quote_position(s@, start as int, k as int);
            }
            if k >= n {
                return None;
            }
            let name = String::from_str(s.substring_char(start, k));
            let t = Token::Text(name);
            out.push(t);
            proof {
                assert(toks(out@) =~= toks(before) + seq![tok_of(t)]);
                match lex_from(s@, k + 1) {
                    Some(rest) => {
                        assert(toks(before) + (seq![tok_of(t)] + rest) =~= toks(out@) + rest);
                    },
                    None => {},
                }
            }
            i = k + 1;
        } else {
            return None;
        }
    }
    proof {
        assert(toks(out@) + Seq::<Tok>::empty() =~= toks(out@));
    }
    Some(out)
}

proof fn lemma_quote_position(s: Seq<char>, i: int, k: int)
    requires
        0 <= i <= k <= s.len(),
        forall|j: int| i <= j < k ==> s[j] != '"',
        k < s.len() ==> s[k] == '"',
    ensures
        quote_at_or_after(s, i) == k,
    decreases k - i,
{
    if i < k {
        lemma_quote_position(s, i + 1, k);
    }
}

/// Whether `q` is the policy that the text spells.
pub open spec fn spells(text: Seq<char>, q: Policy) -> bool {
    lex_from(text, 0) == Some(policy_tokens(q))
}

/// Whether the tokens from position `i` on start with `q`.
pub open spec fn prefix_at(ts: Seq<Tok>, i: int, q: Seq<Tok>) -> bool {
    0 <= i && i + q.len() <= ts.len() && ts.subrange(i, i + q.len()) == q
}

/// Whether the text is exactly `w`.
fn is_word(s: &String, w: &str) -> (r: bool)
    ensures
        r == (s@ == w@),
{
    let n = s.as_str().unicode_len();
    if n != w.unicode_len() {
        return false;
    }
    let mut i: usize = 0;
    while i < n
        invariant
            n == s@.len(),
            n == w@.len(),
            i <= n,
            forall|j: int| 0 <= j < i ==> s@[j] == w@[j],
        decreases n - i,
    {
        if s.as_str().get_char(i) != w.get_char(i) {
            return false;
        }
        i += 1;
    }
    assert(s@ =~= w@);
    true
}

/// Which keyword a token is: ATT gives one, NOT two, AND three and OR four;
/// any other token gives zero.
fn keyword(t: &Token) -> (r: u8)
    ensures
        r == 1 <==> tok_of(*t) == Tok::Text(word_att()),
        r == 2 <==> tok_of(*t) == Tok::Text(word_not()),
        r == 3 <==> tok_of(*t) == Tok::Text(word_and()),
        r == 4 <==> tok_of(*t) == Tok::Text(word_or()),
{
    proof {
        reveal_strlit("ATT");
        reveal_strlit("NOT");
        reveal_strlit("AND");
        reveal_strlit("OR");
        lemma_words_differ();
        assert("ATT"@ =~= word_att());
        assert("NOT"@ =~= word_not());
        assert("AND"@ =~= word_and());
        assert("OR"@ =~= word_or());
    }
    match t {
        Token::Text(s) => {
            if is_word(s, "ATT") {
                1
            } else if is_word(s, "NOT") {
                2
            } else if is_word(s, "AND") {
                3
            } else if is_word(s, "OR") {
                4
            } else {
                0
            }
        },
        _ => 0,
    }
}

fn is_open(t: &Token) -> (r: bool)
    ensures
        r == (tok_of(*t) == Tok::Open),
{
    match t {
        Token::Open => true,
        _ => false,
    }
}

fn is_close(t: &Token) -> (r: bool)
    ensures
        r == (tok_of(*t) == Tok::Close),
{
    match t {
        Token::Close => true,
        _ => false,
    }
}

fn is_open_list(t: &Token) -> (r: bool)
    ensures
        r == (tok_of(*t) == Tok::OpenList),
{
    match t {
        Token::OpenList => true,
        _ => false,
    }
}

fn is_close_list(t: &Token) -> (r: bool)
    ensures
        r == (tok_of(*t) == Tok::CloseList),
{
    match t {
        Token::CloseList => true,
        _ => false,
    }
}

fn is_colon(t: &Token) -> (r: bool)
    ensures
        r == (tok_of(*t) == Tok::Colon),
{
    match t {
        Token::Colon => true,
        _ => false,
    }
}

fn is_comma(t: &Token) -> (r: bool)
    ensures
        r == (tok_of(*t) == Tok::Comma),
{
    match t {
        Token::Comma => true,
        _ => false,
    }
}

/// The name of a text token.
fn text_of(t: &Token) -> (r: Option<String>)
    ensures
        r is Some <==> tok_of(*t) is Text,
        r is Some ==> tok_of(*t) == Tok::Text(r->0@),
{
    match t {
        Token::Text(s) => Some(s.clone()),
        _ => None,
    }
}

/// The token at a position, seen as the specifications see it.
proof fn lemma_tok_at(t: Seq<Token>, i: int)
    requires
        0 <= i < t.len(),
    ensures
        toks(t)[i] == tok_of(t[i]),
        toks(t).len() == t.len(),
{
}

/// A policy's tokens, read at position `i`, fix the token at `i + k`.
proof fn lemma_prefix_index(ts: Seq<Tok>, i: int, q: Seq<Tok>, k: int)
    requires
        prefix_at(ts, i, q),
        0 <= k < q.len(),
    ensures
        ts[i + k] == q[k],
{
    assert(ts.subrange(i, i + q.len())[k] == ts[i + k]);
}

/// Whether `r` is what a parser owes at position `i`: where it found a
/// policy, the tokens it read are that policy's; and wherever a policy's
/// tokens start at `i`, it found one with the same tokens, and ends after them.
pub open spec fn parsed_at(ts: Seq<Tok>, i: int, r: Option<(Policy, usize)>) -> bool {
    &&& r is Some ==> i < (r->0).1 <= ts.len() && ts.subrange(i, (r->0).1 as int) == policy_tokens(
        (r->0).0,
    )
    &&& forall|p: Policy|
        prefix_at(ts, i, #[trigger] policy_tokens(p)) ==> r is Some && (r->0).1 == i
            + policy_tokens(p).len() && policy_tokens((r->0).0) == policy_tokens(p)
}

/// Parses `{"ATT": "name"}` at position `i`, whose first three tokens are
/// known.
fn parse_leaf(t: &Vec<Token>, i: usize) -> (r: Option<(Policy, usize)>)
    requires
        i + 3 <= t@.len(),
        toks(t@)[i as int] == Tok::Open,
        toks(t@)[i + 1] == Tok::Text(word_att()),
        toks(t@)[i + 2] == Tok::Colon,
    ensures
        parsed_at(toks(t@), i as int, r),
{
    let ghost ts = toks(t@);
    assert(ts.len() == t@.len());
    if t.len() - i >= 5 && is_close(&t[i + 4]) {
        if let Some(name) = text_of(&t[i + 3]) {
            let p = Policy::Leaf(name);
            proof {
                lemma_tok_at(t@, i + 3);
                lemma_tok_at(t@, i + 4);
                assert(ts.subrange(i as int, i + 5) =~= policy_tokens(p));
                assert forall|q: Policy| prefix_at(ts, i as int, #[trigger] policy_tokens(q)) implies i
                    + 5 == i + policy_tokens(q).len() && policy_tokens(q) == policy_tokens(p) by {
                    lemma_prefix_index(ts, i as int, policy_tokens(q), 1);
                    lemma_words_differ();
                    lemma_prefix_index(ts, i as int, policy_tokens(q), 3);
                }
            }
            return Some((p, i + 5));
        }
    }
    proof {
        assert forall|q: Policy| !prefix_at(ts, i as int, #[trigger] policy_tokens(q)) by {
            if prefix_at(ts, i as int, policy_tokens(q)) {
                lemma_prefix_index(ts, i as int, policy_tokens(q), 1);
                lemma_words_differ();
                lemma_prefix_index(ts, i as int, policy_tokens(q), 3);
                lemma_prefix_index(ts, i as int, policy_tokens(q), 4);
                lemma_tok_at(t@, i + 3);
                lemma_tok_at(t@, i + 4);
            }
        }
    }
    None
}

/// Parses `{"NOT": {"ATT": "name"}}` at position `i`, whose first three
/// tokens are known.
fn parse_negation(t: &Vec<Token>, i: usize) -> (r: Option<(Policy, usize)>)
    requires
        i + 3 <= t@.len(),
        toks(t@)[i as int] == Tok::Open,
        toks(t@)[i + 1] == Tok::Text(word_not()),
        toks(t@)[i + 2] == Tok::Colon,
    ensures
        parsed_at(toks(t@), i as int, r),
{
    let ghost ts = toks(t@);
    assert(ts.len() == t@.len());
    if t.len() - i >= 9 && is_open(&t[i + 3]) && keyword(&t[i + 4]) == 1 && is_colon(&t[i + 5])
        && is_close(&t[i + 7]) && is_close(&t[i + 8]) {
        if let Some(name) = text_of(&t[i + 6]) {
            let p = Policy::Not(name);
            proof {
                lemma_tok_at(t@, i + 3);
                lemma_tok_at(t@, i + 4);
                lemma_tok_at(t@, i + 5);
                lemma_tok_at(t@, i + 6);
                lemma_tok_at(t@, i + 7);
                lemma_tok_at(t@, i + 8);
                assert(ts.subrange(i as int, i + 9) =~= policy_tokens(p));
                assert forall|q: Policy| prefix_at(ts, i as int, #[trigger] policy_tokens(q)) implies i
                    + 9 == i + policy_tokens(q).len() && policy_tokens(q) == policy_tokens(p) by {
                    lemma_prefix_index(ts, i as int, policy_tokens(q), 1);
                    lemma_words_differ();
                    lemma_prefix_index(ts, i as int, policy_tokens(q), 6);
                }
            }
            return Some((p, i + 9));
        }
    }
    proof {
        assert forall|q: Policy| !prefix_at(ts, i as int, #[trigger] policy_tokens(q)) by {
            if prefix_at(ts, i as int, policy_tokens(q)) {
                lemma_prefix_index(ts, i as int, policy_tokens(q), 1);
                lemma_words_differ();
                assert(q is Not);
                lemma_prefix_index(ts, i as int, policy_tokens(q), 3);
                lemma_prefix_index(ts, i as int, policy_tokens(q), 4);
                lemma_prefix_index(ts, i as int, policy_tokens(q), 5);
                lemma_prefix_index(ts, i as int, policy_tokens(q), 6);
                lemma_prefix_index(ts, i as int, policy_tokens(q), 7);
                lemma_prefix_index(ts, i as int, policy_tokens(q), 8);
                lemma_tok_at(t@, i + 3);
                lemma_tok_at(t@, i + 4);
                lemma_tok_at(t@, i + 5);
                lemma_tok_at(t@, i + 6);
                lemma_tok_at(t@, i + 7);
                lemma_tok_at(t@, i + 8);
            }
        }
    }
    None
}

/// The four keywords differ from each other.
proof fn lemma_words_differ()
    ensures
        word_att() != word_not(),
        word_att() != word_and(),
        word_att() != word_or(),
        word_not() != word_and(),
        word_not() != word_or(),
        word_and() != word_or(),
{
    assert(word_att()[0] != word_not()[0]);
    assert(word_att()[1] != word_and()[1]);
    assert(word_att().len() != word_or().len());
    assert(word_not()[0] != word_and()[0]);
    assert(word_not().len() != word_or().len());
    assert(word_and().len() != word_or().len());
}

/// Parses `{"AND": [left, right]}` or `{"OR": [left, right]}` at position
/// `i`, whose first three tokens are known.
#[verifier::rlimit(60)]
fn parse_gate(t: &Vec<Token>, i: usize, conjunction: bool) -> (r: Option<(Policy, usize)>)
    requires
        i + 3 <= t@.len(),
        toks(t@)[i as int] == Tok::Open,
        toks(t@)[i + 1] == Tok::Text(if conjunction { word_and() } else { word_or() }),
        toks(t@)[i + 2] == Tok::Colon,
    ensures
        parsed_at(toks(t@), i as int, r),
    decreases t@.len() - i, 0int,
{
    let ghost ts = toks(t@);
    assert(ts.len() == t@.len());
    proof {
        lemma_words_differ();
    }
    if t.len() - i > 4 && is_open_list(&t[i + 3]) {
        proof {
            lemma_tok_at(t@, i + 3);
        }
        if let Some((left, j)) = parse_at(t, i + 4) {
            if j < t.len() && is_comma(&t[j]) {
                proof {
                    lemma_tok_at(t@, j as int);
                }
                if let Some((right, k)) = parse_at(t, j + 1) {
                    if t.len() - k >= 2 && is_close_list(&t[k]) && is_close(&t[k + 1]) {
                        let p = if conjunction {
                            Policy::And(Box::new(left), Box::new(right))
                        } else {
                            Policy::Or(Box::new(left), Box::new(right))
                        };
                        proof {
                            lemma_tok_at(t@, k as int);
                            lemma_tok_at(t@, k + 1);
                            let head = ts.subrange(i as int, i + 4);
                            assert(head =~= seq![ts[i as int], ts[i + 1], ts[i + 2], ts[i + 3]]);
                            assert(ts.subrange(i as int, k + 2) =~= head + ts.subrange(
                                i + 4,
                                j as int,
                            ) + seq![Tok::Comma] + ts.subrange(j + 1, k as int) + seq![
                                Tok::CloseList,
                                Tok::Close,
                            ]);
                            assert(ts.subrange(i as int, k + 2) =~= policy_tokens(p));
                            assert forall|q: Policy|
                                prefix_at(ts, i as int, #[trigger] policy_tokens(q)) implies k + 2
                                == i + policy_tokens(q).len() && policy_tokens(q) == policy_tokens(
                                p,
                            ) by {
                                lemma_prefix_index(ts, i as int, policy_tokens(q), 1);
                                lemma_gate_parts(ts, i as int, q);
                            }
                        }
                        return Some((p, k + 2));
                    }
                }
            }
        }
    }
    proof {
        assert forall|q: Policy| !prefix_at(ts, i as int, #[trigger] policy_tokens(q)) by {
            if prefix_at(ts, i as int, policy_tokens(q)) {
                lemma_prefix_index(ts, i as int, policy_tokens(q), 1);
                lemma_tok_at(t@, i + 3);
                lemma_gate_parts(ts, i as int, q);
            }
        }
    }
    None
}

/// Parses the policy whose tokens start at position `i`, and gives the
/// position after them.
fn parse_at(t: &Vec<Token>, i: usize) -> (r: Option<(Policy, usize)>)
    requires
        i <= t@.len(),
    ensures
        parsed_at(toks(t@), i as int, r),
    decreases t@.len() - i, 1int,
{
    let ghost ts = toks(t@);
    assert(ts.len() == t@.len());
    if t.len() - i >= 3 && is_open(&t[i]) && is_colon(&t[i + 2]) {
        proof {
            lemma_tok_at(t@, i as int);
            lemma_tok_at(t@, i + 1);
            lemma_tok_at(t@, i + 2);
        }
        let kw = keyword(&t[i + 1]);
        if kw == 1 {
            return parse_leaf(t, i);
        } else if kw == 2 {
            return parse_negation(t, i);
        } else if kw == 3 {
            return parse_gate(t, i, true);
        } else if kw == 4 {
            return parse_gate(t, i, false);
        }
    }
    proof {
        assert forall|p: Policy| !prefix_at(ts, i as int, #[trigger] policy_tokens(p)) by {
            if prefix_at(ts, i as int, policy_tokens(p)) {
                lemma_prefix_index(ts, i as int, policy_tokens(p), 0);
                lemma_prefix_index(ts, i as int, policy_tokens(p), 1);
                lemma_prefix_index(ts, i as int, policy_tokens(p), 2);
                lemma_tok_at(t@, i as int);
                lemma_tok_at(t@, i + 1);
                lemma_tok_at(t@, i + 2);
            }
        }
    }
    None
}

/// The tokens of a gate, read at position `i`: its keyword, the list
/// bracket, its left side's tokens, the comma, its right side's tokens and
/// the closing tokens, each at its place.
proof fn lemma_gate_parts(ts: Seq<Tok>, i: int, q: Policy)
    requires
        prefix_at(ts, i, policy_tokens(q)),
        q is And || q is Or,
    ensures
        ({
            let (l, r) = match q {
                Policy::And(l, r) => (*l, *r),
                Policy::Or(l, r) => (*l, *r),
                _ => (q, q),
            };
            let j = i + 4 + policy_tokens(l).len();
            let k = j + 1 + policy_tokens(r).len();
            &&& ts[i + 3] == Tok::OpenList
            &&& prefix_at(ts, i + 4, policy_tokens(l))
            &&& ts[j] == Tok::Comma
            &&& prefix_at(ts, j + 1, policy_tokens(r))
            &&& ts[k] == Tok::CloseList
            &&& ts[k + 1] == Tok::Close
            &&& policy_tokens(q).len() == k + 2 - i
        }),
{
    let (l, r) = match q {
        Policy::And(l, r) => (*l, *r),
        Policy::Or(l, r) => (*l, *r),
        _ => (q, q),
    };
    let pt = policy_tokens(q);
    let nl = policy_tokens(l).len() as int;
    let nr = policy_tokens(r).len() as int;
    let j = i + 4 + nl;
    let k = j + 1 + nr;
    lemma_prefix_index(ts, i, pt, 3);
    lemma_prefix_index(ts, i, pt, 4 + nl);
    lemma_prefix_index(ts, i, pt, 5 + nl + nr);
    lemma_prefix_index(ts, i, pt, 6 + nl + nr);
    assert(ts.subrange(i + 4, i + 4 + nl) =~= pt.subrange(4, 4 + nl));
    assert(pt.subrange(4, 4 + nl) =~= policy_tokens(l));
    assert(ts.subrange(j + 1, j + 1 + nr) =~= pt.subrange(5 + nl, 5 + nl + nr));
    assert(pt.subrange(5 + nl, 5 + nl + nr) =~= policy_tokens(r));
}

/// Reads a policy from its JSON text. Whitespace between tokens is skipped;
/// the text must hold one policy and nothing after it.
pub fn parse_policy(s: &str) -> (r: Option<Policy>)
    ensures
        r is Some ==> lex_from(s@, 0) == Some(policy_tokens(r->0)),
        forall|p: Policy|
            lex_from(s@, 0) == Some(#[trigger] policy_tokens(p)) ==> r is Some && policy_tokens(
                r->0,
            ) == policy_tokens(p),
{
    let t = match tokenize(s) {
        Some(t) => t,
        None => return None,
    };
    let ghost ts = toks(t@);
    proof {
        assert forall|p: Policy| lex_from(s@, 0) == Some(#[trigger] policy_tokens(p)) implies prefix_at(
            ts,
            0,
            policy_tokens(p),
        ) by {
            assert(ts.subrange(0, ts.len() as int) =~= ts);
        }
    }
    match parse_at(&t, 0) {
        Some((p, n)) => {
            if n == t.len() {
                proof {
                    assert(ts.subrange(0, n as int) =~= ts);
                }
                Some(p)
            } else {
                None
            }
        },
        None => None,
    }
}

/// Where the tokens of two policies both start at the same position of a
/// token list, the two policies have the same tokens: no policy's tokens are
/// a proper prefix of another's.
pub proof fn lemma_prefix_unique(ts: Seq<Tok>, i: int, p: Policy, q: Policy)
    requires
        prefix_at(ts, i, policy_tokens(p)),
        prefix_at(ts, i, policy_tokens(q)),
    ensures
        policy_tokens(p) == policy_tokens(q),
    decreases p,
{
    let tp = policy_tokens(p);
    let tq = policy_tokens(q);
    lemma_prefix_index(ts, i, tp, 1);
    lemma_prefix_index(ts, i, tq, 1);
    lemma_words_differ();
    match p {
        Policy::Leaf(a) => {
            lemma_prefix_index(ts, i, tp, 3);
            lemma_prefix_index(ts, i, tq, 3);
            assert(tp =~= tq);
        },
        Policy::Not(a) => {
            lemma_prefix_index(ts, i, tp, 6);
            lemma_prefix_index(ts, i, tq, 6);
            assert(tp =~= tq);
        },
        Policy::And(l1, r1) => {
            if let Policy::And(l2, r2) = q {
                lemma_gate_parts(ts, i, p);
                lemma_gate_parts(ts, i, q);
                lemma_prefix_unique(ts, i + 4, *l1, *l2);
                lemma_prefix_unique(ts, i + 5 + policy_tokens(*l1).len(), *r1, *r2);
            }
        },
        Policy::Or(l1, r1) => {
            if let Policy::Or(l2, r2) = q {
                lemma_gate_parts(ts, i, p);
                lemma_gate_parts(ts, i, q);
                lemma_prefix_unique(ts, i + 4, *l1, *l2);
                lemma_prefix_unique(ts, i + 5 + policy_tokens(*l1).len(), *r1, *r2);
            }
        },
    }
}

/// Whether two policies have the same gates and the same attribute names.
pub open spec fn same_policy(p: Policy, q: Policy) -> bool
    decreases p,
{
    match (p, q) {
        (Policy::Leaf(a), Policy::Leaf(b)) => a@ == b@,
        (Policy::Not(a), Policy::Not(b)) => a@ == b@,
        (Policy::And(l1, r1), Policy::And(l2, r2)) => same_policy(*l1, *l2) && same_policy(*r1, *r2),
        (Policy::Or(l1, r1), Policy::Or(l2, r2)) => same_policy(*l1, *l2) && same_policy(*r1, *r2),
        _ => false,
    }
}

/// Two policies with the same tokens are the same policy.
pub proof fn lemma_tokens_same_policy(p: Policy, q: Policy)
    requires
        policy_tokens(p) == policy_tokens(q),
    ensures
        same_policy(p, q),
    decreases p,
{
    let tp = policy_tokens(p);
    let tq = policy_tokens(q);
    assert(prefix_at(tp, 0, tp)) by {
        assert(tp.subrange(0, tp.len() as int) =~= tp);
    }
    lemma_prefix_index(tp, 0, tp, 1);
    assert(tq[1] == tp[1]);
    lemma_words_differ();
    match p {
        Policy::Leaf(a) => {
            assert(tq[3] == tp[3]);
        },
        Policy::Not(a) => {
            assert(tq[6] == tp[6]);
        },
        Policy::And(l1, r1) => {
            if let Policy::And(l2, r2) = q {
                lemma_gate_parts(tp, 0, p);
                lemma_gate_parts(tp, 0, q);
                lemma_prefix_unique(tp, 4, *l1, *l2);
                lemma_prefix_unique(tp, 5 + policy_tokens(*l1).len() as int, *r1, *r2);
                lemma_tokens_same_policy(*l1, *l2);
                lemma_tokens_same_policy(*r1, *r2);
            }
        },
        Policy::Or(l1, r1) => {
            if let Policy::Or(l2, r2) = q {
                lemma_gate_parts(tp, 0, p);
                lemma_gate_parts(tp, 0, q);
                lemma_prefix_unique(tp, 4, *l1, *l2);
                lemma_prefix_unique(tp, 5 + policy_tokens(*l1).len() as int, *r1, *r2);
                lemma_tokens_same_policy(*l1, *l2);
                lemma_tokens_same_policy(*r1, *r2);
            }
        },
    }
}

/// The same policy has the same leaves, tags and negations, and holds and
/// prunes alike for every set of attributes.
pub proof fn lemma_same_policy_alike(p: Policy, q: Policy, attrs: Seq<Seq<char>>)
    requires
        same_policy(p, q),
    ensures
        leaf_labels(p) == leaf_labels(q),
        leaf_tags(p) == leaf_tags(q),
        has_negation(p) == has_negation(q),
        holds(p, attrs) == holds(q, attrs),
        pruned(p, attrs) == pruned(q, attrs),
        pruned_tags(p, attrs) == pruned_tags(q, attrs),
    decreases p,
{
    match (p, q) {
        (Policy::And(l1, r1), Policy::And(l2, r2)) => {
            lemma_same_policy_alike(*l1, *l2, attrs);
            lemma_same_policy_alike(*r1, *r2, attrs);
        },
        (Policy::Or(l1, r1), Policy::Or(l2, r2)) => {
            lemma_same_policy_alike(*l1, *l2, attrs);
            lemma_same_policy_alike(*r1, *r2, attrs);
        },
        _ => {},
    }
}

} // verus!
