//! Path syntax: how a path is cut into tokens, and how an array index is written,
//! for the two shell dialects.
use vstd::prelude::*;

use crate::strings::{chars_of, decimal, push_decimal};

verus! {

/// The dialect of array indices in a path: `[n]`, `@n`, or either.
#[derive(Debug, Clone, Copy, PartialEq, Eq, Structural)]
pub enum ArraySyntax {
    /// `key[3]`; a segment may not hold `.`, `[`, `]` or `\`.
    Bracket,
    /// `key@3`; a segment may not hold `.`, `[`, `]`, `\` or `@`.
    At,
    /// `key[3]` or `key@3`; a segment may not hold `.`, `[`, `]`, `\` or `@`.
    /// Indices are written with brackets.
    Either,
}

/// One token of a path, as the specification sees it.
pub struct PathToken {
    /// The text of a key segment.
    pub key: Option<Seq<char>>,
    /// An explicit array index; one beyond `usize::MAX` stands as `usize::MAX`.
    pub index: Option<usize>,
    /// The key segment was followed by a period.
    pub terminated: bool,
}

/// One token of a path.
pub struct Token {
    pub key: Option<String>,
    pub index: Option<usize>,
    pub terminated: bool,
}

impl View for Token {
    type V = PathToken;

    open spec fn view(&self) -> PathToken {
        PathToken {
            key: match self.key {
                Some(k) => Some(k@),
                None => None,
            },
            index: self.index,
            terminated: self.terminated,
        }
    }
}

pub open spec fn tokens_view(ts: Seq<Token>) -> Seq<PathToken> {
    ts.map_values(|t: Token| t@)
}

/// The token of a place where neither a key nor an index stands.
pub open spec fn empty_token() -> PathToken {
    PathToken { key: None, index: None, terminated: false }
}

/// The character that opens an index when the dialect writes one.
pub open spec fn index_opener(syn: ArraySyntax) -> char {
    match syn {
        ArraySyntax::At => '@',
        _ => '[',
    }
}

/// `c` opens an index in the dialect `syn`.
pub open spec fn is_opener(syn: ArraySyntax, c: char) -> bool {
    match syn {
        ArraySyntax::Bracket => c == '[',
        ArraySyntax::At => c == '@',
        ArraySyntax::Either => c == '[' || c == '@',
    }
}

pub open spec fn is_key_char(syn: ArraySyntax, c: char) -> bool {
    &&& c != '.'
    &&& c != '['
    &&& c != ']'
    &&& c != '\\'
    &&& (syn != ArraySyntax::Bracket ==> c != '@')
}

pub open spec fn is_digit(c: char) -> bool {
    '0' <= c && c <= '9'
}

/// The length of the run of key characters that starts at `pos`.
pub open spec fn key_run(syn: ArraySyntax, s: Seq<char>, pos: int) -> nat
    decreases s.len() - pos,
{
    if 0 <= pos < s.len() && is_key_char(syn, s[pos]) {
        1 + key_run(syn, s, pos + 1)
    } else {
        0
    }
}

/// The length of the run of decimal digits that starts at `pos`.
pub open spec fn digit_run(s: Seq<char>, pos: int) -> nat
    decreases s.len() - pos,
{
    if 0 <= pos < s.len() && is_digit(s[pos]) {
        1 + digit_run(s, pos + 1)
    } else {
        0
    }
}

/// The number that a run of decimal digits denotes.
pub open spec fn digits_value(ds: Seq<char>) -> nat
    decreases ds.len(),
{
    if ds.len() == 0 {
        0
    } else {
        digits_value(ds.drop_last()) * 10 + (ds.last() as int - '0' as int) as nat
    }
}

pub open spec fn clamp_usize(n: nat) -> usize {
    if n > usize::MAX {
        usize::MAX
    } else {
        n as usize
    }
}

/// The longest token that starts at `pos`, and how many characters it takes.
///
/// A key is a run of key characters, with the period that follows it. An index is
/// an opener followed by digits (and, after `[`, an optional `]`).
/// Anything else is an empty match.
pub open spec fn match_at(syn: ArraySyntax, s: Seq<char>, pos: int) -> (nat, PathToken) {
    let k = key_run(syn, s, pos);
    if k > 0 {
        let term = pos + k < s.len() && s[pos + k] == '.';
        (
            if term { k + 1 } else { k },
            PathToken { key: Some(s.subrange(pos, pos + k)), index: None, terminated: term },
        )
    } else if 0 <= pos < s.len() && is_opener(syn, s[pos]) && digit_run(s, pos + 1) > 0 {
        let d = digit_run(s, pos + 1);
        let close = s[pos] == '[' && pos + 1 + d < s.len() && s[pos + 1 + d] == ']';
        (
            if close { d + 2 } else { d + 1 },
            PathToken {
                key: None,
                index: Some(clamp_usize(digits_value(s.subrange(pos + 1, pos + 1 + d)))),
                terminated: false,
            },
        )
    } else {
        (0, empty_token())
    }
}

pub proof fn lemma_key_run_bound(syn: ArraySyntax, s: Seq<char>, pos: int)
    requires
        0 <= pos <= s.len(),
    ensures
        key_run(syn, s, pos) <= s.len() - pos,
        forall|j: int| pos <= j < pos + key_run(syn, s, pos) ==> is_key_char(syn, #[trigger] s[j]),
        pos + key_run(syn, s, pos) < s.len() ==> !is_key_char(syn, s[pos + key_run(syn, s, pos)]),
    decreases s.len() - pos,
{
    if pos < s.len() && is_key_char(syn, s[pos]) {
        lemma_key_run_bound(syn, s, pos + 1);
    }
}

pub proof fn lemma_digit_run_bound(s: Seq<char>, pos: int)
    requires
        0 <= pos <= s.len(),
    ensures
        digit_run(s, pos) <= s.len() - pos,
        forall|j: int| pos <= j < pos + digit_run(s, pos) ==> is_digit(#[trigger] s[j]),
        pos + digit_run(s, pos) < s.len() ==> !is_digit(s[pos + digit_run(s, pos)]),
    decreases s.len() - pos,
{
    if pos < s.len() && is_digit(s[pos]) {
        lemma_digit_run_bound(s, pos + 1);
    }
}

pub proof fn lemma_match_len(syn: ArraySyntax, s: Seq<char>, pos: int)
    requires
        0 <= pos <= s.len(),
    ensures
        match_at(syn, s, pos).0 <= s.len() - pos,
{
    lemma_key_run_bound(syn, s, pos);
    if pos < s.len() {
        lemma_digit_run_bound(s, pos + 1);
    }
}

/// The tokens of `s` from `pos` on. `after_match` says that a non-empty match ended
/// at `pos`: an empty match right there is skipped, so `a.` is one token and `a[` two.
pub open spec fn tokens_from(syn: ArraySyntax, s: Seq<char>, pos: int, after_match: bool) -> Seq<PathToken>
    decreases s.len() + 1 - pos,
    when 0 <= pos
{
    if pos > s.len() {
        seq![]
    } else {
        let (n, t) = match_at(syn, s, pos);
        proof {
            lemma_match_len(syn, s, pos);
        }
        if n == 0 {
            if after_match {
                tokens_from(syn, s, pos + 1, false)
            } else {
                seq![t] + tokens_from(syn, s, pos + 1, false)
            }
        } else {
            seq![t] + tokens_from(syn, s, pos + n, true)
        }
    }
}

/// The tokens of a path, in order.
pub open spec fn tokenize(syn: ArraySyntax, s: Seq<char>) -> Seq<PathToken> {
    tokens_from(syn, s, 0, false)
}

/// How an array index is written.
pub open spec fn render_index(syn: ArraySyntax, n: nat) -> Seq<char> {
    match syn {
        ArraySyntax::At => seq!['@'] + decimal(n),
        _ => seq!['['] + decimal(n) + seq![']'],
    }
}

/// The path ends in an index opener with no digits after it.
pub open spec fn ends_with_open(syn: ArraySyntax, s: Seq<char>) -> bool {
    s.len() > 0 && is_opener(syn, s.last())
}

fn is_key_char_exec(syn: ArraySyntax, c: char) -> (r: bool)
    ensures
        r == is_key_char(syn, c),
{
    c != '.' && c != '[' && c != ']' && c != '\\' && (syn == ArraySyntax::Bracket || c != '@')
}

proof fn lemma_clamp_step(x: nat, d: nat)
    requires
        d < 10,
    ensures
        clamp_usize(x * 10 + d) == (if clamp_usize(x) > (usize::MAX - d) / 10 {
            usize::MAX
        } else {
            (clamp_usize(x) * 10 + d) as usize
        }),
{
    let m = usize::MAX as int;
    let q = (m - d) / 10;
    assert(10 * q <= m - d && m - d < 10 * q + 10) by (nonlinear_arith)
        requires
            q == (m - d) / 10,
            m - d >= 0,
    ;
    if x > m {
        assert(x * 10 + d > m) by (nonlinear_arith)
            requires
                x > m,
                m > 0,
        ;
    } else if x > q {
        assert(x * 10 + d > m) by (nonlinear_arith)
            requires
                x >= q + 1,
                m - d < 10 * q + 10,
        ;
    } else {
        assert(x * 10 + d <= m) by (nonlinear_arith)
            requires
                x <= q,
                10 * q <= m - d,
        ;
    }
}

/// The token that starts at `pos`, and its length; see `match_at`.
fn match_here(syn: ArraySyntax, cs: &Vec<char>, path: &str, pos: usize) -> (r: (usize, Token))
    requires
        cs@ == path@,
        pos < cs@.len(),
    ensures
        r.0 == match_at(syn, path@, pos as int).0,
        r.1@ == match_at(syn, path@, pos as int).1,
{
    let ghost s = path@;
    let n = cs.len();
    let mut j: usize = pos;
    while j < n && is_key_char_exec(syn, cs[j])
        invariant
            cs@ == s,
            n == s.len(),
            pos <= j <= n,
            key_run(syn, s, pos as int) == (j - pos) + key_run(syn, s, j as int),
        decreases n - j,
    {
        j = j + 1;
    }
    if j > pos {
        let term = j < n && cs[j] == '.';
        let key = path.substring_char(pos, j).to_owned();
        let len = if term { j - pos + 1 } else { j - pos };
        return (len, Token { key: Some(key), index: None, terminated: term });
    }
    let c = cs[pos];
    let opens = match syn {
        ArraySyntax::Bracket => c == '[',
        ArraySyntax::At => c == '@',
        ArraySyntax::Either => c == '[' || c == '@',
    };
    if opens && pos + 1 < n && '0' <= cs[pos + 1] && cs[pos + 1] <= '9' {
        let mut v: usize = 0;
        let mut k: usize = pos + 1;
        assert(s.subrange(pos + 1, pos + 1) =~= Seq::<char>::empty());
        while k < n && '0' <= cs[k] && cs[k] <= '9'
            invariant
                cs@ == s,
                n == s.len(),
                pos + 1 <= k <= n,
                digit_run(s, pos + 1) == (k - pos - 1) + digit_run(s, k as int),
                v == clamp_usize(digits_value(s.subrange(pos + 1, k as int))),
            decreases n - k,
        {
            let d = (cs[k] as u32 - '0' as u32) as usize;
            let ghost sub = s.subrange(pos + 1, k + 1);
            assert(sub.drop_last() =~= s.subrange(pos + 1, k as int));
            proof {
                lemma_clamp_step(digits_value(s.subrange(pos + 1, k as int)), d as nat);
            }
            if v > (usize::MAX - d) / 10 {
                v = usize::MAX;
            } else {
                v = v * 10 + d;
            }
            k = k + 1;
        }
        let close = c == '[' && k < n && cs[k] == ']';
        let len = if close { k - pos + 1 } else { k - pos };
        return (len, Token { key: None, index: Some(v), terminated: false });
    }
    (0, Token { key: None, index: None, terminated: false })
}

/// Cuts `path` into tokens.
pub fn tokenize_path(syn: ArraySyntax, path: &str) -> (r: Vec<Token>)
    ensures
        tokens_view(r@) == tokenize(syn, path@),
{
    let ghost s = path@;
    let cs = chars_of(path);
    let n = cs.len();
    let mut r: Vec<Token> = Vec::new();
    let mut pos: usize = 0;
    let mut after = false;
    while pos < n
        invariant
            cs@ == s,
            s == path@,
            n == s.len(),
            pos <= n,
            tokens_view(r@) + tokens_from(syn, s, pos as int, after) == tokenize(syn, s),
        decreases n - pos,
    {
        proof {
            lemma_match_len(syn, s, pos as int);
        }
        let ghost before = r@;
        let (m, tok) = match_here(syn, &cs, path, pos);
        if m == 0 {
            if !after {
                r.push(tok);
                assert(tokens_view(r@) =~= tokens_view(before) + seq![tok@]);
            }
            pos = pos + 1;
            after = false;
        } else {
            r.push(tok);
            assert(tokens_view(r@) =~= tokens_view(before) + seq![tok@]);
            pos = pos + m;
            after = true;
        }
    }
    let ghost before = r@;
    if !after {
        r.push(Token { key: None, index: None, terminated: false });
        assert(tokens_view(r@) =~= tokens_view(before) + seq![empty_token()]);
    }
    assert(tokens_from(syn, s, n as int + 1, false) =~= Seq::<PathToken>::empty());
    r
}

/// Writes index `n` in the dialect `syn`.
pub fn render_index_string(syn: ArraySyntax, n: usize) -> (r: String)
    ensures
        r@ == render_index(syn, n as nat),
{
    proof {
        reveal_strlit("[");
        reveal_strlit("]");
        reveal_strlit("@");
    }
    match syn {
        ArraySyntax::At => {
            let mut r = "@".to_owned();
            push_decimal(&mut r, n);
            assert(r@ =~= render_index(syn, n as nat));
            r
        },
        _ => {
            let mut r = "[".to_owned();
            push_decimal(&mut r, n);
            r.append("]");
            assert(r@ =~= render_index(syn, n as nat));
            r
        },
    }
}

/// Whether `s` ends in the index opener of `syn`.
pub fn ends_with_open_marker(syn: ArraySyntax, s: &str) -> (r: bool)
    ensures
        r == ends_with_open(syn, s@),
{
    let cs = chars_of(s);
    if cs.len() == 0 {
        return false;
    }
    let c = cs[cs.len() - 1];
    match syn {
        ArraySyntax::Bracket => c == '[',
        ArraySyntax::At => c == '@',
        ArraySyntax::Either => c == '[' || c == '@',
    }
}

/// A dialect of array indices in paths.
pub trait ArrayParser {
    /// The dialect that this parser reads and writes.
    spec fn syntax(&self) -> ArraySyntax;

    /// Writes an array index.
    fn apply_index(&self, index: usize) -> (r: String)
        ensures
            r@ == render_index(self.syntax(), index as nat),
    ;

    /// Whether `s` ends in an index opener with no digits after it.
    fn array_ending(&self, s: &str) -> (r: bool)
        ensures
            r == ends_with_open(self.syntax(), s@),
    ;

    /// Cuts a path into tokens.
    fn tokenize(&self, path: &str) -> (r: Vec<Token>)
        ensures
            tokens_view(r@) == tokenize(self.syntax(), path@),
    ;
}

impl ArrayParser for ArraySyntax {
    open spec fn syntax(&self) -> ArraySyntax {
        *self
    }

    fn apply_index(&self, index: usize) -> (r: String) {
        render_index_string(*self, index)
    }

    fn array_ending(&self, s: &str) -> (r: bool) {
        ends_with_open_marker(*self, s)
    }

    fn tokenize(&self, path: &str) -> (r: Vec<Token>) {
        tokenize_path(*self, path)
    }
}

/// The bash dialect: arrays are indexed as `key[n]`.
pub struct BashArrayParser {}

impl BashArrayParser {
    pub fn new() -> (r: Self) {
        BashArrayParser {}
    }
}

impl ArrayParser for BashArrayParser {
    open spec fn syntax(&self) -> ArraySyntax {
        ArraySyntax::Bracket
    }

    fn apply_index(&self, index: usize) -> (r: String) {
        render_index_string(ArraySyntax::Bracket, index)
    }

    fn array_ending(&self, s: &str) -> (r: bool) {
        ends_with_open_marker(ArraySyntax::Bracket, s)
    }

    fn tokenize(&self, path: &str) -> (r: Vec<Token>) {
        tokenize_path(ArraySyntax::Bracket, path)
    }
}

/// The zsh dialect: arrays are indexed as `key@n`.
pub struct ZshArrayParser {}

impl ZshArrayParser {
    pub fn new() -> (r: Self) {
        ZshArrayParser {}
    }
}

impl ArrayParser for ZshArrayParser {
    open spec fn syntax(&self) -> ArraySyntax {
        ArraySyntax::At
    }

    fn apply_index(&self, index: usize) -> (r: String) {
        render_index_string(ArraySyntax::At, index)
    }

    fn array_ending(&self, s: &str) -> (r: bool) {
        ends_with_open_marker(ArraySyntax::At, s)
    }

    fn tokenize(&self, path: &str) -> (r: Vec<Token>) {
        tokenize_path(ArraySyntax::At, path)
    }
}

} // verus!
