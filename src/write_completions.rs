//! Completion of a partly typed path: the walk that decides, token by token, whether
//! to descend, to collapse a single child, or to list candidates.
use vstd::prelude::*;

use crate::arrayparser::{
    ends_with_open, render_index, tokenize, tokenize_path, tokens_view, ArrayParser, ArraySyntax,
    PathToken, Token,
};
use crate::get_metadata::has_terminal;
use crate::rust_common::{
    keys_starting_with, lemma_sorted_matches_are_keys, matching_keys, sep, sort_strs, strs_view,
};
use crate::strwriter::StrWriter;
use crate::value::{hash_get, hash_lookup, lemma_hash_get_below, sep_of, PathError, Value};
use crate::yaml_descender::{description_of, YamlDescender};
use crate::yaml_path::{enter_root, enter_root_node};

verus! {

/// What a completion reads besides the tree and the path.
pub struct Scope {
    pub doc: Value,
    pub prefix: Seq<char>,
    pub syn: ArraySyntax,
    pub terminal: Seq<Seq<char>>,
    /// Descriptions are asked for.
    pub want: bool,
}

/// The lines of a completion, and whether every other line is a description.
pub struct CompletionSet {
    pub lines: Seq<Seq<char>>,
    pub described: bool,
}

/// The lines of a completion, and whether every other line is a description.
pub struct Completions {
    pub lines: Vec<String>,
    pub described: bool,
}

impl View for Completions {
    type V = CompletionSet;

    open spec fn view(&self) -> CompletionSet {
        CompletionSet { lines: strs_view(self.lines@), described: self.described }
    }
}

pub open spec fn completion_outcome(r: Result<Completions, PathError>, s: Result<CompletionSet, PathError>) -> bool {
    match r {
        Ok(c) => s == Ok::<CompletionSet, PathError>(c@),
        Err(e) => s == Err::<CompletionSet, PathError>(e),
    }
}

/// The path typed so far is complete: it is the one candidate.
pub open spec fn done(acc: Seq<char>) -> CompletionSet {
    CompletionSet { lines: seq![acc], described: false }
}

/// No candidate.
pub open spec fn nothing() -> CompletionSet {
    CompletionSet { lines: seq![], described: false }
}

/// The separator after a child, which a leaf hash does not get.
pub open spec fn tail_sep(sc: Scope, child: Value) -> Seq<char> {
    if has_terminal(sc.terminal, child) {
        seq![]
    } else {
        sep_of(child)
    }
}

pub open spec fn token_key(toks: Seq<PathToken>, i: int) -> Seq<char> {
    if 0 <= i < toks.len() && toks[i].key is Some {
        toks[i].key->0
    } else {
        seq![]
    }
}

pub open spec fn token_terminated(toks: Seq<PathToken>, i: int) -> bool {
    0 <= i < toks.len() && toks[i].terminated
}

/// One line per key: the path so far followed by the key.
pub open spec fn key_lines(acc: Seq<char>, ks: Seq<Seq<char>>) -> Seq<Seq<char>> {
    ks.map_values(|k: Seq<char>| acc + k)
}

/// The description of the entry `k` of `es`.
pub open spec fn describe(sc: Scope, es: Seq<(String, Value)>, k: Seq<char>) -> Result<Seq<char>, PathError> {
    description_of(sc.doc, sc.prefix, sc.syn, hash_get(es, k)->0)
}

pub open spec fn all_described(sc: Scope, es: Seq<(String, Value)>, ks: Seq<Seq<char>>) -> bool {
    forall|j: int| 0 <= j < ks.len() ==> (#[trigger] describe(sc, es, ks[j])) is Ok
}

/// Each key line followed by its description.
pub open spec fn described_lines(sc: Scope, acc: Seq<char>, es: Seq<(String, Value)>, ks: Seq<Seq<char>>) -> Seq<
    Seq<char>,
>
    decreases ks.len(),
{
    if ks.len() == 0 {
        seq![]
    } else {
        described_lines(sc, acc, es, ks.drop_last()) + seq![
            acc + ks.last(),
            describe(sc, es, ks.last())->Ok_0,
        ]
    }
}

/// The listing of keys `ks` of a hash: with descriptions when they are asked for and
/// every key has one, else the bare key lines.
pub open spec fn list_keys(sc: Scope, acc: Seq<char>, es: Seq<(String, Value)>, ks: Seq<Seq<char>>) -> CompletionSet {
    if sc.want && all_described(sc, es, ks) {
        CompletionSet { lines: described_lines(sc, acc, es, ks), described: true }
    } else {
        CompletionSet { lines: key_lines(acc, ks), described: false }
    }
}

/// The path so far, less an index opener at its end.
pub open spec fn trim_open(syn: ArraySyntax, acc: Seq<char>) -> Seq<char> {
    if ends_with_open(syn, acc) {
        acc.drop_last()
    } else {
        acc
    }
}

/// One line per element of an array of length `n`.
pub open spec fn index_lines(syn: ArraySyntax, acc: Seq<char>, n: nat) -> Seq<Seq<char>> {
    Seq::new(n, |j: int| trim_open(syn, acc) + render_index(syn, j as nat))
}

/// The completion of the tokens from `i` on, at `node`, with the path `acc` written so far.
/// A hash with a single key is entered even when the typed fragment does not match it.
/// `key` and `terminated` describe what is left of token `i`.
pub open spec fn run(
    sc: Scope,
    toks: Seq<PathToken>,
    i: int,
    node: Value,
    key: Seq<char>,
    terminated: bool,
    acc: Seq<char>,
) -> Result<CompletionSet, PathError>
    decreases toks.len() - i, node,
    when 0 <= i
{
    if i >= toks.len() || has_terminal(sc.terminal, node) {
        Ok(done(acc))
    } else {
        let last = i + 1 == toks.len();
        match node {
            Value::Hash(es) => if terminated {
                match hash_get(es@, key) {
                    None => Ok(nothing()),
                    Some(child) => {
                        proof {
                            lemma_hash_get_below(node, key);
                        }
                        let acc2 = acc + key + sep_of(child);
                        if last {
                            run(sc, toks, i, child, seq![], false, acc2)
                        } else {
                            run(sc, toks, i + 1, child, token_key(toks, i + 1), token_terminated(toks, i + 1), acc2)
                        }
                    },
                }
            } else {
                let ks = sort_strs(matching_keys(es@, key, seq![]));
                if ks.len() == 0 {
                    if es@.len() == 1 {
                        let child = es@[0].1;
                        proof {
                            assert(decreases_to!(node => node->Hash_0));
                            assert(decreases_to!(es => es@));
                            assert(decreases_to!(es@ => es@[0]));
                            assert(decreases_to!(es@[0] => es@[0].1));
                        }
                        run(sc, toks, i, child, key, terminated, acc + es@[0].0@ + sep_of(child))
                    } else {
                        Ok(nothing())
                    }
                } else if ks.len() == 1 {
                    proof {
                        lemma_sorted_matches_are_keys(es@, key, seq![]);
                        lemma_hash_get_below(node, ks[0]);
                    }
                    let child = hash_get(es@, ks[0])->0;
                    let acc2 = acc + ks[0] + tail_sep(sc, child);
                    if last {
                        run(sc, toks, i, child, seq![], false, acc2)
                    } else {
                        run(sc, toks, i + 1, child, token_key(toks, i + 1), token_terminated(toks, i + 1), acc2)
                    }
                } else {
                    Ok(list_keys(sc, acc, es@, ks))
                }
            },
            Value::Array(a) => match toks[i].index {
                Some(ix) => if ix >= a@.len() {
                    Err(PathError::IndexOutOfBounds)
                } else {
                    let child = a@[ix as int];
                    let acc2 = acc + render_index(sc.syn, ix as nat) + tail_sep(sc, child);
                    run(sc, toks, i + 1, child, token_key(toks, i + 1), token_terminated(toks, i + 1), acc2)
                },
                None => if a@.len() == 1 {
                    let child = a@[0];
                    proof {
                        assert(decreases_to!(node => node->Array_0));
                        assert(decreases_to!(a => a@));
                        assert(decreases_to!(a@ => a@[0]));
                    }
                    run(sc, toks, i, child, key, terminated, acc + render_index(sc.syn, 0) + tail_sep(sc, child))
                } else {
                    Ok(CompletionSet { lines: index_lines(sc.syn, acc, a@.len()), described: false })
                },
            },
            _ => Ok(done(acc)),
        }
    }
}

/// The completion of `path`: nothing when the root key cannot be entered, else the walk
/// from the start node over all tokens.
pub open spec fn complete(sc: Scope, path: Seq<char>) -> Result<CompletionSet, PathError> {
    match enter_root(sc.doc, sc.prefix) {
        Err(_) => Ok(nothing()),
        Ok(start) => {
            let toks = tokenize(sc.syn, path);
            run(sc, toks, 0, start, token_key(toks, 0), token_terminated(toks, 0), seq![])
        },
    }
}

/// The text of `lines`, each ended by a newline.
pub open spec fn joined(lines: Seq<Seq<char>>) -> Seq<char>
    decreases lines.len(),
{
    if lines.len() == 0 {
        seq![]
    } else {
        joined(lines.drop_last()) + lines.last().push('\n')
    }
}

fn token_key_str<'a>(toks: &'a Vec<Token>, i: usize) -> (r: &'a str)
    ensures
        r@ == token_key(tokens_view(toks@), i as int),
{
    proof {
        reveal_strlit("");
    }
    if i < toks.len() {
        match &toks[i].key {
            Some(k) => k.as_str(),
            None => "",
        }
    } else {
        ""
    }
}

fn token_terminated_at(toks: &Vec<Token>, i: usize) -> (r: bool)
    ensures
        r == token_terminated(tokens_view(toks@), i as int),
{
    i < toks.len() && toks[i].terminated
}

fn single_line(acc: String) -> (r: Completions)
    ensures
        r@ == done(acc@),
{
    let mut lines: Vec<String> = Vec::new();
    lines.push(acc);
    assert(strs_view(lines@) =~= seq![acc@]);
    Completions { lines, described: false }
}

fn no_lines() -> (r: Completions)
    ensures
        r@ == nothing(),
{
    let lines: Vec<String> = Vec::new();
    assert(strs_view(lines@) =~= Seq::<Seq<char>>::empty());
    Completions { lines, described: false }
}

fn concat(a: &str, b: &str) -> (r: String)
    ensures
        r@ == a@ + b@,
{
    let mut r = a.to_owned();
    r.append(b);
    r
}

impl YamlDescender {
    /// The setting of a completion by this descender.
    pub open spec fn scope(&self, want: bool) -> Scope {
        Scope {
            doc: self.document(),
            prefix: self.root_key(),
            syn: self.syntax(),
            terminal: self.terminal_keys(),
            want,
        }
    }

    /// The listing of the keys `keys` of `es`; see `list_keys`.
    fn list_keys_exec(
        &self,
        acc: &String,
        es: &Vec<(String, Value)>,
        keys: &Vec<String>,
        want: bool,
    ) -> (r: Completions)
        requires
            forall|j: int| 0 <= j < keys@.len() ==> hash_get(es@, #[trigger] keys@[j]@) is Some,
        ensures
            r@ == list_keys(self.scope(want), acc@, es@, strs_view(keys@)),
    {
        let ghost sc = self.scope(want);
        let ghost ks = strs_view(keys@);
        let mut descs: Vec<String> = Vec::new();
        let mut ok = true;
        let mut j: usize = 0;
        while want && ok && j < keys.len()
            invariant
                sc == self.scope(want),
                ks == strs_view(keys@),
                forall|l: int| 0 <= l < keys@.len() ==> hash_get(es@, #[trigger] keys@[l]@) is Some,
                j <= keys@.len(),
                descs@.len() == j,
                forall|l: int|
                    0 <= l < j ==> (#[trigger] describe(sc, es@, ks[l])) == Ok::<Seq<char>, PathError>(
                        descs@[l]@,
                    ),
                !ok ==> !all_described(sc, es@, ks),
            decreases keys.len() - j + (if ok { 1int } else { 0int }),
        {
            assert(hash_get(es@, keys@[j as int]@) is Some);
            let child = hash_lookup(es, keys[j].as_str()).unwrap();
            match self.get_description(child) {
                Ok(d) => {
                    descs.push(d);
                },
                Err(_) => {
                    assert(describe(sc, es@, ks[j as int]) is Err);
                    ok = false;
                },
            }
            if ok {
                j = j + 1;
            }
        }
        let described = want && ok;
        if described {
            assert(all_described(sc, es@, ks));
        }
        let mut lines: Vec<String> = Vec::new();
        let mut i: usize = 0;
        while i < keys.len()
            invariant
                sc == self.scope(want),
                ks == strs_view(keys@),
                described ==> descs@.len() == keys@.len(),
                described ==> forall|l: int|
                    0 <= l < keys@.len() ==> (#[trigger] describe(sc, es@, ks[l])) == Ok::<
                        Seq<char>,
                        PathError,
                    >(descs@[l]@),
                i <= keys@.len(),
                described ==> strs_view(lines@) == described_lines(sc, acc@, es@, ks.take(i as int)),
                !described ==> strs_view(lines@) == key_lines(acc@, ks.take(i as int)),
            decreases keys.len() - i,
        {
            let ghost before = lines@;
            let ghost t = ks.take(i + 1);
            assert(t.drop_last() =~= ks.take(i as int));
            assert(t.last() == ks[i as int]);
            let line = concat(acc.as_str(), keys[i].as_str());
            lines.push(line);
            if described {
                lines.push(descs[i].clone());
                assert(strs_view(lines@) =~= strs_view(before) + seq![acc@ + ks[i as int], descs@[i as int]@]);
            } else {
                assert(strs_view(lines@) =~= strs_view(before).push(acc@ + ks[i as int]));
                assert(key_lines(acc@, t) =~= key_lines(acc@, ks.take(i as int)).push(acc@ + ks[i as int]));
            }
            i = i + 1;
        }
        assert(ks.take(keys@.len() as int) =~= ks);
        Completions { lines, described }
    }

    /// One line per element of an array of length `n`; see `index_lines`.
    fn list_indices(&self, acc: &String, n: usize) -> (r: Completions)
        ensures
            r@ == (CompletionSet { lines: index_lines(self.syntax(), acc@, n as nat), described: false }),
    {
        let base = if self.ap.array_ending(acc.as_str()) {
            let len = acc.as_str().unicode_len();
            acc.as_str().substring_char(0, len - 1).to_owned()
        } else {
            acc.clone()
        };
        assert(base@ =~= trim_open(self.syntax(), acc@));
        let mut lines: Vec<String> = Vec::new();
        let mut j: usize = 0;
        while j < n
            invariant
                base@ == trim_open(self.syntax(), acc@),
                j <= n,
                strs_view(lines@) =~= index_lines(self.syntax(), acc@, j as nat),
            decreases n - j,
        {
            let idx = self.ap.apply_index(j);
            let line = concat(base.as_str(), idx.as_str());
            let ghost before = lines@;
            lines.push(line);
            assert(strs_view(lines@) =~= strs_view(before).push(line@));
            assert(index_lines(self.syntax(), acc@, (j + 1) as nat) =~= index_lines(self.syntax(), acc@, j as nat).push(line@));
            j = j + 1;
        }
        Completions { lines, described: false }
    }

    /// The walk of `run`, one token or one level at a time.
    fn run_tokens(
        &self,
        toks: &Vec<Token>,
        i: usize,
        node: &Value,
        key: &str,
        terminated: bool,
        acc: String,
        want: bool,
    ) -> (r: Result<Completions, PathError>)
        requires
            i <= toks@.len(),
        ensures
            completion_outcome(
                r,
                run(self.scope(want), tokens_view(toks@), i as int, *node, key@, terminated, acc@),
            ),
        decreases toks@.len() - i, node,
    {
        let ghost sc = self.scope(want);
        let ghost tv = tokens_view(toks@);
        proof {
            reveal_strlit("");
            assert(""@ =~= Seq::<char>::empty());
        }
        if i >= toks.len() || self.has_terminal_field(node) {
            return Ok(single_line(acc));
        }
        let last = i + 1 == toks.len();
        match node {
            Value::Hash(es) => {
                if terminated {
                    match hash_lookup(es, key) {
                        None => Ok(no_lines()),
                        Some(child) => {
                            proof {
                                lemma_hash_get_below(*node, key@);
                            }
                            let mut acc2 = acc;
                            acc2.append(key);
                            acc2.append(sep(child, false));
                            if last {
                                self.run_tokens(toks, i, child, "", false, acc2, want)
                            } else {
                                let k2 = token_key_str(toks, i + 1);
                                let t2 = token_terminated_at(toks, i + 1);
                                self.run_tokens(toks, i + 1, child, k2, t2, acc2, want)
                            }
                        },
                    }
                } else {
                    let no_ignores: Vec<String> = Vec::new();
                    assert(strs_view(no_ignores@) =~= Seq::<Seq<char>>::empty());
                    let keys = keys_starting_with(key, es, &no_ignores);
                    let ghost ks = strs_view(keys@);
                    proof {
                        lemma_sorted_matches_are_keys(es@, key@, seq![]);
                        assert forall|j: int| 0 <= j < keys@.len() implies hash_get(
                            es@,
                            #[trigger] keys@[j]@,
                        ) is Some by {
                            assert(ks[j] == keys@[j]@);
                            lemma_hash_get_below(*node, ks[j]);
                        }
                    }
                    if keys.len() == 0 {
                        if es.len() == 1 {
                            let child = &es[0].1;
                            proof {
                                assert(decreases_to!(*node => (*node)->Hash_0));
                                assert(decreases_to!(*es => es@));
                                assert(decreases_to!(es@ => es@[0]));
                                assert(decreases_to!(es@[0] => es@[0].1));
                            }
                            let mut acc2 = acc;
                            acc2.append(es[0].0.as_str());
                            acc2.append(sep(child, false));
                            assert(acc2@ =~= acc@ + es@[0].0@ + sep_of(*child));
                            return self.run_tokens(toks, i, child, key, terminated, acc2, want);
                        }
                        return Ok(no_lines());
                    }
                    if keys.len() == 1 {
                        proof {
                            assert(ks[0] == keys@[0]@);
                            lemma_hash_get_below(*node, ks[0]);
                        }
                        let child = hash_lookup(es, keys[0].as_str()).unwrap();
                        let mut acc2 = acc;
                        acc2.append(keys[0].as_str());
                        if !self.has_terminal_field(child) {
                            acc2.append(sep(child, false));
                        }
                        assert(acc2@ =~= acc@ + ks[0] + tail_sep(sc, *child));
                        if last {
                            return self.run_tokens(toks, i, child, "", false, acc2, want);
                        } else {
                            let k2 = token_key_str(toks, i + 1);
                            let t2 = token_terminated_at(toks, i + 1);
                            return self.run_tokens(toks, i + 1, child, k2, t2, acc2, want);
                        }
                    }
                    Ok(self.list_keys_exec(&acc, es, &keys, want))
                }
            },
            Value::Array(a) => {
                assert(tv[i as int] == toks@[i as int]@);
                match toks[i].index {
                    Some(ix) => {
                        if ix >= a.len() {
                            return Err(PathError::IndexOutOfBounds);
                        }
                        let child = &a[ix];
                        let mut acc2 = acc;
                        let idx = self.ap.apply_index(ix);
                        acc2.append(idx.as_str());
                        if !self.has_terminal_field(child) {
                            acc2.append(sep(child, false));
                        }
                        assert(acc2@ =~= acc@ + render_index(sc.syn, ix as nat) + tail_sep(sc, *child));
                        let k2 = token_key_str(toks, i + 1);
                        let t2 = token_terminated_at(toks, i + 1);
                        self.run_tokens(toks, i + 1, child, k2, t2, acc2, want)
                    },
                    None => {
                        if a.len() == 1 {
                            let child = &a[0];
                            proof {
                                assert(decreases_to!(*node => (*node)->Array_0));
                                assert(decreases_to!(*a => a@));
                                assert(decreases_to!(a@ => a@[0]));
                            }
                            let mut acc2 = acc;
                            let idx = self.ap.apply_index(0);
                            acc2.append(idx.as_str());
                            if !self.has_terminal_field(child) {
                                acc2.append(sep(child, false));
                            }
                            assert(acc2@ =~= acc@ + render_index(sc.syn, 0) + tail_sep(sc, *child));
                            self.run_tokens(toks, i, child, key, terminated, acc2, want)
                        } else {
                            Ok(self.list_indices(&acc, a.len()))
                        }
                    },
                }
            },
            _ => Ok(single_line(acc)),
        }
    }

    /// The completions of the partly typed path `ipath`; see `complete`.
    pub fn completions(&self, ipath: &str, add_descriptions: bool) -> (r: Result<Completions, PathError>)
        ensures
            completion_outcome(r, complete(self.scope(add_descriptions), ipath@)),
    {
        let start = match enter_root_node(&self.doc, self.metadata.root.as_str()) {
            Ok(n) => n,
            Err(_) => return Ok(no_lines()),
        };
        let toks = tokenize_path(self.ap, ipath);
        let k0 = token_key_str(&toks, 0);
        let t0 = token_terminated_at(&toks, 0);
        self.run_tokens(&toks, 0, start, k0, t0, String::new(), add_descriptions)
    }

    /// Writes the completions of `ipath` to `writer`, one per line; with descriptions
    /// each followed by its description. Writes nothing when the walk fails.
    pub fn write_completions(&self, writer: &mut StrWriter, ipath: &str, add_descriptions: bool) -> (r: Result<
        (),
        PathError,
    >)
        ensures
            match complete(self.scope(add_descriptions), ipath@) {
                Ok(c) => r is Ok && final(writer)@ == old(writer)@ + joined(c.lines),
                Err(e) => r == Err::<(), PathError>(e) && final(writer)@ == old(writer)@,
            },
    {
        let c = match self.completions(ipath, add_descriptions) {
            Ok(c) => c,
            Err(e) => return Err(e),
        };
        let ghost start = writer@;
        let mut i: usize = 0;
        while i < c.lines.len()
            invariant
                i <= c.lines@.len(),
                writer@ == start + joined(strs_view(c.lines@).take(i as int)),
            decreases c.lines.len() - i,
        {
            let ghost t = strs_view(c.lines@).take(i + 1);
            assert(t.drop_last() =~= strs_view(c.lines@).take(i as int));
            proof {
                reveal_strlit("\n");
                assert("\n"@ =~= seq!['\n']);
            }
            writer.write_str(c.lines[i].as_str());
            writer.write_str("\n");
            assert(writer@ =~= start + joined(t));
            i = i + 1;
        }
        assert(strs_view(c.lines@).take(c.lines@.len() as int) =~= strs_view(c.lines@));
        Ok(())
    }
}

} // verus!
