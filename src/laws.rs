//! Properties that hold of every document and every path.
use vstd::prelude::*;

use crate::arrayparser::{
    digit_run, digits_value, ends_with_open, index_opener, is_digit, key_run, match_at, render_index,
    tokenize, tokens_from, ArraySyntax, PathToken,
};
use crate::get_metadata::has_terminal;
use crate::rust_common::{
    insert_sorted, is_sorted, is_strictly_sorted, lemma_matching_keys_distinct, lemma_sort_strs_distinct,
    lemma_sort_strs_multiset, lemma_sort_strs_sorted, lemma_sorted_distinct_strict, lemma_sorted_keys_exactly,
    matching_keys, sort_strs,
};
use crate::strings::{decimal, digit_char, is_prefix_of};
use crate::value::{has_key, hash_get, keys_unique, sep_of, PathError, Value};
use crate::write_completions::{
    done, key_lines, run, tail_sep, token_key, token_terminated, CompletionSet, Scope,
};
use crate::yaml_descender::YamlDescender;
use crate::yaml_path::{field_or_parent, inherited, parent_key, resolve, same_outcome, MAX_PARENT_HOPS};

verus! {

/// Resolution has no hidden state: two results of `yaml_descend_path` on the same
/// descender and the same path are the same node, or the same error.
pub proof fn law_resolution_is_deterministic(
    d: YamlDescender,
    p: Seq<char>,
    r1: Result<&Value, PathError>,
    r2: Result<&Value, PathError>,
)
    requires
        same_outcome(r1, resolve(d.document(), d.root_key(), d.syntax(), p)),
        same_outcome(r2, resolve(d.document(), d.root_key(), d.syntax(), p)),
    ensures
        r1 == r2,
{
}

/// A hash with a single key is passed through: while completing, the typed fragment need
/// not match that key. A prefix of the key (the empty one too) descends into its value as
/// if the key had been typed in full; any other fragment descends into the value as well
/// and is read again there.
pub proof fn law_singleton_collapse(
    sc: Scope,
    toks: Seq<PathToken>,
    i: int,
    node: Value,
    key: Seq<char>,
    acc: Seq<char>,
)
    requires
        0 <= i < toks.len(),
        node is Hash,
        node->Hash_0@.len() == 1,
        !has_terminal(sc.terminal, node),
    ensures
        ({
            let k = node->Hash_0@[0].0@;
            let child = node->Hash_0@[0].1;
            let acc2 = acc + k + tail_sep(sc, child);
            run(sc, toks, i, node, key, false, acc) == if !is_prefix_of(key, k) {
                run(sc, toks, i, child, key, false, acc + k + sep_of(child))
            } else if i + 1 == toks.len() {
                run(sc, toks, i, child, seq![], false, acc2)
            } else {
                run(sc, toks, i + 1, child, token_key(toks, i + 1), token_terminated(toks, i + 1), acc2)
            }
        }),
{
    let es = node->Hash_0@;
    let k = es[0].0@;
    let e: Seq<(String, Value)> = es.drop_last();
    assert(e.len() == 0);
    assert(!Seq::<Seq<char>>::empty().contains(k));
    assert(matching_keys(e, key, seq![]) =~= Seq::<Seq<char>>::empty());
    assert(es.last() == es[0]);
    assert(seq![k].drop_last() =~= Seq::<Seq<char>>::empty());
    if is_prefix_of(key, k) {
        assert(matching_keys(es, key, seq![]) =~= seq![k]);
        assert(sort_strs(seq![k]) == insert_sorted(k, sort_strs(Seq::<Seq<char>>::empty())));
        assert(sort_strs(seq![k]) =~= seq![k]);
        assert(hash_get(es, k) == Some(es[0].1));
    } else {
        assert(matching_keys(es, key, seq![]) =~= Seq::<Seq<char>>::empty());
    }
}

/// Once a hash holds a terminal field, completion stops there: whatever tokens are
/// left, the path written so far is the one candidate.
pub proof fn law_terminal_field_stops(
    sc: Scope,
    toks: Seq<PathToken>,
    i: int,
    node: Value,
    key: Seq<char>,
    terminated: bool,
    acc: Seq<char>,
)
    requires
        0 <= i,
        has_terminal(sc.terminal, node),
    ensures
        run(sc, toks, i, node, key, terminated, acc) == Ok::<CompletionSet, PathError>(done(acc)),
{
}

/// Completing a prefix `s` at a hash with two or more keys that start with `s` lists
/// exactly those keys, in ascending order, each after the path written so far. In a
/// well-formed hash, whose keys are unique, the order is strict.
pub proof fn law_prefix_listing(
    sc: Scope,
    toks: Seq<PathToken>,
    i: int,
    node: Value,
    s: Seq<char>,
    acc: Seq<char>,
)
    requires
        0 <= i < toks.len(),
        node is Hash,
        !has_terminal(sc.terminal, node),
        !sc.want,
        matching_keys(node->Hash_0@, s, seq![]).len() >= 2,
    ensures
        ({
            let es = node->Hash_0@;
            let ks = sort_strs(matching_keys(es, s, seq![]));
            &&& run(sc, toks, i, node, s, false, acc) == Ok::<CompletionSet, PathError>(
                CompletionSet { lines: key_lines(acc, ks), described: false },
            )
            &&& is_sorted(ks)
            &&& ks.to_multiset() == matching_keys(es, s, seq![]).to_multiset()
            &&& forall|k: Seq<char>| ks.contains(k) <==> (has_key(es, k) && is_prefix_of(s, k))
            &&& node.well_formed() ==> is_strictly_sorted(ks)
        }),
{
    let es = node->Hash_0@;
    let m = matching_keys(es, s, seq![]);
    lemma_sort_strs_multiset(m);
    lemma_sort_strs_sorted(m);
    lemma_sorted_keys_exactly(es, s, seq![]);
    assert(!Seq::<Seq<char>>::empty().contains(s));
    assert forall|k: Seq<char>| sort_strs(m).contains(k) <==> (has_key(es, k) && is_prefix_of(s, k)) by {
        assert(!Seq::<Seq<char>>::empty().contains(k));
    }
    if node.well_formed() {
        assert(keys_unique(es));
        lemma_matching_keys_distinct(es, s, seq![]);
        lemma_sort_strs_distinct(m);
        lemma_sorted_distinct_strict(sort_strs(m));
    }
}

proof fn lemma_inherited_more_fuel(
    doc: Value,
    prefix: Seq<char>,
    syn: ArraySyntax,
    node: Value,
    f: Seq<char>,
    k: nat,
)
    requires
        inherited(doc, prefix, syn, node, f, k) != Err::<Value, PathError>(PathError::CyclicParentChain),
    ensures
        inherited(doc, prefix, syn, node, f, k + 1) == inherited(doc, prefix, syn, node, f, k),
    decreases k,
{
    if let Value::Hash(es) = node {
        if hash_get(es@, f) is None {
            if let Some(Value::String(p)) = hash_get(es@, parent_key()) {
                if k > 0 {
                    if let Ok(n) = resolve(doc, prefix, syn, p@) {
                        lemma_inherited_more_fuel(doc, prefix, syn, n, f, (k - 1) as nat);
                    }
                }
            }
        }
    }
}

/// A node without the field `f` but with a `parent` pointer has the field that the node
/// at the pointer's path has. The one exception is a chain that reaches the bound on
/// pointers from `node` but not from the parent.
pub proof fn law_parent_chain(
    doc: Value,
    prefix: Seq<char>,
    syn: ArraySyntax,
    node: Value,
    f: Seq<char>,
    parent: Value,
)
    requires
        node is Hash,
        hash_get(node->Hash_0@, f) is None,
        hash_get(node->Hash_0@, parent_key()) matches Some(Value::String(p)) && resolve(doc, prefix, syn, p@)
            == Ok::<Value, PathError>(parent),
        !(field_or_parent(doc, prefix, syn, node, f) == Err::<Value, PathError>(PathError::CyclicParentChain)
            && field_or_parent(doc, prefix, syn, parent, f) != Err::<Value, PathError>(
            PathError::CyclicParentChain,
        )),
    ensures
        field_or_parent(doc, prefix, syn, node, f) == field_or_parent(doc, prefix, syn, parent, f),
{
    let k = (MAX_PARENT_HOPS - 1) as nat;
    assert(field_or_parent(doc, prefix, syn, node, f) == inherited(doc, prefix, syn, parent, f, k));
    if inherited(doc, prefix, syn, parent, f, k) != Err::<Value, PathError>(PathError::CyclicParentChain) {
        lemma_inherited_more_fuel(doc, prefix, syn, parent, f, k);
    }
}

proof fn lemma_digit_char(d: nat)
    requires
        d < 10,
    ensures
        is_digit(digit_char(d)),
        digit_char(d) as int - '0' as int == d,
{
}

proof fn lemma_decimal_digits(n: nat)
    ensures
        decimal(n).len() >= 1,
        forall|j: int| 0 <= j < decimal(n).len() ==> is_digit(#[trigger] decimal(n)[j]),
        digits_value(decimal(n)) == n,
    decreases n,
{
    if n < 10 {
        lemma_digit_char(n);
        let d = decimal(n);
        assert(d.drop_last() =~= Seq::<char>::empty());
        assert(digits_value(d.drop_last()) == 0);
        assert(d.last() == digit_char(n));
        assert(digits_value(d) == digits_value(d.drop_last()) * 10 + (d.last() as int - '0' as int) as nat);
    } else {
        lemma_decimal_digits(n / 10);
        lemma_digit_char(n % 10);
        let d = decimal(n);
        assert(d.drop_last() =~= decimal(n / 10));
        assert((n / 10) * 10 + n % 10 == n) by (nonlinear_arith);
        assert(d.last() == digit_char(n % 10));
        assert(digits_value(d) == digits_value(d.drop_last()) * 10 + (d.last() as int - '0' as int) as nat);
    }
}

proof fn lemma_digit_run_exact(s: Seq<char>, pos: int, len: int)
    requires
        0 <= pos,
        0 <= len,
        pos + len <= s.len(),
        forall|j: int| pos <= j < pos + len ==> is_digit(#[trigger] s[j]),
        pos + len < s.len() ==> !is_digit(s[pos + len]),
    ensures
        digit_run(s, pos) == len,
    decreases len,
{
    if len > 0 {
        lemma_digit_run_exact(s, pos + 1, len - 1);
    }
}

/// An index written in a dialect reads back as that index, and as nothing else; a path
/// that ends in the index opener is open, one that ends in a written index is not.
pub proof fn law_index_round_trip(syn: ArraySyntax, n: usize, s: Seq<char>)
    ensures
        tokenize(syn, render_index(syn, n as nat)) == seq![
            PathToken { key: None, index: Some(n), terminated: false },
        ],
        syn == ArraySyntax::Bracket ==> render_index(syn, n as nat) == seq!['['] + decimal(n as nat) + seq![']'],
        syn == ArraySyntax::At ==> render_index(syn, n as nat) == seq!['@'] + decimal(n as nat),
        ends_with_open(syn, s.push(index_opener(syn))),
        !ends_with_open(syn, s + render_index(syn, n as nat)),
{
    let d = decimal(n as nat);
    let r = render_index(syn, n as nat);
    lemma_decimal_digits(n as nat);
    assert(r[0] == index_opener(syn));
    assert(key_run(syn, r, 0) == 0);
    assert forall|j: int| 1 <= j < 1 + d.len() implies is_digit(#[trigger] r[j]) by {
        assert(r[j] == d[j - 1]);
    }
    lemma_digit_run_exact(r, 1, d.len() as int);
    assert(r.subrange(1, 1 + d.len() as int) =~= d);
    let t = PathToken { key: None, index: Some(n), terminated: false };
    assert(match_at(syn, r, 0) == (r.len(), t));
    assert(match_at(syn, r, r.len() as int).0 == 0);
    assert(tokens_from(syn, r, r.len() as int + 1, false) =~= Seq::<PathToken>::empty());
    assert(tokens_from(syn, r, r.len() as int, true) =~= Seq::<PathToken>::empty());
    assert(tokens_from(syn, r, 0, false) =~= seq![t]);
    let w = s + r;
    assert(w.last() == r.last());
    assert(is_digit(d[d.len() - 1]));
}

} // verus!
