//! Where a program looks for its completion file: the candidate paths, in order.
//! Reading the environment and testing which file exists is left to the caller.
use vstd::prelude::*;

use crate::rust_common::strs_view;
use crate::strings::chars_of;

verus! {

/// The search path used when none is given: the working directory, then
/// `<home>/.config/<arg0>`, then `/etc/<arg0>`.
pub open spec fn default_search_path(arg0: Seq<char>, home: Seq<char>) -> Seq<char> {
    ".:"@ + home + "/.config/"@ + arg0 + ":/etc/"@ + arg0
}

/// The pieces of `s` between colons; an empty `s` is one empty piece.
pub open spec fn split_colon(s: Seq<char>) -> Seq<Seq<char>>
    decreases s.len(),
{
    if s.len() == 0 {
        seq![seq![]]
    } else {
        let r = split_colon(s.drop_last());
        if s.last() == ':' {
            r.push(seq![])
        } else {
            r.update(r.len() - 1, r.last().push(s.last()))
        }
    }
}


/// The file that `arg0` looks for in directory `dir`.
pub open spec fn candidate(dir: Seq<char>, arg0: Seq<char>) -> Seq<char> {
    dir + "/"@ + arg0 + ".yaml"@
}

fn candidate_string(dir: &str, arg0: &str) -> (r: String)
    ensures
        r@ == candidate(dir@, arg0@),
{
    let mut r = dir.to_owned();
    r.append("/");
    r.append(arg0);
    r.append(".yaml");
    r
}

/// The default search path for `arg0` with home directory `home`.
pub fn default_path(arg0: &str, home: &str) -> (r: String)
    ensures
        r@ == default_search_path(arg0@, home@),
{
    let mut r = ".:".to_owned();
    r.append(home);
    r.append("/.config/");
    r.append(arg0);
    r.append(":/etc/");
    r.append(arg0);
    r
}

/// The files to try, in order: `<dir>/<arg0>.yaml` for each directory of `search_path`,
/// or of the default search path when none is given.
pub fn config_file_candidates(arg0: &str, home: &str, search_path: Option<&str>) -> (r: Vec<String>)
    ensures
        strs_view(r@) == split_colon(
            match search_path {
                Some(p) => p@,
                None => default_search_path(arg0@, home@),
            },
        ).map_values(|d: Seq<char>| candidate(d, arg0@)),
{
    let owned = match search_path {
        Some(p) => p.to_owned(),
        None => default_path(arg0, home),
    };
    let path = owned.as_str();
    let ghost s = path@;
    let cs = chars_of(path);
    let n = cs.len();
    let mut r: Vec<String> = Vec::new();
    let ghost mut pieces: Seq<Seq<char>> = seq![];
    let mut start: usize = 0;
    let mut j: usize = 0;
    assert(s.take(0) =~= Seq::<char>::empty());
    assert(s.subrange(0, 0) =~= Seq::<char>::empty());
    assert(pieces.push(s.subrange(0, 0)) =~= seq![seq![]]);
    while j < n
        invariant
            cs@ == s,
            s == path@,
            n == s.len(),
            start <= j <= n,
            split_colon(s.take(j as int)) == pieces.push(s.subrange(start as int, j as int)),
            strs_view(r@) == pieces.map_values(|d: Seq<char>| candidate(d, arg0@)),
        decreases n - j,
    {
        let ghost t = s.take(j + 1);
        assert(t.drop_last() =~= s.take(j as int));
        assert(t.last() == s[j as int]);
        if cs[j] == ':' {
            let piece = path.substring_char(start, j);
            let c = candidate_string(piece, arg0);
            let ghost before = r@;
            r.push(c);
            proof {
                let old_pieces = pieces;
                pieces = pieces.push(s.subrange(start as int, j as int));
                assert(strs_view(r@) =~= strs_view(before).push(c@));
                assert(pieces.map_values(|d: Seq<char>| candidate(d, arg0@)) =~= old_pieces.map_values(
                    |d: Seq<char>| candidate(d, arg0@),
                ).push(c@));
                assert(s.subrange(j + 1, j + 1) =~= Seq::<char>::empty());
                assert(split_colon(t) =~= pieces.push(s.subrange(j + 1, j + 1)));
            }
            start = j + 1;
        } else {
            proof {
                let r0 = split_colon(s.take(j as int));
                assert(s.subrange(start as int, j + 1) =~= s.subrange(start as int, j as int).push(s[j as int]));
                assert(split_colon(t) =~= r0.update(r0.len() - 1, r0.last().push(s[j as int])));
                assert(r0.update(r0.len() - 1, r0.last().push(s[j as int])) =~= pieces.push(
                    s.subrange(start as int, j + 1),
                ));
            }
        }
        j = j + 1;
    }
    let piece = path.substring_char(start, n);
    let c = candidate_string(piece, arg0);
    let ghost before = r@;
    r.push(c);
    proof {
        assert(s.take(n as int) =~= s);
        assert(strs_view(r@) =~= strs_view(before).push(c@));
        let all = pieces.push(s.subrange(start as int, n as int));
        assert(all.map_values(|d: Seq<char>| candidate(d, arg0@)) =~= pieces.map_values(
            |d: Seq<char>| candidate(d, arg0@),
        ).push(c@));
    }
    r
}

} // verus!
