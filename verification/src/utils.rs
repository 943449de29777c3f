use vstd::prelude::*;

use vstd::set::{axiom_set_difference_finite, axiom_set_remove_len};

use crate::strutil::{str_eq, string_push};

verus! {

/// Why response-file expansion stopped.
#[derive(Debug)]
pub enum ExpandError {
    /// The named response file is already being expanded further up: the
    /// references form a cycle.
    Cycle(String),
    /// The named response file's contents are not in the map the caller
    /// passed; the caller may read it and try again.
    Missing(String),
}

pub enum ExpandErrorView {
    Cycle(Seq<char>),
    Missing(Seq<char>),
}

impl View for ExpandError {
    type V = ExpandErrorView;

    open spec fn view(&self) -> ExpandErrorView {
        match self {
            ExpandError::Cycle(s) => ExpandErrorView::Cycle(s@),
            ExpandError::Missing(s) => ExpandErrorView::Missing(s@),
        }
    }
}

/// A token that names a response file to splice in.
pub open spec fn spec_is_response(t: Seq<char>) -> bool {
    t.len() > 0 && t[0] == '@'
}

/// First entry of the map with the given name, if any.
pub open spec fn spec_lookup(
    files: Seq<(Seq<char>, Seq<Seq<char>>)>,
    name: Seq<char>,
) -> Option<Seq<Seq<char>>>
    decreases files.len(),
{
    if files.len() == 0 {
        Option::None
    } else if files.first().0 == name {
        Option::Some(files.first().1)
    } else {
        spec_lookup(files.drop_first(), name)
    }
}

/// The set of response-file names the map knows.
pub open spec fn spec_keys(files: Seq<(Seq<char>, Seq<Seq<char>>)>) -> Set<Seq<char>>
    decreases files.len(),
{
    if files.len() == 0 {
        Set::empty()
    } else {
        spec_keys(files.drop_first()).insert(files.first().0)
    }
}

/// The set of names in a plain list.
pub open spec fn spec_name_set(names: Seq<Seq<char>>) -> Set<Seq<char>>
    decreases names.len(),
{
    if names.len() == 0 {
        Set::empty()
    } else {
        spec_name_set(names.drop_first()).insert(names.first())
    }
}

proof fn lemma_keys_finite(files: Seq<(Seq<char>, Seq<Seq<char>>)>)
    ensures
        spec_keys(files).finite(),
    decreases files.len(),
{
    if files.len() > 0 {
        lemma_keys_finite(files.drop_first());
    }
}

proof fn lemma_lookup_in_keys(files: Seq<(Seq<char>, Seq<Seq<char>>)>, name: Seq<char>)
    requires
        spec_lookup(files, name) is Some,
    ensures
        spec_keys(files).contains(name),
    decreases files.len(),
{
    if files.len() > 0 && files.first().0 != name {
        lemma_lookup_in_keys(files.drop_first(), name);
    }
}

proof fn lemma_name_set_push(names: Seq<Seq<char>>, x: Seq<char>)
    ensures
        spec_name_set(names.push(x)) =~= spec_name_set(names).insert(x),
    decreases names.len(),
{
    reveal_with_fuel(spec_name_set, 3);
    if names.len() == 0 {
        assert(names.push(x).first() == x);
        assert(names.push(x).drop_first() =~= Seq::<Seq<char>>::empty());
    } else {
        let d = names.drop_first();
        assert(names.push(x).first() == names.first());
        assert(names.push(x).drop_first() =~= d.push(x));
        assert(spec_name_set(names.push(x)) == spec_name_set(d.push(x)).insert(names.first()));
        lemma_name_set_push(d, x);
        assert(spec_name_set(d.push(x)) == spec_name_set(d).insert(x));
        assert(spec_name_set(names) == spec_name_set(d).insert(names.first()));
        assert(spec_name_set(d).insert(x).insert(names.first()) =~= spec_name_set(d).insert(
            names.first(),
        ).insert(x));
    }
}

proof fn lemma_name_set_contains(names: Seq<Seq<char>>, x: Seq<char>)
    ensures
        spec_name_set(names).contains(x) <==> (exists|i: int|
            0 <= i < names.len() && names[i] == x),
    decreases names.len(),
{
    if names.len() > 0 {
        lemma_name_set_contains(names.drop_first(), x);
        if spec_name_set(names).contains(x) {
            if names.first() == x {
                assert(names[0] == x);
            } else {
                let i = choose|i: int| 0 <= i < names.drop_first().len() && names.drop_first()[i]
                    == x;
                assert(names[i + 1] == x);
            }
        }
        if exists|i: int| 0 <= i < names.len() && names[i] == x {
            let i = choose|i: int| 0 <= i < names.len() && names[i] == x;
            if i > 0 {
                assert(names.drop_first()[i - 1] == x);
            }
        }
    }
}

/// Expansion of the token stream from position `ti` on, while the names in
/// `active` are being expanded further up the recursion: each `@`-token is
/// replaced by the expansion of the named file's tokens; a name already
/// active is a cycle, a name the map lacks must be supplied by the caller.
/// The measure pairs the response files not yet active with the tokens left,
/// so a cycle is reported rather than recursed into.
pub open spec fn spec_expand(
    tokens: Seq<Seq<char>>,
    ti: int,
    files: Seq<(Seq<char>, Seq<Seq<char>>)>,
    active: Set<Seq<char>>,
) -> Result<Seq<Seq<char>>, ExpandErrorView>
    decreases spec_keys(files).difference(active).len(), tokens.len() - ti,
    when 0 <= ti
    via spec_expand_decreases
{
    if ti >= tokens.len() {
        Ok(Seq::empty())
    } else {
        let t = tokens[ti];
        if spec_is_response(t) {
            let name = t.skip(1);
            if active.contains(name) {
                Err(ExpandErrorView::Cycle(name))
            } else {
                match spec_lookup(files, name) {
                    Option::None => Err(ExpandErrorView::Missing(name)),
                    Option::Some(sub) => match spec_expand(sub, 0, files, active.insert(name)) {
                        Err(e) => Err(e),
                        Ok(expanded) => match spec_expand(tokens, ti + 1, files, active) {
                            Err(e) => Err(e),
                            Ok(rest) => Ok(expanded + rest),
                        },
                    },
                }
            }
        } else {
            match spec_expand(tokens, ti + 1, files, active) {
                Err(e) => Err(e),
                Ok(rest) => Ok(seq![t] + rest),
            }
        }
    }
}

#[via_fn]
proof fn spec_expand_decreases(
    tokens: Seq<Seq<char>>,
    ti: int,
    files: Seq<(Seq<char>, Seq<Seq<char>>)>,
    active: Set<Seq<char>>,
) {
    if ti < tokens.len() {
        let t = tokens[ti];
        if spec_is_response(t) {
            let name = t.skip(1);
            if !active.contains(name) && spec_lookup(files, name) is Some {
                lemma_expand_measure(files, active, name);
            }
        }
    }
}

/// Expanding into a file that is in the map and not yet active strictly
/// shrinks the set of response files left to enter.
proof fn lemma_expand_measure(
    files: Seq<(Seq<char>, Seq<Seq<char>>)>,
    active: Set<Seq<char>>,
    name: Seq<char>,
)
    requires
        !active.contains(name),
        spec_lookup(files, name) is Some,
    ensures
        spec_keys(files).difference(active.insert(name)).len() < spec_keys(files).difference(
            active,
        ).len(),
{
    lemma_keys_finite(files);
    lemma_lookup_in_keys(files, name);
    let d = spec_keys(files).difference(active);
    axiom_set_difference_finite(spec_keys(files), active);
    assert(d.contains(name));
    assert(spec_keys(files).difference(active.insert(name)) =~= d.remove(name));
    axiom_set_remove_len(d, name);
}

fn active_contains(active: &Vec<String>, name: &str) -> (r: bool)
    ensures
        r == spec_name_set(active.deep_view()).contains(name@),
{
    proof {
        lemma_name_set_contains(active.deep_view(), name@);
        assert(active.deep_view().len() == active@.len());
    }
    let mut i: usize = 0;
    while i < active.len()
        invariant
            i <= active@.len(),
            active.deep_view().len() == active@.len(),
            forall|j: int| 0 <= j < i ==> active.deep_view()[j] != name@,
        decreases active@.len() - i,
    {
        proof {
            assert(active.deep_view()[i as int] == active@[i as int]@);
        }
        if str_eq(active[i].as_str(), name) {
            proof {
                lemma_name_set_contains(active.deep_view(), name@);
            }
            return true;
        }
        i = i + 1;
    }
    proof {
        lemma_name_set_contains(active.deep_view(), name@);
    }
    false
}

fn lookup_file<'a>(files: &'a Vec<(String, Vec<String>)>, name: &str) -> (r: Option<
    &'a Vec<String>,
>)
    ensures
        (match r {
            Option::Some(v) => spec_lookup(files.deep_view(), name@) == Option::Some(
                v.deep_view(),
            ),
            Option::None => spec_lookup(files.deep_view(), name@) is None,
        }),
{
    let ghost fv = files.deep_view();
    proof {
        assert(fv.len() == files@.len());
        assert(fv.skip(0) =~= fv);
    }
    let mut i: usize = 0;
    while i < files.len()
        invariant
            i <= files@.len(),
            fv == files.deep_view(),
            fv.len() == files@.len(),
            spec_lookup(fv, name@) == spec_lookup(fv.skip(i as int), name@),
        decreases files@.len() - i,
    {
        proof {
            assert(fv.skip(i as int).first() == fv[i as int]);
            assert(fv.skip(i as int).drop_first() =~= fv.skip(i + 1));
            assert(fv[i as int] == (files@[i as int].0@, files@[i as int].1.deep_view()));
        }
        if str_eq(files[i].0.as_str(), name) {
            return Option::Some(&files[i].1);
        }
        i = i + 1;
    }
    proof {
        assert(fv.skip(i as int) =~= Seq::<(Seq<char>, Seq<Seq<char>>)>::empty());
    }
    Option::None
}

fn clone_names(v: &Vec<String>) -> (r: Vec<String>)
    ensures
        r.deep_view() == v.deep_view(),
{
    let mut r: Vec<String> = Vec::new();
    let mut i: usize = 0;
    proof {
        assert(v.deep_view().len() == v@.len());
    }
    while i < v.len()
        invariant
            i <= v@.len(),
            r.deep_view() =~= v.deep_view().take(i as int),
        decreases v@.len() - i,
    {
        let ghost prev = r.deep_view();
        r.push(v[i].clone());
        proof {
            assert(v.deep_view()[i as int] == v@[i as int]@);
            assert(r.deep_view() =~= prev + seq![v@[i as int]@]);
            assert(r.deep_view() =~= v.deep_view().take(i + 1));
        }
        i = i + 1;
    }
    proof {
        assert(v.deep_view().take(i as int) =~= v.deep_view());
    }
    r
}

/// Expands the stream from `ti` on, with `active` holding the names of the
/// response files currently being expanded up the call chain.
#[verifier::loop_isolation(false)]
fn expand_inner(
    tokens: &Vec<String>,
    ti: usize,
    files: &Vec<(String, Vec<String>)>,
    active: &Vec<String>,
) -> (r: Result<Vec<String>, ExpandError>)
    ensures
        ({
            let s = spec_expand(
                tokens.deep_view(),
                ti as int,
                files.deep_view(),
                spec_name_set(active.deep_view()),
            );
            match r {
                Ok(v) => s == Ok::<Seq<Seq<char>>, ExpandErrorView>(v.deep_view()),
                Err(e) => s == Err::<Seq<Seq<char>>, ExpandErrorView>(e@),
            }
        }),
    decreases spec_keys(files.deep_view()).difference(spec_name_set(active.deep_view())).len(),
        tokens.deep_view().len() - ti,
{
    let ghost tv = tokens.deep_view();
    let ghost av = spec_name_set(active.deep_view());
    proof {
        assert(tv.len() == tokens@.len());
    }
    if ti >= tokens.len() {
        let r: Vec<String> = Vec::new();
        proof {
            assert(r.deep_view() =~= Seq::<Seq<char>>::empty());
        }
        return Ok(r);
    }
    let t: &String = &tokens[ti];
    proof {
        assert(tv[ti as int] == tokens@[ti as int]@);
    }
    let n = t.as_str().unicode_len();
    let is_resp = n > 0 && t.as_str().get_char(0) == '@';
    if is_resp {
        let name: &str = t.as_str().substring_char(1, n);
        proof {
            assert(name@ =~= tv[ti as int].skip(1));
        }
        if active_contains(active, name) {
            return Err(ExpandError::Cycle(name.to_owned()));
        }
        match lookup_file(files, name) {
            Option::None => Err(ExpandError::Missing(name.to_owned())),
            Option::Some(sub) => {
                let mut active2 = clone_names(active);
                active2.push(name.to_owned());
                proof {
                    assert(active2.deep_view() =~= active.deep_view().push(name@));
                    lemma_name_set_push(active.deep_view(), name@);
                    lemma_expand_measure(files.deep_view(), av, name@);
                }
                match expand_inner(sub, 0, files, &active2) {
                    Err(e) => Err(e),
                    Ok(expanded) => match expand_inner(tokens, ti + 1, files, active) {
                        Err(e) => Err(e),
                        Ok(rest) => {
                            let ghost ev = expanded.deep_view();
                            let ghost rv = rest.deep_view();
                            let mut out = expanded;
                            let mut rest2 = rest;
                            out.append(&mut rest2);
                            proof {
                                assert(out.deep_view() =~= ev + rv);
                            }
                            Ok(out)
                        },
                    },
                }
            },
        }
    } else {
        match expand_inner(tokens, ti + 1, files, active) {
            Err(e) => Err(e),
            Ok(rest) => {
                let ghost rv = rest.deep_view();
                let mut out: Vec<String> = Vec::new();
                out.push(t.clone());
                let mut rest2 = rest;
                out.append(&mut rest2);
                proof {
                    assert(out.deep_view() =~= seq![tv[ti as int]] + rv);
                }
                Ok(out)
            },
        }
    }
}

/// Splices every `@file` token's contents into the stream, recursively.
/// `files` maps each response file's name (as it stands after the `@`) to
/// its whitespace-split tokens; a missing name comes back as
/// `ExpandError::Missing` so the caller can read the file and try again, and
/// a circular reference as `ExpandError::Cycle` rather than looping forever.
pub fn expand_response_files(
    tokens: &Vec<String>,
    files: &Vec<(String, Vec<String>)>,
) -> (r: Result<Vec<String>, ExpandError>)
    ensures
        ({
            let s = spec_expand(tokens.deep_view(), 0, files.deep_view(), Set::empty());
            match r {
                Ok(v) => s == Ok::<Seq<Seq<char>>, ExpandErrorView>(v.deep_view()),
                Err(e) => s == Err::<Seq<Seq<char>>, ExpandErrorView>(e@),
            }
        }),
{
    let active: Vec<String> = Vec::new();
    proof {
        assert(spec_name_set(active.deep_view()) =~= Set::<Seq<char>>::empty());
    }
    expand_inner(tokens, 0, files, &active)
}

/// The whitespace that separates tokens inside a response file.
pub open spec fn spec_is_space(c: char) -> bool {
    c == ' ' || c == '\t' || c == '\r' || c == '\n'
}

/// Splitting from position `i` on, with `cur` the token being gathered.
pub open spec fn spec_split_ws_from(s: Seq<char>, i: int, cur: Seq<char>) -> Seq<Seq<char>>
    decreases s.len() - i,
    when 0 <= i
{
    if i >= s.len() {
        if cur.len() > 0 {
            seq![cur]
        } else {
            Seq::empty()
        }
    } else if spec_is_space(s[i]) {
        (if cur.len() > 0 {
            seq![cur]
        } else {
            Seq::empty()
        }) + spec_split_ws_from(s, i + 1, Seq::empty())
    } else {
        spec_split_ws_from(s, i + 1, cur.push(s[i]))
    }
}

/// The whitespace-split tokens of a response file's text, in order, with no
/// empty tokens.
pub open spec fn spec_split_whitespace(s: Seq<char>) -> Seq<Seq<char>> {
    spec_split_ws_from(s, 0, Seq::empty())
}

/// Splits a response file's text on spaces, tabs and line ends.
#[verifier::loop_isolation(false)]
pub fn split_whitespace_tokens(content: &str) -> (r: Vec<String>)
    ensures
        r.deep_view() == spec_split_whitespace(content@),
{
    let n = content.unicode_len();
    let mut r: Vec<String> = Vec::new();
    let mut cur = String::new();
    let mut i: usize = 0;
    proof {
        assert(r.deep_view() =~= Seq::<Seq<char>>::empty());
    }
    while i < n
        invariant
            i <= n,
            spec_split_whitespace(content@) == r.deep_view() + spec_split_ws_from(
                content@,
                i as int,
                cur@,
            ),
        decreases n - i,
    {
        let c = content.get_char(i);
        let ghost prevr = r.deep_view();
        let ghost prevc = cur@;
        if c == ' ' || c == '\t' || c == '\r' || c == '\n' {
            if !cur.as_str().is_empty() {
                let ghost cv = cur@;
                r.push(cur);
                cur = String::new();
                proof {
                    assert(r.deep_view() =~= prevr + seq![cv]);
                    assert(spec_split_ws_from(content@, i as int, prevc) == seq![cv]
                        + spec_split_ws_from(content@, i + 1, cur@));
                    assert(prevr + (seq![cv] + spec_split_ws_from(content@, i + 1, cur@)) =~= r
                        .deep_view() + spec_split_ws_from(content@, i + 1, cur@));
                }
            } else {
                proof {
                    assert(spec_split_ws_from(content@, i as int, prevc)
                        == Seq::<Seq<char>>::empty() + spec_split_ws_from(
                        content@,
                        i + 1,
                        Seq::<char>::empty(),
                    ));
                    assert(Seq::<Seq<char>>::empty() + spec_split_ws_from(
                        content@,
                        i + 1,
                        Seq::<char>::empty(),
                    ) =~= spec_split_ws_from(content@, i + 1, Seq::<char>::empty()));
                    assert(cur@ =~= Seq::<char>::empty());
                }
            }
        } else {
            string_push(&mut cur, c);
            proof {
                assert(cur@ == prevc.push(content@[i as int]));
            }
        }
        i = i + 1;
    }
    if !cur.as_str().is_empty() {
        let ghost prevr = r.deep_view();
        let ghost cv = cur@;
        r.push(cur);
        proof {
            assert(r.deep_view() =~= prevr + seq![cv]);
        }
    }
    proof {
        assert(spec_split_whitespace(content@) =~= r.deep_view());
    }
    r
}

} // verus!
