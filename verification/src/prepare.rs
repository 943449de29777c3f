use vstd::prelude::*;

use crate::compiler::{
    arc_clone, Arg, ArgView, CommandInfo, CompilationArgs, CompilationArgsView, CompilationTask,
    CompilationTaskView, InputKind, OutputKind, PCHArgs, PCHArgsView, PCHUsage, PCHUsageView,
    PrepareError, PrepareErrorView, Scope,
};
use crate::paths::{
    absolutize, find_last_dot, find_name_start, join_path, lemma_absolutize_absolute,
    lemma_file_name_suffix, lemma_last_dot_none, lemma_last_dot_some, spec_absolutize,
    spec_file_name, spec_is_absolute, spec_join, spec_last_dot, spec_with_extension,
    with_extension,
};
use crate::strutil::{spec_eq_nocase, str_eq, str_eq_nocase, str_starts_with};

verus! {

/// A token is a flag token when it begins with the `/` or `-` sigil;
/// otherwise it is a plain input (a source file name).
pub open spec fn spec_has_param_prefix(arg: Seq<char>) -> bool {
    arg.len() > 0 && (arg[0] == '/' || arg[0] == '-')
}

/// Tells a flag token (`/c`, `-I...`) from a plain input token.
pub fn has_param_prefix(arg: &str) -> (r: bool)
    ensures
        r == spec_has_param_prefix(arg@),
{
    if arg.unicode_len() == 0 {
        return false;
    }
    let c = arg.get_char(0);
    c == '/' || c == '-'
}

/// The spaceable-prefix table: flags whose value may be joined to the prefix
/// or, when the flag is exactly the prefix, supplied by the next token.
/// The first matching prefix decides, in the order written here.
pub open spec fn spec_spaceable(flag: Seq<char>) -> Option<(Seq<char>, Scope)> {
    if "D"@.is_prefix_of(flag) {
        Option::Some(("D"@, Scope::Shared))
    } else if "I"@.is_prefix_of(flag) {
        Option::Some(("I"@, Scope::Preprocessor))
    } else if "sourceDependencies"@.is_prefix_of(flag) {
        Option::Some(("sourceDependencies"@, Scope::Preprocessor))
    } else if "W"@.is_prefix_of(flag) {
        Option::Some(("W"@, Scope::Compiler))
    } else if "wd"@.is_prefix_of(flag) {
        Option::Some(("wd"@, Scope::Compiler))
    } else if "we"@.is_prefix_of(flag) {
        Option::Some(("we"@, Scope::Compiler))
    } else if "wo"@.is_prefix_of(flag) {
        Option::Some(("wo"@, Scope::Compiler))
    } else if "w"@.is_prefix_of(flag) {
        Option::Some(("w"@, Scope::Compiler))
    } else {
        Option::None
    }
}

/// Looks the flag (sigil already stripped) up in the spaceable-prefix table.
pub fn is_spaceable_param(flag: &str) -> (r: Option<(&'static str, Scope)>)
    ensures
        ({
            let s = spec_spaceable(flag@);
            match r {
                Option::Some(p) => s == Option::Some((p.0@, p.1)),
                Option::None => s is None,
            }
        }),
{
    if str_starts_with(flag, "D") {
        Option::Some(("D", Scope::Shared))
    } else if str_starts_with(flag, "I") {
        Option::Some(("I", Scope::Preprocessor))
    } else if str_starts_with(flag, "sourceDependencies") {
        Option::Some(("sourceDependencies", Scope::Preprocessor))
    } else if str_starts_with(flag, "W") {
        Option::Some(("W", Scope::Compiler))
    } else if str_starts_with(flag, "wd") {
        Option::Some(("wd", Scope::Compiler))
    } else if str_starts_with(flag, "we") {
        Option::Some(("we", Scope::Compiler))
    } else if str_starts_with(flag, "wo") {
        Option::Some(("wo", Scope::Compiler))
    } else if str_starts_with(flag, "w") {
        Option::Some(("w", Scope::Compiler))
    } else {
        Option::None
    }
}

/// Classification of a flag that is not in the spaceable-prefix table:
/// first the exact flags, then the prefixed families, in the order written
/// here. `None` means the flag is unknown.
pub open spec fn spec_classify_flag(flag: Seq<char>) -> Option<ArgView> {
    if flag == "c"@ || flag == "nologo"@ {
        Option::Some(ArgView::Flag { scope: Scope::Ignore, name: flag })
    } else if flag == "bigobj"@ {
        Option::Some(ArgView::Flag { scope: Scope::Compiler, name: flag })
    } else if flag == "FC"@ || flag == "d2vzeroupper"@ || flag == "fastfail"@ {
        Option::Some(ArgView::Flag { scope: Scope::Shared, name: flag })
    } else if flag == "X"@ {
        Option::Some(ArgView::Flag { scope: Scope::Preprocessor, name: flag })
    } else if "T"@.is_prefix_of(flag) {
        Option::Some(
            ArgView::Param { scope: Scope::Ignore, flag: "T"@, value: flag.skip(1), spaced: false },
        )
    } else if "O"@.is_prefix_of(flag) {
        Option::Some(ArgView::Flag { scope: Scope::Shared, name: flag })
    } else if "G"@.is_prefix_of(flag) {
        Option::Some(ArgView::Flag { scope: Scope::Shared, name: flag })
    } else if "RTC"@.is_prefix_of(flag) {
        Option::Some(ArgView::Flag { scope: Scope::Shared, name: flag })
    } else if "Z"@.is_prefix_of(flag) {
        Option::Some(ArgView::Flag { scope: Scope::Shared, name: flag })
    } else if "d2Zi+"@.is_prefix_of(flag) {
        Option::Some(ArgView::Flag { scope: Scope::Shared, name: flag })
    } else if "std:"@.is_prefix_of(flag) {
        Option::Some(ArgView::Flag { scope: Scope::Shared, name: flag })
    } else if "MP"@.is_prefix_of(flag) {
        Option::Some(ArgView::Flag { scope: Scope::Compiler, name: flag })
    } else if "fsanitize="@.is_prefix_of(flag) {
        Option::Some(ArgView::Flag { scope: Scope::Shared, name: flag })
    } else if "MD"@.is_prefix_of(flag) {
        Option::Some(ArgView::Flag { scope: Scope::Shared, name: flag })
    } else if "MT"@.is_prefix_of(flag) {
        Option::Some(ArgView::Flag { scope: Scope::Shared, name: flag })
    } else if "EH"@.is_prefix_of(flag) {
        Option::Some(ArgView::Flag { scope: Scope::Shared, name: flag })
    } else if "fp:"@.is_prefix_of(flag) {
        Option::Some(ArgView::Flag { scope: Scope::Shared, name: flag })
    } else if "arch:"@.is_prefix_of(flag) {
        Option::Some(ArgView::Flag { scope: Scope::Shared, name: flag })
    } else if "errorReport:"@.is_prefix_of(flag) {
        Option::Some(ArgView::Flag { scope: Scope::Shared, name: flag })
    } else if "source-charset:"@.is_prefix_of(flag) {
        Option::Some(ArgView::Flag { scope: Scope::Shared, name: flag })
    } else if "execution-charset:"@.is_prefix_of(flag) {
        Option::Some(ArgView::Flag { scope: Scope::Shared, name: flag })
    } else if "favor:"@.is_prefix_of(flag) {
        Option::Some(ArgView::Flag { scope: Scope::Shared, name: flag })
    } else if "Fo"@.is_prefix_of(flag) {
        Option::Some(
            ArgView::Output { kind: OutputKind::Object, flag: "Fo"@, file: flag.skip(2) },
        )
    } else if "Fp"@.is_prefix_of(flag) {
        Option::Some(
            ArgView::Input { kind: InputKind::Precompiled, flag: "Fp"@, file: flag.skip(2) },
        )
    } else if "Yc"@.is_prefix_of(flag) {
        Option::Some(
            ArgView::Output { kind: OutputKind::Marker, flag: "Yc"@, file: flag.skip(2) },
        )
    } else if "Yu"@.is_prefix_of(flag) {
        Option::Some(
            ArgView::Input { kind: InputKind::Marker, flag: "Yu"@, file: flag.skip(2) },
        )
    } else if "Yl"@.is_prefix_of(flag) {
        Option::Some(ArgView::Flag { scope: Scope::Shared, name: flag })
    } else if "FI"@.is_prefix_of(flag) {
        Option::Some(
            ArgView::Param {
                scope: Scope::Preprocessor,
                flag: "FI"@,
                value: flag.skip(2),
                spaced: false,
            },
        )
    } else if "analyze"@.is_prefix_of(flag) {
        Option::Some(ArgView::Flag { scope: Scope::Shared, name: flag })
    } else {
        Option::None
    }
}

/// Classifies a flag that the spaceable-prefix table did not take.
fn classify_flag(flag: &str) -> (r: Option<Arg>)
    ensures
        ({
            let s = spec_classify_flag(flag@);
            match r {
                Option::Some(a) => s == Option::Some(a@),
                Option::None => s is None,
            }
        }),
{
    let n = flag.unicode_len();
    if str_eq(flag, "c") || str_eq(flag, "nologo") {
        Option::Some(Arg::flag(Scope::Ignore, flag))
    } else if str_eq(flag, "bigobj") {
        Option::Some(Arg::flag(Scope::Compiler, flag))
    } else if str_eq(flag, "FC") || str_eq(flag, "d2vzeroupper") || str_eq(flag, "fastfail") {
        Option::Some(Arg::flag(Scope::Shared, flag))
    } else if str_eq(flag, "X") {
        Option::Some(Arg::flag(Scope::Preprocessor, flag))
    } else if str_starts_with(flag, "T") {
        proof {
            reveal_strlit("T");
        }
        Option::Some(Arg::param(Scope::Ignore, "T", flag.substring_char(1, n), false))
    } else if str_starts_with(flag, "O") {
        Option::Some(Arg::flag(Scope::Shared, flag))
    } else if str_starts_with(flag, "G") {
        Option::Some(Arg::flag(Scope::Shared, flag))
    } else if str_starts_with(flag, "RTC") {
        Option::Some(Arg::flag(Scope::Shared, flag))
    } else if str_starts_with(flag, "Z") {
        Option::Some(Arg::flag(Scope::Shared, flag))
    } else if str_starts_with(flag, "d2Zi+") {
        Option::Some(Arg::flag(Scope::Shared, flag))
    } else if str_starts_with(flag, "std:") {
        Option::Some(Arg::flag(Scope::Shared, flag))
    } else if str_starts_with(flag, "MP") {
        Option::Some(Arg::flag(Scope::Compiler, flag))
    } else if str_starts_with(flag, "fsanitize=") {
        Option::Some(Arg::flag(Scope::Shared, flag))
    } else if str_starts_with(flag, "MD") {
        Option::Some(Arg::flag(Scope::Shared, flag))
    } else if str_starts_with(flag, "MT") {
        Option::Some(Arg::flag(Scope::Shared, flag))
    } else if str_starts_with(flag, "EH") {
        Option::Some(Arg::flag(Scope::Shared, flag))
    } else if str_starts_with(flag, "fp:") {
        Option::Some(Arg::flag(Scope::Shared, flag))
    } else if str_starts_with(flag, "arch:") {
        Option::Some(Arg::flag(Scope::Shared, flag))
    } else if str_starts_with(flag, "errorReport:") {
        Option::Some(Arg::flag(Scope::Shared, flag))
    } else if str_starts_with(flag, "source-charset:") {
        Option::Some(Arg::flag(Scope::Shared, flag))
    } else if str_starts_with(flag, "execution-charset:") {
        Option::Some(Arg::flag(Scope::Shared, flag))
    } else if str_starts_with(flag, "favor:") {
        Option::Some(Arg::flag(Scope::Shared, flag))
    } else if str_starts_with(flag, "Fo") {
        proof {
            reveal_strlit("Fo");
        }
        Option::Some(Arg::output(OutputKind::Object, "Fo", flag.substring_char(2, n)))
    } else if str_starts_with(flag, "Fp") {
        proof {
            reveal_strlit("Fp");
        }
        Option::Some(Arg::input(InputKind::Precompiled, "Fp", flag.substring_char(2, n)))
    } else if str_starts_with(flag, "Yc") {
        proof {
            reveal_strlit("Yc");
        }
        Option::Some(Arg::output(OutputKind::Marker, "Yc", flag.substring_char(2, n)))
    } else if str_starts_with(flag, "Yu") {
        proof {
            reveal_strlit("Yu");
        }
        Option::Some(Arg::input(InputKind::Marker, "Yu", flag.substring_char(2, n)))
    } else if str_starts_with(flag, "Yl") {
        Option::Some(Arg::flag(Scope::Shared, flag))
    } else if str_starts_with(flag, "FI") {
        proof {
            reveal_strlit("FI");
        }
        Option::Some(Arg::param(Scope::Preprocessor, "FI", flag.substring_char(2, n), false))
    } else if str_starts_with(flag, "analyze") {
        Option::Some(Arg::flag(Scope::Shared, flag))
    } else {
        Option::None
    }
}

/// One step of the token stream parse, at position `i`:
/// `None` when the stream is exhausted, otherwise the classified argument or
/// the offending token, together with the position of the next unread token.
/// A spaceable flag that is exactly its prefix also consumes the token it
/// tried to take its value from.
pub open spec fn spec_parse_argument(tokens: Seq<Seq<char>>, i: int) -> Option<
    (Result<ArgView, Seq<char>>, int),
> {
    if !(0 <= i < tokens.len()) {
        Option::None
    } else {
        let t = tokens[i];
        if !spec_has_param_prefix(t) {
            Option::Some(
                (Ok(ArgView::Input { kind: InputKind::Source, flag: ""@, file: t }), i + 1),
            )
        } else {
            let flag = t.skip(1);
            match spec_spaceable(flag) {
                Option::Some((prefix, scope)) => {
                    if flag == prefix {
                        if i + 1 < tokens.len() {
                            let v = tokens[i + 1];
                            if spec_has_param_prefix(v) {
                                Option::Some((Err(t), i + 2))
                            } else {
                                Option::Some(
                                    (
                                        Ok(
                                            ArgView::Param {
                                                scope,
                                                flag: prefix,
                                                value: v,
                                                spaced: true,
                                            },
                                        ),
                                        i + 2,
                                    ),
                                )
                            }
                        } else {
                            Option::Some((Err(t), i + 1))
                        }
                    } else {
                        Option::Some(
                            (
                                Ok(
                                    ArgView::Param {
                                        scope,
                                        flag: prefix,
                                        value: flag.skip(prefix.len() as int),
                                        spaced: false,
                                    },
                                ),
                                i + 1,
                            ),
                        )
                    }
                },
                Option::None => match spec_classify_flag(flag) {
                    Option::Some(a) => Option::Some((Ok(a), i + 1)),
                    Option::None => Option::Some((Err(t), i + 1)),
                },
            }
        }
    }
}

/// Reads the next argument from the token stream, starting at `i`.
/// Returns the parsed argument or the unknown token, with the index of the
/// next unread token; `None` when `i` is past the end.
pub fn parse_argument(args: &Vec<String>, i: usize) -> (r: Option<(Result<Arg, String>, usize)>)
    ensures
        ({
            let s = spec_parse_argument(args.deep_view(), i as int);
            match r {
                Option::Some(p) => match s {
                    Option::Some(sp) => p.1 as int == sp.1 && (match p.0 {
                        Ok(a) => sp.0 is Ok && a@ == sp.0->Ok_0,
                        Err(e) => sp.0 is Err && e@ == sp.0->Err_0,
                    }),
                    Option::None => false,
                },
                Option::None => s is None,
            }
        }),
{
    proof {
        assert(args.deep_view().len() == args@.len());
    }
    if i >= args.len() {
        return Option::None;
    }
    let t: &String = &args[i];
    proof {
        assert(args.deep_view()[i as int] == args@[i as int]@);
    }
    if !has_param_prefix(t.as_str()) {
        return Option::Some((Ok(Arg::input(InputKind::Source, "", t.as_str())), i + 1));
    }
    let n = t.as_str().unicode_len();
    let flag: &str = t.as_str().substring_char(1, n);
    proof {
        assert(flag@ =~= t@.skip(1));
    }
    match is_spaceable_param(flag) {
        Option::Some(ps) => {
            let (prefix, scope) = ps;
            if str_eq(flag, prefix) {
                if i + 1 < args.len() {
                    let v: &String = &args[i + 1];
                    proof {
                        assert(args.deep_view()[i + 1] == args@[i + 1]@);
                    }
                    if has_param_prefix(v.as_str()) {
                        Option::Some((Err(t.clone()), i + 2))
                    } else {
                        Option::Some((Ok(Arg::param(scope, prefix, v.as_str(), true)), i + 2))
                    }
                } else {
                    Option::Some((Err(t.clone()), i + 1))
                }
            } else {
                let pl = prefix.unicode_len();
                proof {
                    assert(prefix@.is_prefix_of(flag@));
                }
                let value = flag.substring_char(pl, flag.unicode_len());
                proof {
                    assert(value@ =~= flag@.skip(prefix@.len() as int));
                }
                Option::Some((Ok(Arg::param(scope, prefix, value, false)), i + 1))
            }
        },
        Option::None => match classify_flag(flag) {
            Option::Some(a) => Option::Some((Ok(a), i + 1)),
            Option::None => Option::Some((Err(t.clone()), i + 1)),
        },
    }
}

/// The whole parse from position `i` on: the recognized arguments and the
/// unknown tokens, each in stream order. The bound check on the returned
/// position only serves termination; the step function always respects it.
pub open spec fn spec_parse_arguments_from(tokens: Seq<Seq<char>>, i: int) -> (Seq<ArgView>, Seq<
    Seq<char>,
>)
    decreases tokens.len() - i,
{
    match spec_parse_argument(tokens, i) {
        Option::None => (Seq::empty(), Seq::empty()),
        Option::Some((res, j)) => {
            if i < j <= tokens.len() {
                let rest = spec_parse_arguments_from(tokens, j);
                match res {
                    Ok(a) => (seq![a] + rest.0, rest.1),
                    Err(e) => (rest.0, seq![e] + rest.1),
                }
            } else {
                (Seq::empty(), Seq::empty())
            }
        },
    }
}

/// Parses the whole token stream. When every token is recognized the
/// arguments come back in order; otherwise every unknown token comes back,
/// in order, as the error.
pub fn parse_arguments(args: &Vec<String>) -> (r: Result<Vec<Arg>, Vec<String>>)
    ensures
        ({
            let whole = spec_parse_arguments_from(args.deep_view(), 0);
            match r {
                Ok(v) => whole.1.len() == 0 && v.deep_view() == whole.0,
                Err(e) => whole.1.len() > 0 && e.deep_view() == whole.1,
            }
        }),
{
    let mut result: Vec<Arg> = Vec::new();
    let mut errors: Vec<String> = Vec::new();
    let mut i: usize = 0;
    proof {
        assert(result.deep_view() =~= Seq::<ArgView>::empty());
        assert(errors.deep_view() =~= Seq::<Seq<char>>::empty());
        assert(args.deep_view().len() == args@.len());
    }
    while i < args.len()
        invariant
            i <= args@.len(),
            args.deep_view().len() == args@.len(),
            ({
                let whole = spec_parse_arguments_from(args.deep_view(), 0);
                let rest = spec_parse_arguments_from(args.deep_view(), i as int);
                whole.0 == result.deep_view() + rest.0 && whole.1 == errors.deep_view() + rest.1
            }),
        decreases args@.len() - i,
    {
        let ghost prev_result = result.deep_view();
        let ghost prev_errors = errors.deep_view();
        let step = parse_argument(args, i);
        match step {
            Option::Some(p) => {
                let (res, j) = p;
                proof {
                    let s = spec_parse_argument(args.deep_view(), i as int);
                    assert(s is Some);
                    let rest_i = spec_parse_arguments_from(args.deep_view(), i as int);
                    let rest_j = spec_parse_arguments_from(args.deep_view(), j as int);
                    let sp = s->0;
                    match sp.0 {
                        Ok(a) => {
                            assert(rest_i.0 =~= seq![a] + rest_j.0);
                            assert(rest_i.1 =~= rest_j.1);
                        },
                        Err(e) => {
                            assert(rest_i.0 =~= rest_j.0);
                            assert(rest_i.1 =~= seq![e] + rest_j.1);
                        },
                    }
                }
                match res {
                    Ok(a) => {
                        let ghost av = a@;
                        result.push(a);
                        proof {
                            assert(result.deep_view() =~= prev_result + seq![av]);
                        }
                    },
                    Err(e) => {
                        let ghost ev = e@;
                        errors.push(e);
                        proof {
                            assert(errors.deep_view() =~= prev_errors + seq![ev]);
                        }
                    },
                }
                proof {
                    let whole = spec_parse_arguments_from(args.deep_view(), 0);
                    let rest_i = spec_parse_arguments_from(args.deep_view(), i as int);
                    let rest_j = spec_parse_arguments_from(args.deep_view(), j as int);
                    assert(whole.0 =~= result.deep_view() + rest_j.0);
                    assert(whole.1 =~= errors.deep_view() + rest_j.1);
                }
                i = j;
            },
            Option::None => {
                proof {
                    assert(false);
                }
            },
        }
    }
    proof {
        let rest = spec_parse_arguments_from(args.deep_view(), i as int);
        assert(rest.0 =~= Seq::<ArgView>::empty());
        assert(rest.1 =~= Seq::<Seq<char>>::empty());
        let whole = spec_parse_arguments_from(args.deep_view(), 0);
        assert(whole.0 =~= result.deep_view());
        assert(whole.1 =~= errors.deep_view());
    }
    if errors.len() > 0 {
        Err(errors)
    } else {
        Ok(result)
    }
}

/// The language code of a source, from its extension: `P` for C++
/// (`.cpp`, `.cc`), `C` for C (`.c`), compared without regard to ASCII case.
pub open spec fn spec_detect_language(p: Seq<char>) -> Option<Seq<char>> {
    match crate::paths::spec_extension(p) {
        Option::Some(e) => if spec_eq_nocase(e, "cpp"@) || spec_eq_nocase(e, "cc"@) {
            Option::Some("P"@)
        } else if spec_eq_nocase(e, "c"@) {
            Option::Some("C"@)
        } else {
            Option::None
        },
        Option::None => Option::None,
    }
}

/// Infers the language of a source file from its extension.
pub fn detect_language(path: &str) -> (r: Option<String>)
    ensures
        r.deep_view() == spec_detect_language(path@),
{
    let n = path.unicode_len();
    let k = find_name_start(path);
    let d = find_last_dot(path, k);
    proof {
        lemma_file_name_suffix(path@, k as int);
    }
    match d {
        Option::Some(di) => {
            proof {
                lemma_last_dot_some(path@.skip(k as int), di - k as int);
            }
            if di > k {
                let ext = path.substring_char(di + 1, n);
                proof {
                    assert(ext@ =~= path@.skip(k as int).skip(di - k + 1));
                }
                if str_eq_nocase(ext, "cpp") || str_eq_nocase(ext, "cc") {
                    Option::Some(String::from_str("P"))
                } else if str_eq_nocase(ext, "c") {
                    Option::Some(String::from_str("C"))
                } else {
                    Option::None
                }
            } else {
                Option::None
            }
        },
        Option::None => {
            proof {
                lemma_last_dot_none(path@.skip(k as int));
            }
            Option::None
        },
    }
}

/// Where the object file of one source goes: the `/Fo` path when it names a
/// file, the source's name moved into it when it names a directory, and the
/// source with its extension replaced by `obj` when no `/Fo` was given.
pub open spec fn spec_output_object(
    input_source: Seq<char>,
    output_object: Option<Seq<char>>,
    output_is_dir: bool,
) -> Result<Seq<char>, PrepareErrorView> {
    match output_object {
        Option::Some(path) => if output_is_dir {
            let name = spec_file_name(input_source);
            if name.len() == 0 {
                Err(PrepareErrorView::MissingFileName(input_source))
            } else {
                Ok(spec_with_extension(spec_join(path, name), "obj"@))
            }
        } else {
            Ok(path)
        },
        Option::None => Ok(spec_with_extension(input_source, "obj"@)),
    }
}

/// Resolves the object file of one source. `output_is_dir` says whether the
/// (absolute) `/Fo` path names a directory on the host; the paths themselves
/// must already be absolute.
pub fn get_output_object(
    input_source: &str,
    output_object: &Option<String>,
    output_is_dir: bool,
) -> (r: Result<String, PrepareError>)
    requires
        spec_is_absolute(input_source@),
        (match output_object {
            Option::Some(p) => spec_is_absolute(p@),
            Option::None => true,
        }),
    ensures
        ({
            let s = spec_output_object(input_source@, output_object.deep_view(), output_is_dir);
            match r {
                Ok(o) => s == Ok::<Seq<char>, PrepareErrorView>(o@),
                Err(e) => s == Err::<Seq<char>, PrepareErrorView>(e@),
            }
        }),
{
    match output_object {
        Option::Some(path) => {
            if output_is_dir {
                let n = input_source.unicode_len();
                let k = find_name_start(input_source);
                proof {
                    lemma_file_name_suffix(input_source@, k as int);
                }
                if k == n {
                    Err(PrepareError::MissingFileName(input_source.to_owned()))
                } else {
                    let name = input_source.substring_char(k, n);
                    proof {
                        assert(name@ =~= input_source@.skip(k as int));
                    }
                    let joined = join_path(path.as_str(), name);
                    Ok(with_extension(joined.as_str(), "obj"))
                }
            } else {
                Ok(path.clone())
            }
        },
        Option::None => Ok(with_extension(input_source, "obj")),
    }
}

/// Every `/Fp`-named precompiled-header path, in order.
pub open spec fn spec_precompiled_files(args: Seq<ArgView>) -> Seq<Seq<char>>
    decreases args.len(),
{
    if args.len() == 0 {
        Seq::empty()
    } else {
        let rest = spec_precompiled_files(args.drop_first());
        match args.first() {
            ArgView::Input { kind, file, .. } => if kind == InputKind::Precompiled {
                seq![file] + rest
            } else {
                rest
            },
            _ => rest,
        }
    }
}

/// Every precompiled-header marker, in order: `true` for `/Yu` (consume),
/// `false` for `/Yc` (produce), with the marker stem.
pub open spec fn spec_pch_markers(args: Seq<ArgView>) -> Seq<(bool, Seq<char>)>
    decreases args.len(),
{
    if args.len() == 0 {
        Seq::empty()
    } else {
        let rest = spec_pch_markers(args.drop_first());
        match args.first() {
            ArgView::Input { kind, file, .. } => if kind == InputKind::Marker {
                seq![(true, file)] + rest
            } else {
                rest
            },
            ArgView::Output { kind, file, .. } => if kind == OutputKind::Marker {
                seq![(false, file)] + rest
            } else {
                rest
            },
            _ => rest,
        }
    }
}

/// Every `/Fo`-named object path, in order.
pub open spec fn spec_output_objects(args: Seq<ArgView>) -> Seq<Seq<char>>
    decreases args.len(),
{
    if args.len() == 0 {
        Seq::empty()
    } else {
        let rest = spec_output_objects(args.drop_first());
        match args.first() {
            ArgView::Output { kind, file, .. } => if kind == OutputKind::Object {
                seq![file] + rest
            } else {
                rest
            },
            _ => rest,
        }
    }
}

/// Every `/T` language selector value, in order.
pub open spec fn spec_language_params(args: Seq<ArgView>) -> Seq<Seq<char>>
    decreases args.len(),
{
    if args.len() == 0 {
        Seq::empty()
    } else {
        let rest = spec_language_params(args.drop_first());
        match args.first() {
            ArgView::Param { flag, value, .. } => if flag == "T"@ {
                seq![value] + rest
            } else {
                rest
            },
            _ => rest,
        }
    }
}

/// Every source file, resolved against the working directory, in order.
pub open spec fn spec_sources_abs(dir: Seq<char>, args: Seq<ArgView>) -> Seq<Seq<char>>
    decreases args.len(),
{
    if args.len() == 0 {
        Seq::empty()
    } else {
        let rest = spec_sources_abs(dir, args.drop_first());
        match args.first() {
            ArgView::Input { kind, file, .. } => if kind == InputKind::Source {
                seq![spec_absolutize(dir, file)] + rest
            } else {
                rest
            },
            _ => rest,
        }
    }
}

/// Sources resolved against an absolute working directory are absolute.
pub proof fn lemma_sources_abs_absolute(dir: Seq<char>, args: Seq<ArgView>)
    requires
        spec_is_absolute(dir),
    ensures
        forall|i: int|
            0 <= i < spec_sources_abs(dir, args).len() ==> spec_is_absolute(
                #[trigger] spec_sources_abs(dir, args)[i],
            ),
    decreases args.len(),
{
    if args.len() > 0 {
        lemma_sources_abs_absolute(dir, args.drop_first());
        let rest = spec_sources_abs(dir, args.drop_first());
        let whole = spec_sources_abs(dir, args);
        assert forall|i: int| 0 <= i < whole.len() implies spec_is_absolute(whole[i]) by {
            match args.first() {
                ArgView::Input { kind, file, .. } => {
                    if kind == InputKind::Source {
                        lemma_absolutize_absolute(dir, file);
                        if i > 0 {
                            assert(whole[i] == rest[i - 1]);
                        }
                    } else {
                        assert(whole[i] == rest[i]);
                    }
                },
                _ => {
                    assert(whole[i] == rest[i]);
                },
            }
        }
    }
}

/// The tasks of the resolved sources, in order; the first source whose
/// language cannot be told or whose object path cannot be formed decides the
/// error.
pub open spec fn spec_build_tasks(
    shared: CompilationArgsView,
    sources: Seq<Seq<char>>,
    lang_param: Option<Seq<char>>,
    output_object: Option<Seq<char>>,
    output_is_dir: bool,
) -> Result<Seq<CompilationTaskView>, PrepareErrorView>
    decreases sources.len(),
{
    if sources.len() == 0 {
        Ok(Seq::empty())
    } else {
        let src = sources.first();
        let lang = match lang_param {
            Option::Some(l) => Option::Some(l),
            Option::None => spec_detect_language(src),
        };
        match lang {
            Option::None => Err(PrepareErrorView::UnknownLanguage(src)),
            Option::Some(l) => match spec_output_object(src, output_object, output_is_dir) {
                Err(e) => Err(e),
                Ok(obj) => match spec_build_tasks(
                    shared,
                    sources.drop_first(),
                    lang_param,
                    output_object,
                    output_is_dir,
                ) {
                    Err(e) => Err(e),
                    Ok(rest) => Ok(
                        seq![
                            CompilationTaskView {
                                shared,
                                language: l,
                                output_object: obj,
                                input_source: src,
                            },
                        ] + rest,
                    ),
                },
            },
        }
    }
}

/// The whole splitting of one expanded argument list into compilation tasks,
/// stage by stage: parse, sources, precompiled header, output object,
/// language, then one task per source.
pub open spec fn spec_create_tasks(
    dir: Seq<char>,
    tokens: Seq<Seq<char>>,
    run_second_cpp: bool,
    output_is_dir: bool,
) -> Result<Seq<CompilationTaskView>, PrepareErrorView> {
    let parsed = spec_parse_arguments_from(tokens, 0);
    if parsed.1.len() > 0 {
        Err(PrepareErrorView::UnknownArguments(parsed.1))
    } else {
        let args = parsed.0;
        let sources = spec_sources_abs(dir, args);
        if sources.len() == 0 {
            Err(PrepareErrorView::NoSourceFile)
        } else {
            let pres = spec_precompiled_files(args);
            if pres.len() > 1 {
                Err(PrepareErrorView::TooManyPrecompiledFiles)
            } else {
                let markers = spec_pch_markers(args);
                if markers.len() > 1 {
                    Err(PrepareErrorView::TooManyPrecompiledMarkers)
                } else {
                    let pch = if markers.len() == 0 {
                        PCHUsageView::Unused
                    } else {
                        let mk = markers[0];
                        let ppath = if pres.len() == 1 {
                            pres[0]
                        } else {
                            spec_with_extension(mk.1, "pch"@)
                        };
                        let pa = PCHArgsView {
                            path: ppath,
                            path_abs: spec_absolutize(dir, ppath),
                            marker: if mk.1.len() == 0 {
                                Option::None
                            } else {
                                Option::Some(mk.1)
                            },
                        };
                        if mk.0 {
                            PCHUsageView::In(pa)
                        } else {
                            PCHUsageView::Out(pa)
                        }
                    };
                    let outs = spec_output_objects(args);
                    if outs.len() > 1 {
                        Err(PrepareErrorView::TooManyOutputObjects)
                    } else {
                        let output_object = if outs.len() == 1 {
                            Option::Some(spec_absolutize(dir, outs[0]))
                        } else {
                            Option::None
                        };
                        let langs = spec_language_params(args);
                        if langs.len() > 1 {
                            Err(PrepareErrorView::TooManyLanguageParams)
                        } else {
                            let lang_param = if langs.len() == 1 {
                                Option::Some(langs[0])
                            } else {
                                Option::None
                            };
                            let shared = CompilationArgsView {
                                args,
                                pch_usage: pch,
                                current_dir: dir,
                                deps_file: Option::None,
                                run_second_cpp,
                            };
                            spec_build_tasks(
                                shared,
                                sources,
                                lang_param,
                                output_object,
                                output_is_dir,
                            )
                        }
                    }
                }
            }
        }
    }
}

fn collect_sources_abs(dir: &str, args: &Vec<Arg>) -> (r: Vec<String>)
    ensures
        r.deep_view() == spec_sources_abs(dir@, args.deep_view()),
{
    let ghost dv = args.deep_view();
    let mut r: Vec<String> = Vec::new();
    let mut i: usize = 0;
    proof {
        assert(r.deep_view() =~= Seq::<Seq<char>>::empty());
        assert(dv.skip(0) =~= dv);
        assert(dv.len() == args@.len());
    }
    while i < args.len()
        invariant
            i <= args@.len(),
            dv == args.deep_view(),
            dv.len() == args@.len(),
            spec_sources_abs(dir@, dv) == r.deep_view() + spec_sources_abs(dir@, dv.skip(i as int)),
        decreases args@.len() - i,
    {
        let ghost prev = r.deep_view();
        proof {
            assert(dv.skip(i as int).first() == dv[i as int]);
            assert(dv.skip(i as int).drop_first() =~= dv.skip(i + 1));
            assert(dv[i as int] == args@[i as int]@);
        }
        match &args[i] {
            Arg::Input { kind, file, .. } => {
                if *kind == InputKind::Source {
                    let a = absolutize(dir, file.as_str());
                    let ghost av = a@;
                    r.push(a);
                    proof {
                        assert(r.deep_view() =~= prev + seq![av]);
                        assert(r.deep_view() + spec_sources_abs(dir@, dv.skip(i + 1)) =~= prev
                            + spec_sources_abs(dir@, dv.skip(i as int)));
                    }
                }
            },
            _ => {},
        }
        proof {
            assert(spec_sources_abs(dir@, dv) == r.deep_view() + spec_sources_abs(
                dir@,
                dv.skip(i + 1),
            ));
        }
        i = i + 1;
    }
    proof {
        assert(dv.skip(i as int) =~= Seq::<ArgView>::empty());
        assert(spec_sources_abs(dir@, dv) =~= r.deep_view());
    }
    r
}

fn collect_precompiled(args: &Vec<Arg>) -> (r: Vec<String>)
    ensures
        r.deep_view() == spec_precompiled_files(args.deep_view()),
{
    let ghost dv = args.deep_view();
    let mut r: Vec<String> = Vec::new();
    let mut i: usize = 0;
    proof {
        assert(r.deep_view() =~= Seq::<Seq<char>>::empty());
        assert(dv.skip(0) =~= dv);
        assert(dv.len() == args@.len());
    }
    while i < args.len()
        invariant
            i <= args@.len(),
            dv == args.deep_view(),
            dv.len() == args@.len(),
            spec_precompiled_files(dv) == r.deep_view() + spec_precompiled_files(
                dv.skip(i as int),
            ),
        decreases args@.len() - i,
    {
        let ghost prev = r.deep_view();
        proof {
            assert(dv.skip(i as int).first() == dv[i as int]);
            assert(dv.skip(i as int).drop_first() =~= dv.skip(i + 1));
            assert(dv[i as int] == args@[i as int]@);
        }
        match &args[i] {
            Arg::Input { kind, file, .. } => {
                if *kind == InputKind::Precompiled {
                    let ghost fv = file@;
                    r.push(file.clone());
                    proof {
                        assert(r.deep_view() =~= prev + seq![fv]);
                        assert(r.deep_view() + spec_precompiled_files(dv.skip(i + 1)) =~= prev
                            + spec_precompiled_files(dv.skip(i as int)));
                    }
                }
            },
            _ => {},
        }
        proof {
            assert(spec_precompiled_files(dv) == r.deep_view() + spec_precompiled_files(
                dv.skip(i + 1),
            ));
        }
        i = i + 1;
    }
    proof {
        assert(dv.skip(i as int) =~= Seq::<ArgView>::empty());
        assert(spec_precompiled_files(dv) =~= r.deep_view());
    }
    r
}

fn collect_pch_markers(args: &Vec<Arg>) -> (r: Vec<(bool, String)>)
    ensures
        r.deep_view() == spec_pch_markers(args.deep_view()),
{
    let ghost dv = args.deep_view();
    let mut r: Vec<(bool, String)> = Vec::new();
    let mut i: usize = 0;
    proof {
        assert(r.deep_view() =~= Seq::<(bool, Seq<char>)>::empty());
        assert(dv.skip(0) =~= dv);
        assert(dv.len() == args@.len());
    }
    while i < args.len()
        invariant
            i <= args@.len(),
            dv == args.deep_view(),
            dv.len() == args@.len(),
            spec_pch_markers(dv) == r.deep_view() + spec_pch_markers(dv.skip(i as int)),
        decreases args@.len() - i,
    {
        let ghost prev = r.deep_view();
        proof {
            assert(dv.skip(i as int).first() == dv[i as int]);
            assert(dv.skip(i as int).drop_first() =~= dv.skip(i + 1));
            assert(dv[i as int] == args@[i as int]@);
        }
        match &args[i] {
            Arg::Input { kind, file, .. } => {
                if *kind == InputKind::Marker {
                    let ghost fv = file@;
                    r.push((true, file.clone()));
                    proof {
                        assert(r.deep_view() =~= prev + seq![(true, fv)]);
                        assert(r.deep_view() + spec_pch_markers(dv.skip(i + 1)) =~= prev
                            + spec_pch_markers(dv.skip(i as int)));
                    }
                }
            },
            Arg::Output { kind, file, .. } => {
                if *kind == OutputKind::Marker {
                    let ghost fv = file@;
                    r.push((false, file.clone()));
                    proof {
                        assert(r.deep_view() =~= prev + seq![(false, fv)]);
                        assert(r.deep_view() + spec_pch_markers(dv.skip(i + 1)) =~= prev
                            + spec_pch_markers(dv.skip(i as int)));
                    }
                }
            },
            _ => {},
        }
        proof {
            assert(spec_pch_markers(dv) == r.deep_view() + spec_pch_markers(dv.skip(i + 1)));
        }
        i = i + 1;
    }
    proof {
        assert(dv.skip(i as int) =~= Seq::<ArgView>::empty());
        assert(spec_pch_markers(dv) =~= r.deep_view());
    }
    r
}

fn collect_output_objects(args: &Vec<Arg>) -> (r: Vec<String>)
    ensures
        r.deep_view() == spec_output_objects(args.deep_view()),
{
    let ghost dv = args.deep_view();
    let mut r: Vec<String> = Vec::new();
    let mut i: usize = 0;
    proof {
        assert(r.deep_view() =~= Seq::<Seq<char>>::empty());
        assert(dv.skip(0) =~= dv);
        assert(dv.len() == args@.len());
    }
    while i < args.len()
        invariant
            i <= args@.len(),
            dv == args.deep_view(),
            dv.len() == args@.len(),
            spec_output_objects(dv) == r.deep_view() + spec_output_objects(dv.skip(i as int)),
        decreases args@.len() - i,
    {
        let ghost prev = r.deep_view();
        proof {
            assert(dv.skip(i as int).first() == dv[i as int]);
            assert(dv.skip(i as int).drop_first() =~= dv.skip(i + 1));
            assert(dv[i as int] == args@[i as int]@);
        }
        match &args[i] {
            Arg::Output { kind, file, .. } => {
                if *kind == OutputKind::Object {
                    let ghost fv = file@;
                    r.push(file.clone());
                    proof {
                        assert(r.deep_view() =~= prev + seq![fv]);
                        assert(r.deep_view() + spec_output_objects(dv.skip(i + 1)) =~= prev
                            + spec_output_objects(dv.skip(i as int)));
                    }
                }
            },
            _ => {},
        }
        proof {
            assert(spec_output_objects(dv) == r.deep_view() + spec_output_objects(dv.skip(i + 1)));
        }
        i = i + 1;
    }
    proof {
        assert(dv.skip(i as int) =~= Seq::<ArgView>::empty());
        assert(spec_output_objects(dv) =~= r.deep_view());
    }
    r
}

fn collect_language_params(args: &Vec<Arg>) -> (r: Vec<String>)
    ensures
        r.deep_view() == spec_language_params(args.deep_view()),
{
    let ghost dv = args.deep_view();
    let mut r: Vec<String> = Vec::new();
    let mut i: usize = 0;
    proof {
        assert(r.deep_view() =~= Seq::<Seq<char>>::empty());
        assert(dv.skip(0) =~= dv);
        assert(dv.len() == args@.len());
    }
    while i < args.len()
        invariant
            i <= args@.len(),
            dv == args.deep_view(),
            dv.len() == args@.len(),
            spec_language_params(dv) == r.deep_view() + spec_language_params(dv.skip(i as int)),
        decreases args@.len() - i,
    {
        let ghost prev = r.deep_view();
        proof {
            assert(dv.skip(i as int).first() == dv[i as int]);
            assert(dv.skip(i as int).drop_first() =~= dv.skip(i + 1));
            assert(dv[i as int] == args@[i as int]@);
        }
        match &args[i] {
            Arg::Param { flag, value, .. } => {
                if str_eq(flag.as_str(), "T") {
                    let ghost vv = value@;
                    r.push(value.clone());
                    proof {
                        assert(r.deep_view() =~= prev + seq![vv]);
                        assert(r.deep_view() + spec_language_params(dv.skip(i + 1)) =~= prev
                            + spec_language_params(dv.skip(i as int)));
                    }
                }
            },
            _ => {},
        }
        proof {
            assert(spec_language_params(dv) == r.deep_view() + spec_language_params(
                dv.skip(i + 1),
            ));
        }
        i = i + 1;
    }
    proof {
        assert(dv.skip(i as int) =~= Seq::<ArgView>::empty());
        assert(spec_language_params(dv) =~= r.deep_view());
    }
    r
}

/// Splits one expanded `cl.exe` argument list into compilation tasks.
///
/// The argument list must already have response files spliced in (see
/// `expand_response_files`); the working directory must be absolute, and
/// `output_is_dir` says whether the `/Fo` path names a directory on the
/// host, both being the caller's knowledge of the filesystem.
#[verifier::loop_isolation(false)]
#[verifier::rlimit(100)]
pub fn create_tasks(
    command: CommandInfo,
    args: &Vec<String>,
    run_second_cpp: bool,
    output_is_dir: bool,
) -> (r: Result<Vec<CompilationTask>, PrepareError>)
    requires
        spec_is_absolute(command.current_dir@),
    ensures
        ({
            let s = spec_create_tasks(
                command.current_dir@,
                args.deep_view(),
                run_second_cpp,
                output_is_dir,
            );
            match r {
                Ok(v) => s == Ok::<Seq<CompilationTaskView>, PrepareErrorView>(v.deep_view()),
                Err(e) => s == Err::<Seq<CompilationTaskView>, PrepareErrorView>(e@),
            }
        }),
{
    let ghost dirv = command.current_dir@;
    let parsed = match parse_arguments(args) {
        Ok(p) => p,
        Err(errs) => {
            return Err(PrepareError::UnknownArguments(errs));
        },
    };
    let ghost pdv = parsed.deep_view();
    let sources = collect_sources_abs(command.current_dir.as_str(), &parsed);
    if sources.len() == 0 {
        return Err(PrepareError::NoSourceFile);
    }
    let pres = collect_precompiled(&parsed);
    if pres.len() > 1 {
        return Err(PrepareError::TooManyPrecompiledFiles);
    }
    let markers = collect_pch_markers(&parsed);
    if markers.len() > 1 {
        return Err(PrepareError::TooManyPrecompiledMarkers);
    }
    let pch_usage: PCHUsage = if markers.len() == 0 {
        PCHUsage::Unused
    } else {
        let mk: &(bool, String) = &markers[0];
        proof {
            assert(markers.deep_view()[0] == (markers@[0].0, markers@[0].1@));
        }
        let ppath: String = if pres.len() == 1 {
            pres[0].clone()
        } else {
            with_extension(mk.1.as_str(), "pch")
        };
        let pabs = absolutize(command.current_dir.as_str(), ppath.as_str());
        let marker: Option<String> = if mk.1.as_str().unicode_len() == 0 {
            Option::None
        } else {
            Option::Some(mk.1.clone())
        };
        let pa = PCHArgs { path: ppath, path_abs: pabs, marker };
        if mk.0 {
            PCHUsage::In(pa)
        } else {
            PCHUsage::Out(pa)
        }
    };
    let ghost pchv = pch_usage@;
    let outs = collect_output_objects(&parsed);
    if outs.len() > 1 {
        return Err(PrepareError::TooManyOutputObjects);
    }
    let output_object: Option<String> = if outs.len() == 1 {
        let a = absolutize(command.current_dir.as_str(), outs[0].as_str());
        proof {
            lemma_absolutize_absolute(dirv, outs.deep_view()[0]);
        }
        Option::Some(a)
    } else {
        Option::None
    };
    let langs = collect_language_params(&parsed);
    if langs.len() > 1 {
        return Err(PrepareError::TooManyLanguageParams);
    }
    let lang_param: Option<String> = if langs.len() == 1 {
        Option::Some(langs[0].clone())
    } else {
        Option::None
    };
    let shared = std::sync::Arc::new(
        CompilationArgs {
            args: parsed,
            pch_usage,
            command,
            deps_file: Option::None,
            run_second_cpp,
        },
    );
    let ghost sharedv = shared@;
    proof {
        assert(sharedv == (CompilationArgsView {
            args: pdv,
            pch_usage: pchv,
            current_dir: dirv,
            deps_file: Option::None,
            run_second_cpp,
        }));
        assert(pchv == (if spec_pch_markers(pdv).len() == 0 {
            PCHUsageView::Unused
        } else {
            let mk = spec_pch_markers(pdv)[0];
            let ppath = if spec_precompiled_files(pdv).len() == 1 {
                spec_precompiled_files(pdv)[0]
            } else {
                spec_with_extension(mk.1, "pch"@)
            };
            let pa = PCHArgsView {
                path: ppath,
                path_abs: spec_absolutize(dirv, ppath),
                marker: if mk.1.len() == 0 {
                    Option::None
                } else {
                    Option::Some(mk.1)
                },
            };
            if mk.0 {
                PCHUsageView::In(pa)
            } else {
                PCHUsageView::Out(pa)
            }
        }));
        assert(output_object.deep_view() == (if spec_output_objects(pdv).len() == 1 {
            Option::Some(spec_absolutize(dirv, spec_output_objects(pdv)[0]))
        } else {
            Option::<Seq<char>>::None
        }));
        assert(lang_param.deep_view() == (if spec_language_params(pdv).len() == 1 {
            Option::Some(spec_language_params(pdv)[0])
        } else {
            Option::<Seq<char>>::None
        }));
        lemma_sources_abs_absolute(dirv, pdv);
    }
    let ghost sdv = sources.deep_view();
    let ghost lpv = lang_param.deep_view();
    let ghost oov = output_object.deep_view();
    let mut tasks: Vec<CompilationTask> = Vec::new();
    let mut i: usize = 0;
    proof {
        assert(tasks.deep_view() =~= Seq::<CompilationTaskView>::empty());
        assert(sdv.skip(0) =~= sdv);
        assert(sdv.len() == sources@.len());
    }
    while i < sources.len()
        invariant
            i <= sources@.len(),
            sdv == sources.deep_view(),
            sdv.len() == sources@.len(),
            sdv == spec_sources_abs(dirv, pdv),
            forall|k: int| 0 <= k < sdv.len() ==> spec_is_absolute(#[trigger] sdv[k]),
            lpv == lang_param.deep_view(),
            oov == output_object.deep_view(),
            (match output_object {
                Option::Some(p) => spec_is_absolute(p@),
                Option::None => true,
            }),
            spec_build_tasks(sharedv, sdv, lpv, oov, output_is_dir) == (match spec_build_tasks(
                sharedv,
                sdv.skip(i as int),
                lpv,
                oov,
                output_is_dir,
            ) {
                Ok(rest) => Ok::<Seq<CompilationTaskView>, PrepareErrorView>(
                    tasks.deep_view() + rest,
                ),
                Err(e) => Err::<Seq<CompilationTaskView>, PrepareErrorView>(e),
            }),
        decreases sources@.len() - i,
    {
        let ghost prev = tasks.deep_view();
        proof {
            assert(sdv.skip(i as int).first() == sdv[i as int]);
            assert(sdv.skip(i as int).drop_first() =~= sdv.skip(i + 1));
            assert(sdv[i as int] == sources@[i as int]@);
        }
        let src: &String = &sources[i];
        let lang: Option<String> = match &lang_param {
            Option::Some(l) => Option::Some(l.clone()),
            Option::None => detect_language(src.as_str()),
        };
        let language = match lang {
            Option::Some(l) => l,
            Option::None => {
                return Err(PrepareError::UnknownLanguage(src.clone()));
            },
        };
        let obj = match get_output_object(src.as_str(), &output_object, output_is_dir) {
            Ok(o) => o,
            Err(e) => {
                return Err(e);
            },
        };
        let shared_ref = arc_clone(&shared);
        let task = CompilationTask {
            shared: shared_ref,
            language,
            output_object: obj,
            input_source: src.clone(),
        };
        let ghost tv = task@;
        tasks.push(task);
        proof {
            assert(tasks.deep_view() =~= prev + seq![tv]);
            let src_v = sdv[i as int];
            let slang: Seq<char> = match lpv {
                Option::Some(l) => l,
                Option::None => spec_detect_language(src_v)->Some_0,
            };
            assert(tv == (CompilationTaskView {
                shared: sharedv,
                language: slang,
                output_object: spec_output_object(src_v, oov, output_is_dir)->Ok_0,
                input_source: src_v,
            }));
            let step = spec_build_tasks(sharedv, sdv.skip(i as int), lpv, oov, output_is_dir);
            let rest = spec_build_tasks(sharedv, sdv.skip(i + 1), lpv, oov, output_is_dir);
            match rest {
                Ok(rs) => {
                    assert(step == Ok::<Seq<CompilationTaskView>, PrepareErrorView>(
                        seq![tv] + rs,
                    ));
                    assert(prev + (seq![tv] + rs) =~= tasks.deep_view() + rs);
                },
                Err(_) => {},
            }
        }
        i = i + 1;
    }
    proof {
        assert(sdv.skip(i as int) =~= Seq::<Seq<char>>::empty());
        assert(tasks.deep_view() + Seq::<CompilationTaskView>::empty() =~= tasks.deep_view());
    }
    Ok(tasks)
}

/// One expanded argument list, one working directory and one directory
/// answer give one task split: the result is a function of these inputs
/// alone, so two runs agree.
pub proof fn lemma_create_tasks_deterministic(
    dir: Seq<char>,
    tokens: Seq<Seq<char>>,
    run_second_cpp: bool,
    output_is_dir: bool,
    r1: Result<Seq<CompilationTaskView>, PrepareErrorView>,
    r2: Result<Seq<CompilationTaskView>, PrepareErrorView>,
)
    requires
        r1 == spec_create_tasks(dir, tokens, run_second_cpp, output_is_dir),
        r2 == spec_create_tasks(dir, tokens, run_second_cpp, output_is_dir),
    ensures
        r1 == r2,
{
}

} // verus!
